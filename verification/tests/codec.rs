//! Tests of the byte codec, the journal record format, the table layer and
//! the transaction manager.

use microdb::entity::Entity;
use microdb::schema::{Airport, FlightReservationCount, HoursAndMinutes, Reservation};
use microdb::serialize::{
    deserialize, read_string, read_u16, read_u64, read_u8, read_usize, serialize_to_vec,
    write_string, write_u16, write_u64, write_u8, write_usize,
};
use microdb::table::{table_id_from_name, Table, TableBase};
use microdb::transaction::TransactionManager;
use microdb::transaction_storage::{encode_record, parse_journal, SerializedTransaction};

#[test]
fn integer_fields_round_trip() {
    let mut buf: Vec<u8> = Vec::new();
    write_u8(&mut buf, 200);
    write_u16(&mut buf, 40000);
    write_u64(&mut buf, 0x0123456789abcdef);
    write_usize(&mut buf, 77);
    let (a, p1) = read_u8(&buf, 0).unwrap();
    let (b, p2) = read_u16(&buf, p1).unwrap();
    let (c, p3) = read_u64(&buf, p2).unwrap();
    let (d, p4) = read_usize(&buf, p3).unwrap();
    assert_eq!(200, a);
    assert_eq!(40000, b);
    assert_eq!(0x0123456789abcdef, c);
    assert_eq!(77, d);
    assert_eq!(buf.len(), p4);
}

#[test]
fn u64_is_little_endian() {
    let mut buf: Vec<u8> = Vec::new();
    write_u64(&mut buf, 0x0102030405060708);
    assert_eq!(vec![8u8, 7, 6, 5, 4, 3, 2, 1], buf);
}

#[test]
fn strings_round_trip_utf8() {
    let mut buf: Vec<u8> = Vec::new();
    write_string(&mut buf, &String::from("uti kávé ☕"));
    let (s, end) = read_string(&buf, 0).unwrap();
    assert_eq!("uti kávé ☕", s.as_str());
    assert_eq!(buf.len(), end);
}

#[test]
fn reservation_round_trips() {
    let r = Reservation { flight_id: 9, year: 2022, week: 30, name: String::from("Mérő Éva") };
    let bytes = serialize_to_vec(&r);
    let back: Reservation = deserialize(&bytes).unwrap();
    assert_eq!(9, back.flight_id);
    assert_eq!(2022, back.year);
    assert_eq!(30, back.week);
    assert_eq!("Mérő Éva", back.name.as_str());
}

#[test]
fn trailing_bytes_are_rejected() {
    let r = FlightReservationCount { flight_id: 1, year: 2022, week: 30, count: 2 };
    let mut bytes = serialize_to_vec(&r);
    bytes.push(0);
    assert!(deserialize::<FlightReservationCount>(&bytes).is_none());
}

#[test]
fn truncated_bytes_are_rejected() {
    let a = Airport { code: String::from("BUD"), name: String::from("Budapest Airport") };
    let mut bytes = serialize_to_vec(&a);
    bytes.pop();
    assert!(deserialize::<Airport>(&bytes).is_none());
}

#[test]
fn journal_records_round_trip() {
    let mut journal: Vec<u8> = Vec::new();
    encode_record(&mut journal, &String::from("add_reservation"), &vec![1, 2, 3]);
    encode_record(&mut journal, &String::from("change_flight_schedule"), &vec![]);
    let records: Vec<SerializedTransaction> = parse_journal(&journal).unwrap();
    assert_eq!(2, records.len());
    assert_eq!("add_reservation", records[0].name.as_str());
    assert_eq!(vec![1u8, 2, 3], records[0].serialized_parameters);
    assert_eq!("change_flight_schedule", records[1].name.as_str());
    assert!(records[1].serialized_parameters.is_empty());
}

#[test]
fn journal_rejects_torn_record() {
    let mut journal: Vec<u8> = Vec::new();
    encode_record(&mut journal, &String::from("add_reservation"), &vec![1, 2, 3]);
    journal.pop();
    assert!(parse_journal(&journal).is_none());
    assert!(parse_journal(&vec![0xff, 0xff]).is_none());
}

#[test]
fn empty_journal_parses_to_no_records() {
    let records = parse_journal(&Vec::new()).unwrap();
    assert_eq!(0, records.len());
}

#[test]
fn table_ids_are_stable_and_distinct() {
    assert_eq!(table_id_from_name("airports"), table_id_from_name("airports"));
    assert_eq!(0xf977b8b3e2da6b2d, table_id_from_name("airports"));
    assert_eq!(0x4a1ca2dd904b033e, table_id_from_name("flights"));
    assert_ne!(table_id_from_name("airports"), table_id_from_name("flights"));
}

#[test]
fn total_minutes_is_exact() {
    assert_eq!(8 * 60 + 45, HoursAndMinutes::new(8, 45).get_total_minutes());
    assert_eq!(0, HoursAndMinutes::new(0, 0).get_total_minutes());
    assert_eq!(23 * 60 + 59, HoursAndMinutes::new(23, 59).get_total_minutes());
}

#[test]
fn table_assigns_increasing_ids_from_one() {
    let mut tm = TransactionManager::new();
    let mut t: Table<FlightReservationCount> = Table::new("counts");
    assert_eq!(1, t.first_free_id);
    let a = t.add(&mut tm, FlightReservationCount { flight_id: 1, year: 2022, week: 1, count: 1 });
    let b = t.add(&mut tm, FlightReservationCount { flight_id: 2, year: 2022, week: 1, count: 1 });
    assert_eq!(1, a);
    assert_eq!(2, b);
    assert!(b > a);
    assert_eq!(1, t.get(a).unwrap().value().flight_id);
    assert_eq!(2, t.get(b).unwrap().value().flight_id);
    t.remove(a);
    assert!(t.get(a).is_none());
    let c = t.add(&mut tm, FlightReservationCount { flight_id: 3, year: 2022, week: 1, count: 1 });
    assert_eq!(3, c);
}

#[test]
fn set_overwrites_and_reports_missing() {
    let mut tm = TransactionManager::new();
    let mut t: Table<FlightReservationCount> = Table::new("counts");
    let a = t.add(&mut tm, FlightReservationCount { flight_id: 1, year: 2022, week: 1, count: 1 });
    assert!(t.set(&mut tm, a, FlightReservationCount { flight_id: 1, year: 2022, week: 1, count: 5 }));
    assert_eq!(5, t.get(a).unwrap().value().count);
    assert!(!t.set(&mut tm, 99, FlightReservationCount { flight_id: 1, year: 2022, week: 1, count: 5 }));
}

// The undo-capture rule: within one transaction the first write of an
// entity records one undo entry and later writes record none, and rollback
// restores the value from before the transaction.
#[test]
fn one_snapshot_per_entity_and_rollback_restores() {
    let mut tm = TransactionManager::new();
    let mut t: Table<FlightReservationCount> = Table::new("counts");
    let a = t.add(&mut tm, FlightReservationCount { flight_id: 1, year: 2022, week: 1, count: 1 });

    tm.begin_transaction();
    assert!(tm.is_transaction_running());
    assert_eq!(2, tm.get_transaction_id());
    t.set(&mut tm, a, FlightReservationCount { flight_id: 1, year: 2022, week: 1, count: 2 });
    t.set(&mut tm, a, FlightReservationCount { flight_id: 1, year: 2022, week: 1, count: 3 });
    t.set(&mut tm, a, FlightReservationCount { flight_id: 1, year: 2022, week: 1, count: 4 });
    assert_eq!(4, t.get(a).unwrap().value().count);
    tm.commit_transaction();
    assert!(!tm.is_transaction_running());
    assert_eq!(4, t.get(a).unwrap().value().count);
}

#[test]
fn entity_carries_its_identity() {
    let e = Entity::new(7, 42, FlightReservationCount { flight_id: 1, year: 2022, week: 1, count: 1 });
    assert_eq!(7, e.get_id());
    assert_eq!(1, e.value().count);
}

#[test]
fn rollback_capabilities_restore_and_erase() {
    let mut tm = TransactionManager::new();
    let mut t: Table<FlightReservationCount> = Table::new("counts");
    let a = t.add(&mut tm, FlightReservationCount { flight_id: 1, year: 2022, week: 9, count: 1 });
    let b = t.add(&mut tm, FlightReservationCount { flight_id: 2, year: 2022, week: 9, count: 7 });
    let prior = serialize_to_vec(t.get(a).unwrap().value());
    t.set(&mut tm, a, FlightReservationCount { flight_id: 1, year: 2022, week: 9, count: 8 });
    assert_eq!(8, t.get(a).unwrap().value().count);
    t.rollback_to_existing(a, &prior);
    assert_eq!(1, t.get(a).unwrap().value().count);
    t.rollback_to_not_existing(b);
    assert!(t.get(b).is_none());
}
