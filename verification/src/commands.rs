//! The airline commands: reserving seats and changing a flight's schedule.
//!
//! Each command's meaning is a spec function over the database contents and
//! id counters; `run` realizes it through the undo-capturing table
//! operations, so a failing command rolls back completely.  The private
//! `db_*` helpers lift one table operation to the whole database record:
//! they restate the table's contract at the level of the database image,
//! contents and coherence, which is where the command proofs compose.

use vstd::prelude::*;
use vstd::string::StringExecFns;
use crate::command::{CommandBase, CommandDefinitions};
use crate::schema::{
    AirlineContents, AirlineCounters, AirlineDatabase, Flight, FlightReservationCount, FlightView,
    HoursAndMinutes, Reservation, ReservationView,
};
use crate::serialize::{
    deserialize, read_usize, read_u8, lemma_take_list, lemma_take_list_canonical,
    lemma_take_usize, lemma_take_usize_canonical, lemma_take_u8, lemma_take_u8_canonical,
    read_vec, seq_fits, seq_view, serialize_to_vec, spec_deserialize, spec_serialize_list,
    spec_serialize_u8, spec_serialize_usize, spec_take_list, spec_take_u8, spec_take_usize,
    write_u8, write_usize, write_vec, Serializable,
};
use crate::table::{lemma_coherent_append_other, Table};
use crate::transaction::{
    apply_undo, lemma_undo_covered_update, lemma_undo_insert_fresh, lemma_undo_overwrite,
    TransactionLog, TransactionManager, UndoEntry,
};
use crate::Database;

verus! {

/// Insert a reservation row, lifted to the database record.
fn db_add_reservation(
    db: &mut AirlineDatabase,
    tm: &mut TransactionManager,
    r: Reservation,
) -> (id: usize)
    requires
        old(db).inv(),
        old(tm).inv(),
        old(db).coherent(old(tm)@),
        old(db).reservations.first_free_id < usize::MAX,
        Reservation::spec_fits(r@),
    ensures
        final(db).inv(),
        final(tm).inv(),
        final(db).coherent(final(tm)@),
        final(tm)@.transaction_id == old(tm)@.transaction_id,
        final(tm)@.running == old(tm)@.running,
        !old(tm)@.running ==> final(tm)@ == old(tm)@,
        id == old(db).counters().reservations,
        final(db).contents() == (AirlineContents {
            reservations: old(db).contents().reservations.insert(id, r@),
            ..old(db).contents()
        }),
        final(db).counters() == (AirlineCounters {
            reservations: (id + 1) as usize,
            ..old(db).counters()
        }),
        old(tm)@.running ==> apply_undo(final(db).image(), final(tm)@.entries) == apply_undo(
            old(db).image(),
            old(tm)@.entries,
        ),
        forall|e: UndoEntry|
            #![trigger final(db).entry_ok(e)]
            old(db).entry_ok(e) ==> final(db).entry_ok(e),
{
    let ghost image0 = db.image();
    let ghost log0 = tm@;
    let ghost tkey = db.reservations.id;
    let ghost rv = r@;
    let id = db.reservations.add(tm, r);
    proof {
        crate::serialize::lemma_deserialize_round_trip::<Reservation>(rv);
        if !log0.running {
            assert(tm@ =~= log0);
        }
        if tm@.entries != log0.entries {
            assert(tm@.entries == log0.entries.push(
                UndoEntry::NotExisting { table_id: tkey, entity_id: id },
            ));
            assert(tm@.entries.last() == (UndoEntry::NotExisting {
                table_id: tkey,
                entity_id: id,
            }));
        }
        lemma_db_lift_reservations(*old(db), *db, log0, tm@, image0);
        assert(db.contents() =~= (AirlineContents {
            reservations: old(db).contents().reservations.insert(id, rv),
            ..old(db).contents()
        }));
        assert(db.counters() =~= (AirlineCounters {
            reservations: (id + 1) as usize,
            ..old(db).counters()
        }));
        if log0.running {
            lemma_undo_insert_fresh(
                image0,
                log0.entries,
                tkey,
                id,
                Reservation::spec_serialize(rv),
            );
            assert(db.image() =~~= image0.insert(
                tkey,
                image0[tkey].insert(id, Reservation::spec_serialize(rv)),
            ));
        }
    }
    id
}

/// The lifting proof for a mutation of the airports table: the whole
/// database's image, coherence and entry validity follow from the table's
/// contract.
proof fn lemma_db_lift_airports(
    db0: AirlineDatabase,
    db1: AirlineDatabase,
    log0: TransactionLog,
    log1: TransactionLog,
    image0: crate::transaction::DbImage,
)
    requires
        db0.inv(),
        image0 == db0.image(),
        db1.flights == db0.flights,
        db1.reservations == db0.reservations,
        db1.flight_reservation_counts == db0.flight_reservation_counts,
        db1.airports.id == db0.airports.id,
        db1.airports.inv(),
        db1.airports.coherent_with(log1),
        db0.flights.coherent_with(log0),
        db0.reservations.coherent_with(log0),
        db0.flight_reservation_counts.coherent_with(log0),
        forall|k: int| 0 <= k < log0.entries.len() ==> db0.entry_ok(#[trigger] log0.entries[k]),
        forall|e: UndoEntry|
            #![trigger db1.airports.entry_ok_for(e)]
            db0.airports.entry_ok_for(e) ==> db1.airports.entry_ok_for(e),
        log1.transaction_id == log0.transaction_id,
        log1.running == log0.running,
        log1.entries == log0.entries || (log1.entries == log0.entries.push(log1.entries.last())
            && log1.entries.last().table_id() == db0.airports.id),
    ensures
        db1.inv(),
        db1.coherent(log1),
        db1.image() == image0.insert(db0.airports.id, db1.airports.image_map()),
        image0.dom().contains(db0.airports.id),
        image0[db0.airports.id] == db0.airports.image_map(),
        forall|e: UndoEntry| #![trigger db1.entry_ok(e)] db0.entry_ok(e) ==> db1.entry_ok(e),
{
    let tkey = db0.airports.id;
    assert(image0[tkey] == db0.airports.image_map());
    assert(db1.image() =~~= image0.insert(tkey, db1.airports.image_map()));
    assert forall|e: UndoEntry| db0.entry_ok(e) implies #[trigger] db1.entry_ok(e) by {}
    if log1.entries != log0.entries {
        let e = log1.entries.last();
        assert(e.table_id() == tkey);
        lemma_coherent_append_other(&db1.flights, log0, log1, e);
        lemma_coherent_append_other(&db1.reservations, log0, log1, e);
        lemma_coherent_append_other(&db1.flight_reservation_counts, log0, log1, e);
        assert forall|k: int| 0 <= k < log1.entries.len() implies db1.entry_ok(
            #[trigger] log1.entries[k],
        ) by {
            if k < log0.entries.len() {
                assert(log1.entries[k] == log0.entries[k]);
                assert(db0.entry_ok(log0.entries[k]));
            } else {
                assert(log1.entries[k] == e);
            }
        }
    } else {
        assert(log1 =~= log0);
        assert forall|k: int| 0 <= k < log1.entries.len() implies db1.entry_ok(
            #[trigger] log1.entries[k],
        ) by {
            assert(db0.entry_ok(log0.entries[k]));
        }
    }
}

/// The lifting proof for a mutation of the flights table: the whole
/// database's image, coherence and entry validity follow from the table's
/// contract.
proof fn lemma_db_lift_flights(
    db0: AirlineDatabase,
    db1: AirlineDatabase,
    log0: TransactionLog,
    log1: TransactionLog,
    image0: crate::transaction::DbImage,
)
    requires
        db0.inv(),
        image0 == db0.image(),
        db1.airports == db0.airports,
        db1.reservations == db0.reservations,
        db1.flight_reservation_counts == db0.flight_reservation_counts,
        db1.flights.id == db0.flights.id,
        db1.flights.inv(),
        db1.flights.coherent_with(log1),
        db0.airports.coherent_with(log0),
        db0.reservations.coherent_with(log0),
        db0.flight_reservation_counts.coherent_with(log0),
        forall|k: int| 0 <= k < log0.entries.len() ==> db0.entry_ok(#[trigger] log0.entries[k]),
        forall|e: UndoEntry|
            #![trigger db1.flights.entry_ok_for(e)]
            db0.flights.entry_ok_for(e) ==> db1.flights.entry_ok_for(e),
        log1.transaction_id == log0.transaction_id,
        log1.running == log0.running,
        log1.entries == log0.entries || (log1.entries == log0.entries.push(log1.entries.last())
            && log1.entries.last().table_id() == db0.flights.id),
    ensures
        db1.inv(),
        db1.coherent(log1),
        db1.image() == image0.insert(db0.flights.id, db1.flights.image_map()),
        image0.dom().contains(db0.flights.id),
        image0[db0.flights.id] == db0.flights.image_map(),
        forall|e: UndoEntry| #![trigger db1.entry_ok(e)] db0.entry_ok(e) ==> db1.entry_ok(e),
{
    let tkey = db0.flights.id;
    assert(image0[tkey] == db0.flights.image_map());
    assert(db1.image() =~~= image0.insert(tkey, db1.flights.image_map()));
    assert forall|e: UndoEntry| db0.entry_ok(e) implies #[trigger] db1.entry_ok(e) by {}
    if log1.entries != log0.entries {
        let e = log1.entries.last();
        assert(e.table_id() == tkey);
        lemma_coherent_append_other(&db1.airports, log0, log1, e);
        lemma_coherent_append_other(&db1.reservations, log0, log1, e);
        lemma_coherent_append_other(&db1.flight_reservation_counts, log0, log1, e);
        assert forall|k: int| 0 <= k < log1.entries.len() implies db1.entry_ok(
            #[trigger] log1.entries[k],
        ) by {
            if k < log0.entries.len() {
                assert(log1.entries[k] == log0.entries[k]);
                assert(db0.entry_ok(log0.entries[k]));
            } else {
                assert(log1.entries[k] == e);
            }
        }
    } else {
        assert(log1 =~= log0);
        assert forall|k: int| 0 <= k < log1.entries.len() implies db1.entry_ok(
            #[trigger] log1.entries[k],
        ) by {
            assert(db0.entry_ok(log0.entries[k]));
        }
    }
}

/// The lifting proof for a mutation of the reservations table: the whole
/// database's image, coherence and entry validity follow from the table's
/// contract.
proof fn lemma_db_lift_reservations(
    db0: AirlineDatabase,
    db1: AirlineDatabase,
    log0: TransactionLog,
    log1: TransactionLog,
    image0: crate::transaction::DbImage,
)
    requires
        db0.inv(),
        image0 == db0.image(),
        db1.airports == db0.airports,
        db1.flights == db0.flights,
        db1.flight_reservation_counts == db0.flight_reservation_counts,
        db1.reservations.id == db0.reservations.id,
        db1.reservations.inv(),
        db1.reservations.coherent_with(log1),
        db0.airports.coherent_with(log0),
        db0.flights.coherent_with(log0),
        db0.flight_reservation_counts.coherent_with(log0),
        forall|k: int| 0 <= k < log0.entries.len() ==> db0.entry_ok(#[trigger] log0.entries[k]),
        forall|e: UndoEntry|
            #![trigger db1.reservations.entry_ok_for(e)]
            db0.reservations.entry_ok_for(e) ==> db1.reservations.entry_ok_for(e),
        log1.transaction_id == log0.transaction_id,
        log1.running == log0.running,
        log1.entries == log0.entries || (log1.entries == log0.entries.push(log1.entries.last())
            && log1.entries.last().table_id() == db0.reservations.id),
    ensures
        db1.inv(),
        db1.coherent(log1),
        db1.image() == image0.insert(db0.reservations.id, db1.reservations.image_map()),
        image0.dom().contains(db0.reservations.id),
        image0[db0.reservations.id] == db0.reservations.image_map(),
        forall|e: UndoEntry| #![trigger db1.entry_ok(e)] db0.entry_ok(e) ==> db1.entry_ok(e),
{
    let tkey = db0.reservations.id;
    assert(image0[tkey] == db0.reservations.image_map());
    assert(db1.image() =~~= image0.insert(tkey, db1.reservations.image_map()));
    assert forall|e: UndoEntry| db0.entry_ok(e) implies #[trigger] db1.entry_ok(e) by {}
    if log1.entries != log0.entries {
        let e = log1.entries.last();
        assert(e.table_id() == tkey);
        lemma_coherent_append_other(&db1.airports, log0, log1, e);
        lemma_coherent_append_other(&db1.flights, log0, log1, e);
        lemma_coherent_append_other(&db1.flight_reservation_counts, log0, log1, e);
        assert forall|k: int| 0 <= k < log1.entries.len() implies db1.entry_ok(
            #[trigger] log1.entries[k],
        ) by {
            if k < log0.entries.len() {
                assert(log1.entries[k] == log0.entries[k]);
                assert(db0.entry_ok(log0.entries[k]));
            } else {
                assert(log1.entries[k] == e);
            }
        }
    } else {
        assert(log1 =~= log0);
        assert forall|k: int| 0 <= k < log1.entries.len() implies db1.entry_ok(
            #[trigger] log1.entries[k],
        ) by {
            assert(db0.entry_ok(log0.entries[k]));
        }
    }
}

/// The lifting proof for a mutation of the flight_reservation_counts table: the whole
/// database's image, coherence and entry validity follow from the table's
/// contract.
proof fn lemma_db_lift_flight_reservation_counts(
    db0: AirlineDatabase,
    db1: AirlineDatabase,
    log0: TransactionLog,
    log1: TransactionLog,
    image0: crate::transaction::DbImage,
)
    requires
        db0.inv(),
        image0 == db0.image(),
        db1.airports == db0.airports,
        db1.flights == db0.flights,
        db1.reservations == db0.reservations,
        db1.flight_reservation_counts.id == db0.flight_reservation_counts.id,
        db1.flight_reservation_counts.inv(),
        db1.flight_reservation_counts.coherent_with(log1),
        db0.airports.coherent_with(log0),
        db0.flights.coherent_with(log0),
        db0.reservations.coherent_with(log0),
        forall|k: int| 0 <= k < log0.entries.len() ==> db0.entry_ok(#[trigger] log0.entries[k]),
        forall|e: UndoEntry|
            #![trigger db1.flight_reservation_counts.entry_ok_for(e)]
            db0.flight_reservation_counts.entry_ok_for(e) ==> db1.flight_reservation_counts.entry_ok_for(e),
        log1.transaction_id == log0.transaction_id,
        log1.running == log0.running,
        log1.entries == log0.entries || (log1.entries == log0.entries.push(log1.entries.last())
            && log1.entries.last().table_id() == db0.flight_reservation_counts.id),
    ensures
        db1.inv(),
        db1.coherent(log1),
        db1.image() == image0.insert(db0.flight_reservation_counts.id, db1.flight_reservation_counts.image_map()),
        image0.dom().contains(db0.flight_reservation_counts.id),
        image0[db0.flight_reservation_counts.id] == db0.flight_reservation_counts.image_map(),
        forall|e: UndoEntry| #![trigger db1.entry_ok(e)] db0.entry_ok(e) ==> db1.entry_ok(e),
{
    let tkey = db0.flight_reservation_counts.id;
    assert(image0[tkey] == db0.flight_reservation_counts.image_map());
    assert(db1.image() =~~= image0.insert(tkey, db1.flight_reservation_counts.image_map()));
    assert forall|e: UndoEntry| db0.entry_ok(e) implies #[trigger] db1.entry_ok(e) by {}
    if log1.entries != log0.entries {
        let e = log1.entries.last();
        assert(e.table_id() == tkey);
        lemma_coherent_append_other(&db1.airports, log0, log1, e);
        lemma_coherent_append_other(&db1.flights, log0, log1, e);
        lemma_coherent_append_other(&db1.reservations, log0, log1, e);
        assert forall|k: int| 0 <= k < log1.entries.len() implies db1.entry_ok(
            #[trigger] log1.entries[k],
        ) by {
            if k < log0.entries.len() {
                assert(log1.entries[k] == log0.entries[k]);
                assert(db0.entry_ok(log0.entries[k]));
            } else {
                assert(log1.entries[k] == e);
            }
        }
    } else {
        assert(log1 =~= log0);
        assert forall|k: int| 0 <= k < log1.entries.len() implies db1.entry_ok(
            #[trigger] log1.entries[k],
        ) by {
            assert(db0.entry_ok(log0.entries[k]));
        }
    }
}


/// Insert a reservation-count row, lifted to the database record.
fn db_add_count(
    db: &mut AirlineDatabase,
    tm: &mut TransactionManager,
    c: FlightReservationCount,
) -> (id: usize)
    requires
        old(db).inv(),
        old(tm).inv(),
        old(db).coherent(old(tm)@),
        old(db).flight_reservation_counts.first_free_id < usize::MAX,
    ensures
        final(db).inv(),
        final(tm).inv(),
        final(db).coherent(final(tm)@),
        final(tm)@.transaction_id == old(tm)@.transaction_id,
        final(tm)@.running == old(tm)@.running,
        !old(tm)@.running ==> final(tm)@ == old(tm)@,
        id == old(db).counters().flight_reservation_counts,
        final(db).contents() == (AirlineContents {
            flight_reservation_counts: old(db).contents().flight_reservation_counts.insert(
                id,
                c@,
            ),
            ..old(db).contents()
        }),
        final(db).counters() == (AirlineCounters {
            flight_reservation_counts: (id + 1) as usize,
            ..old(db).counters()
        }),
        old(tm)@.running ==> apply_undo(final(db).image(), final(tm)@.entries) == apply_undo(
            old(db).image(),
            old(tm)@.entries,
        ),
        forall|e: UndoEntry|
            #![trigger final(db).entry_ok(e)]
            old(db).entry_ok(e) ==> final(db).entry_ok(e),
{
    let ghost image0 = db.image();
    let ghost log0 = tm@;
    let ghost tkey = db.flight_reservation_counts.id;
    let ghost cv = c@;
    let id = db.flight_reservation_counts.add(tm, c);
    proof {
        if !log0.running {
            assert(tm@ =~= log0);
        }
        if tm@.entries != log0.entries {
            assert(tm@.entries.last() == (UndoEntry::NotExisting {
                table_id: tkey,
                entity_id: id,
            }));
        }
        lemma_db_lift_flight_reservation_counts(*old(db), *db, log0, tm@, image0);
        assert(db.contents() =~= (AirlineContents {
            flight_reservation_counts: old(db).contents().flight_reservation_counts.insert(
                id,
                cv,
            ),
            ..old(db).contents()
        }));
        assert(db.counters() =~= (AirlineCounters {
            flight_reservation_counts: (id + 1) as usize,
            ..old(db).counters()
        }));
        if log0.running {
            lemma_undo_insert_fresh(
                image0,
                log0.entries,
                tkey,
                id,
                FlightReservationCount::spec_serialize(cv),
            );
            assert(db.image() =~~= image0.insert(
                tkey,
                image0[tkey].insert(id, FlightReservationCount::spec_serialize(cv)),
            ));
        }
    }
    id
}

/// Overwrite a reservation-count row, lifted to the database record.
fn db_set_count(
    db: &mut AirlineDatabase,
    tm: &mut TransactionManager,
    id: usize,
    c: FlightReservationCount,
) -> (updated: bool)
    requires
        old(db).inv(),
        old(tm).inv(),
        old(db).coherent(old(tm)@),
    ensures
        final(db).inv(),
        final(tm).inv(),
        final(db).coherent(final(tm)@),
        final(tm)@.transaction_id == old(tm)@.transaction_id,
        final(tm)@.running == old(tm)@.running,
        !old(tm)@.running ==> final(tm)@ == old(tm)@,
        updated == old(db).contents().flight_reservation_counts.contains_key(id),
        !updated ==> *final(db) == *old(db) && final(tm)@ == old(tm)@,
        updated ==> final(db).contents() == (AirlineContents {
            flight_reservation_counts: old(db).contents().flight_reservation_counts.insert(
                id,
                c@,
            ),
            ..old(db).contents()
        }),
        final(db).counters() == old(db).counters(),
        old(tm)@.running ==> apply_undo(final(db).image(), final(tm)@.entries) == apply_undo(
            old(db).image(),
            old(tm)@.entries,
        ),
        forall|e: UndoEntry|
            #![trigger final(db).entry_ok(e)]
            old(db).entry_ok(e) ==> final(db).entry_ok(e),
{
    let ghost image0 = db.image();
    let ghost log0 = tm@;
    let ghost tkey = db.flight_reservation_counts.id;
    let ghost cv = c@;
    let updated = db.flight_reservation_counts.set(tm, id, c);
    proof {
        if !updated {
            assert(tm@ =~= log0);
            assert(*db =~= *old(db));
            assert(db.coherent(tm@));
        } else {
            let prior = old(db).flight_reservation_counts.rows_map()[id];
            let snap = log0.running && prior.last_modified_transaction_id < log0.transaction_id;
            if !log0.running || !snap {
                assert(tm@ =~= log0);
            }
            if tm@.entries != log0.entries {
                assert(tm@.entries.last() == (UndoEntry::Existing {
                    table_id: tkey,
                    entity_id: id,
                    state: FlightReservationCount::spec_serialize(prior.val@),
                }));
            }
            lemma_db_lift_flight_reservation_counts(*old(db), *db, log0, tm@, image0);
            assert(db.contents() =~= (AirlineContents {
                flight_reservation_counts: old(db).contents().flight_reservation_counts.insert(
                    id,
                    cv,
                ),
                ..old(db).contents()
            }));
            assert(db.counters() =~= old(db).counters());
            if log0.running {
                assert(db.image() =~~= image0.insert(
                    tkey,
                    image0[tkey].insert(id, FlightReservationCount::spec_serialize(cv)),
                ));
                if snap {
                    lemma_undo_overwrite(
                        image0,
                        log0.entries,
                        tkey,
                        id,
                        FlightReservationCount::spec_serialize(cv),
                    );
                } else {
                    lemma_undo_covered_update(
                        image0,
                        log0.entries,
                        tkey,
                        id,
                        FlightReservationCount::spec_serialize(cv),
                    );
                }
            }
        }
    }
    updated
}

/// Overwrite a flight row, lifted to the database record.
fn db_set_flight(
    db: &mut AirlineDatabase,
    tm: &mut TransactionManager,
    id: usize,
    f: Flight,
) -> (updated: bool)
    requires
        old(db).inv(),
        old(tm).inv(),
        old(db).coherent(old(tm)@),
        Flight::spec_fits(f@),
    ensures
        final(db).inv(),
        final(tm).inv(),
        final(db).coherent(final(tm)@),
        final(tm)@.transaction_id == old(tm)@.transaction_id,
        final(tm)@.running == old(tm)@.running,
        !old(tm)@.running ==> final(tm)@ == old(tm)@,
        updated == old(db).contents().flights.contains_key(id),
        !updated ==> *final(db) == *old(db) && final(tm)@ == old(tm)@,
        updated ==> final(db).contents() == (AirlineContents {
            flights: old(db).contents().flights.insert(id, f@),
            ..old(db).contents()
        }),
        final(db).counters() == old(db).counters(),
        old(tm)@.running ==> apply_undo(final(db).image(), final(tm)@.entries) == apply_undo(
            old(db).image(),
            old(tm)@.entries,
        ),
        forall|e: UndoEntry|
            #![trigger final(db).entry_ok(e)]
            old(db).entry_ok(e) ==> final(db).entry_ok(e),
{
    let ghost image0 = db.image();
    let ghost log0 = tm@;
    let ghost tkey = db.flights.id;
    let ghost fv = f@;
    let updated = db.flights.set(tm, id, f);
    proof {
        if !updated {
            assert(tm@ =~= log0);
            assert(*db =~= *old(db));
            assert(db.coherent(tm@));
        } else {
            let prior = old(db).flights.rows_map()[id];
            let snap = log0.running && prior.last_modified_transaction_id < log0.transaction_id;
            if !log0.running || !snap {
                assert(tm@ =~= log0);
            }
            if tm@.entries != log0.entries {
                assert(tm@.entries.last() == (UndoEntry::Existing {
                    table_id: tkey,
                    entity_id: id,
                    state: Flight::spec_serialize(prior.val@),
                }));
            }
            lemma_db_lift_flights(*old(db), *db, log0, tm@, image0);
            assert(db.contents() =~= (AirlineContents {
                flights: old(db).contents().flights.insert(id, fv),
                ..old(db).contents()
            }));
            assert(db.counters() =~= old(db).counters());
            if log0.running {
                assert(db.image() =~~= image0.insert(
                    tkey,
                    image0[tkey].insert(id, Flight::spec_serialize(fv)),
                ));
                if snap {
                    lemma_undo_overwrite(
                        image0,
                        log0.entries,
                        tkey,
                        id,
                        Flight::spec_serialize(fv),
                    );
                } else {
                    lemma_undo_covered_update(
                        image0,
                        log0.entries,
                        tkey,
                        id,
                        Flight::spec_serialize(fv),
                    );
                }
            }
        }
    }
    updated
}


/// Parameters of the schedule-change command.
#[derive(PartialEq, Eq, Structural, Clone, Copy, Debug)]
pub struct ChangeFlightScheduleParameters {
    pub flight_id: usize,
    pub day_of_week: u8,
    pub departure_time_hours: u8,
    pub departure_time_minutes: u8,
    pub arrival_time_hours: u8,
    pub arrival_time_minutes: u8,
}

impl View for ChangeFlightScheduleParameters {
    type V = ChangeFlightScheduleParameters;

    open spec fn view(&self) -> ChangeFlightScheduleParameters {
        *self
    }
}

impl Serializable for ChangeFlightScheduleParameters {
    open spec fn spec_serialize(v: Self::V) -> Seq<u8> {
        spec_serialize_usize(v.flight_id) + spec_serialize_u8(v.day_of_week) + spec_serialize_u8(
            v.departure_time_hours,
        ) + spec_serialize_u8(v.departure_time_minutes) + spec_serialize_u8(v.arrival_time_hours)
            + spec_serialize_u8(v.arrival_time_minutes)
    }

    open spec fn spec_fits(v: Self::V) -> bool {
        true
    }

    open spec fn spec_take(b: Seq<u8>) -> Option<(Self::V, Seq<u8>)> {
        match spec_take_usize(b) {
            None => None,
            Some((flight_id, b1)) => match spec_take_u8(b1) {
                None => None,
                Some((day_of_week, b2)) => match spec_take_u8(b2) {
                    None => None,
                    Some((departure_time_hours, b3)) => match spec_take_u8(b3) {
                        None => None,
                        Some((departure_time_minutes, b4)) => match spec_take_u8(b4) {
                            None => None,
                            Some((arrival_time_hours, b5)) => match spec_take_u8(b5) {
                                None => None,
                                Some((arrival_time_minutes, b6)) => Some(
                                    (
                                        ChangeFlightScheduleParameters {
                                            flight_id,
                                            day_of_week,
                                            departure_time_hours,
                                            departure_time_minutes,
                                            arrival_time_hours,
                                            arrival_time_minutes,
                                        },
                                        b6,
                                    ),
                                ),
                            },
                        },
                    },
                },
            },
        }
    }

    proof fn lemma_take_round_trip(v: Self::V, rest: Seq<u8>) {
        let s6 = spec_serialize_u8(v.arrival_time_minutes);
        let s5 = spec_serialize_u8(v.arrival_time_hours);
        let s4 = spec_serialize_u8(v.departure_time_minutes);
        let s3 = spec_serialize_u8(v.departure_time_hours);
        let s2 = spec_serialize_u8(v.day_of_week);
        let s1 = spec_serialize_usize(v.flight_id);
        assert(Self::spec_serialize(v) + rest =~= s1 + (s2 + (s3 + (s4 + (s5 + (s6 + rest))))));
        lemma_take_usize(v.flight_id, s2 + (s3 + (s4 + (s5 + (s6 + rest)))));
        lemma_take_u8(v.day_of_week, s3 + (s4 + (s5 + (s6 + rest))));
        lemma_take_u8(v.departure_time_hours, s4 + (s5 + (s6 + rest)));
        lemma_take_u8(v.departure_time_minutes, s5 + (s6 + rest));
        lemma_take_u8(v.arrival_time_hours, s6 + rest);
        lemma_take_u8(v.arrival_time_minutes, rest);
    }

    proof fn lemma_take_canonical(b: Seq<u8>) {
        lemma_take_usize_canonical(b);
        if spec_take_usize(b) is Some {
            let (flight_id, b1) = spec_take_usize(b).unwrap();
            lemma_take_u8_canonical(b1);
            if spec_take_u8(b1) is Some {
                let (day_of_week, b2) = spec_take_u8(b1).unwrap();
                lemma_take_u8_canonical(b2);
                if spec_take_u8(b2) is Some {
                    let (departure_time_hours, b3) = spec_take_u8(b2).unwrap();
                    lemma_take_u8_canonical(b3);
                    if spec_take_u8(b3) is Some {
                        let (departure_time_minutes, b4) = spec_take_u8(b3).unwrap();
                        lemma_take_u8_canonical(b4);
                        if spec_take_u8(b4) is Some {
                            let (arrival_time_hours, b5) = spec_take_u8(b4).unwrap();
                            lemma_take_u8_canonical(b5);
                            if spec_take_u8(b5) is Some {
                                let (arrival_time_minutes, b6) = spec_take_u8(b5).unwrap();
                                let v = ChangeFlightScheduleParameters {
                                    flight_id,
                                    day_of_week,
                                    departure_time_hours,
                                    departure_time_minutes,
                                    arrival_time_hours,
                                    arrival_time_minutes,
                                };
                                assert(Self::spec_serialize(v) + b6 =~= spec_serialize_usize(
                                    flight_id,
                                ) + (spec_serialize_u8(day_of_week) + (spec_serialize_u8(
                                    departure_time_hours,
                                ) + (spec_serialize_u8(departure_time_minutes) + (
                                spec_serialize_u8(arrival_time_hours) + (spec_serialize_u8(
                                    arrival_time_minutes,
                                ) + b6))))));
                            }
                        }
                    }
                }
            }
        }
    }

    fn serialize(&self, out: &mut Vec<u8>) {
        write_usize(out, self.flight_id);
        write_u8(out, self.day_of_week);
        write_u8(out, self.departure_time_hours);
        write_u8(out, self.departure_time_minutes);
        write_u8(out, self.arrival_time_hours);
        write_u8(out, self.arrival_time_minutes);
        proof {
            assert(out@ =~= old(out)@ + Self::spec_serialize(self@));
        }
    }

    fn read_from(bytes: &[u8], pos: usize) -> (r: Option<(Self, usize)>) {
        let (flight_id, p1) = match read_usize(bytes, pos) {
            Some(x) => x,
            None => {
                return None;
            },
        };
        let (day_of_week, p2) = match read_u8(bytes, p1) {
            Some(x) => x,
            None => {
                return None;
            },
        };
        let (departure_time_hours, p3) = match read_u8(bytes, p2) {
            Some(x) => x,
            None => {
                return None;
            },
        };
        let (departure_time_minutes, p4) = match read_u8(bytes, p3) {
            Some(x) => x,
            None => {
                return None;
            },
        };
        let (arrival_time_hours, p5) = match read_u8(bytes, p4) {
            Some(x) => x,
            None => {
                return None;
            },
        };
        let (arrival_time_minutes, p6) = match read_u8(bytes, p5) {
            Some(x) => x,
            None => {
                return None;
            },
        };
        Some(
            (
                ChangeFlightScheduleParameters {
                    flight_id,
                    day_of_week,
                    departure_time_hours,
                    departure_time_minutes,
                    arrival_time_hours,
                    arrival_time_minutes,
                },
                p6,
            ),
        )
    }
}

// ------------------------------------------------------------------
// What the commands mean
// ------------------------------------------------------------------

/// Whether a count row is for the given flight, year and week.
pub open spec fn count_matches(
    c: FlightReservationCount,
    flight_id: usize,
    year: u16,
    week: u8,
) -> bool {
    c.flight_id == flight_id && c.year == year && c.week == week
}

/// Whether `id` is the lowest id of a matching count row.
pub open spec fn is_first_count(
    m: Map<usize, FlightReservationCount>,
    flight_id: usize,
    year: u16,
    week: u8,
    id: usize,
) -> bool {
    &&& m.contains_key(id)
    &&& count_matches(m[id], flight_id, year, week)
    &&& forall|j: usize|
        j < id ==> !(m.contains_key(j) && count_matches(#[trigger] m[j], flight_id, year, week))
}

/// The lowest id of a matching count row, if any row matches.
pub open spec fn find_count_spec(
    m: Map<usize, FlightReservationCount>,
    flight_id: usize,
    year: u16,
    week: u8,
) -> Option<usize> {
    if exists|id: usize| is_first_count(m, flight_id, year, week, id) {
        Some(choose|id: usize| is_first_count(m, flight_id, year, week, id))
    } else {
        None
    }
}

/// The meaning of the schedule-change command: both times change, and the
/// day changes when it is a valid day of week; an unknown flight or an
/// invalid day is an error that rolls everything back.
pub open spec fn spec_change_flight_schedule(
    v: AirlineContents,
    p: ChangeFlightScheduleParameters,
) -> Result<AirlineContents, Seq<char>> {
    if !v.flights.contains_key(p.flight_id) {
        Err("Invalid flight id"@)
    } else if p.day_of_week < 1 || p.day_of_week > 7 {
        Err("Invalid day of week"@)
    } else {
        let f = v.flights[p.flight_id];
        Ok(
            AirlineContents {
                flights: v.flights.insert(
                    p.flight_id,
                    FlightView {
                        day_of_week: p.day_of_week,
                        departure_time_utc: HoursAndMinutes {
                            hours: p.departure_time_hours,
                            minutes: p.departure_time_minutes,
                        },
                        arrival_time_utc: HoursAndMinutes {
                            hours: p.arrival_time_hours,
                            minutes: p.arrival_time_minutes,
                        },
                        ..f
                    },
                ),
                ..v
            },
        )
    }
}

/// The meaning of the reservation command: reserve every listed seat in one
/// transaction, keeping the per-flight count; the first reservation without
/// a free seat, for an unknown flight, or past an exhausted id counter is
/// an error that rolls every earlier reservation of the batch back.
pub open spec fn spec_add_reservations(
    v: AirlineContents,
    c: AirlineCounters,
    rs: Seq<ReservationView>,
) -> (Result<AirlineContents, Seq<char>>, AirlineCounters)
    decreases rs.len(),
{
    if rs.len() == 0 {
        (Ok(v), c)
    } else {
        let r = rs[0];
        if c.reservations == usize::MAX || c.flight_reservation_counts == usize::MAX {
            (Err("the table id counter is exhausted"@), c)
        } else if !v.flights.contains_key(r.flight_id) {
            (Err("Invalid flight id"@), c)
        } else {
            let seats = v.flights[r.flight_id].seats;
            match find_count_spec(v.flight_reservation_counts, r.flight_id, r.year, r.week) {
                None => {
                    let v2 = AirlineContents {
                        flight_reservation_counts: v.flight_reservation_counts.insert(
                            c.flight_reservation_counts,
                            FlightReservationCount {
                                flight_id: r.flight_id,
                                year: r.year,
                                week: r.week,
                                count: 1,
                            },
                        ),
                        reservations: v.reservations.insert(c.reservations, r),
                        ..v
                    };
                    let c2 = AirlineCounters {
                        flight_reservation_counts: (c.flight_reservation_counts + 1) as usize,
                        reservations: (c.reservations + 1) as usize,
                        ..c
                    };
                    spec_add_reservations(v2, c2, rs.drop_first())
                },
                Some(cid) => {
                    let cnt = v.flight_reservation_counts[cid];
                    if seats <= cnt.count {
                        (Err("No free seat is avaiable for reservation"@), c)
                    } else {
                        let v2 = AirlineContents {
                            flight_reservation_counts: v.flight_reservation_counts.insert(
                                cid,
                                FlightReservationCount { count: (cnt.count + 1) as usize, ..cnt },
                            ),
                            reservations: v.reservations.insert(c.reservations, r),
                            ..v
                        };
                        let c2 = AirlineCounters {
                            reservations: (c.reservations + 1) as usize,
                            ..c
                        };
                        spec_add_reservations(v2, c2, rs.drop_first())
                    }
                },
            }
        }
    }
}

/// The lowest-id matching count row, by a scan.
fn find_count(
    t: &Table<FlightReservationCount>,
    flight_id: usize,
    year: u16,
    week: u8,
) -> (r: Option<usize>)
    requires
        t.inv(),
    ensures
        r == find_count_spec(t.content_map(), flight_id, year, week),
{
    let ghost m = t.content_map();
    let mut best: Option<usize> = None;
    let mut k: usize = 0;
    while k < t.len()
        invariant
            t.inv(),
            m == t.content_map(),
            k <= t.rows@.len(),
            match best {
                Some(b) => m.contains_key(b) && count_matches(m[b], flight_id, year, week) && (
                forall|k2: int|
                    0 <= k2 < k ==> count_matches(
                        (#[trigger] t.rows@[k2]).val,
                        flight_id,
                        year,
                        week,
                    ) ==> t.rows@[k2].id >= b),
                None => forall|k2: int|
                    0 <= k2 < k ==> !count_matches(
                        (#[trigger] t.rows@[k2]).val,
                        flight_id,
                        year,
                        week,
                    ),
            },
        decreases t.rows@.len() - k,
    {
        let e = t.entity_at(k);
        let c = e.value();
        if c.flight_id == flight_id && c.year == year && c.week == week {
            proof {
                crate::table::lemma_rows_map_index(t.rows@, k as int);
            }
            let id = e.get_id();
            match best {
                None => {
                    best = Some(id);
                },
                Some(b) => {
                    if id < b {
                        best = Some(id);
                    }
                },
            }
        }
        k = k + 1;
    }
    proof {
        match best {
            Some(b) => {
                assert forall|j: usize|
                    j < b implies !(m.contains_key(j) && count_matches(
                    m[j],
                    flight_id,
                    year,
                    week,
                )) by {
                    if m.contains_key(j) {
                        crate::table::lemma_rows_map_dom(t.rows@, j);
                        let k2 = choose|k2: int|
                            0 <= k2 < t.rows@.len() && (#[trigger] t.rows@[k2]).id == j;
                        crate::table::lemma_rows_map_index(t.rows@, k2);
                    }
                }
                assert(is_first_count(m, flight_id, year, week, b));
                let w = choose|id: usize| is_first_count(m, flight_id, year, week, id);
                assert(!(w < b) && !(b < w));
            },
            None => {
                if find_count_spec(m, flight_id, year, week) is Some {
                    let w = choose|id: usize| is_first_count(m, flight_id, year, week, id);
                    crate::table::lemma_rows_map_dom(t.rows@, w);
                    let k2 = choose|k2: int|
                        0 <= k2 < t.rows@.len() && (#[trigger] t.rows@[k2]).id == w;
                    crate::table::lemma_rows_map_index(t.rows@, k2);
                }
            },
        }
    }
    best
}


/// Run the schedule change: write the new times, then validate the day and
/// write it too.  The original writes the times before it validates, so an
/// invalid day leaves a half-changed flight for rollback to restore — which
/// it does, exactly.
fn run_change_flight_schedule(
    db: &mut AirlineDatabase,
    tm: &mut TransactionManager,
    p: &ChangeFlightScheduleParameters,
) -> (r: Result<(), String>)
    requires
        old(db).inv(),
        old(tm).inv(),
        old(db).coherent(old(tm)@),
    ensures
        final(db).inv(),
        final(tm).inv(),
        final(db).coherent(final(tm)@),
        final(tm)@.transaction_id == old(tm)@.transaction_id,
        final(tm)@.running == old(tm)@.running,
        !old(tm)@.running ==> final(tm)@ == old(tm)@,
        final(db).counters() == old(db).counters(),
        old(tm)@.running ==> apply_undo(final(db).image(), final(tm)@.entries) == apply_undo(
            old(db).image(),
            old(tm)@.entries,
        ),
        forall|e: UndoEntry|
            #![trigger final(db).entry_ok(e)]
            old(db).entry_ok(e) ==> final(db).entry_ok(e),
        r is Ok ==> spec_change_flight_schedule(old(db).contents(), *p) == Ok::<
            AirlineContents,
            Seq<char>,
        >(final(db).contents()),
        r matches Err(m) ==> spec_change_flight_schedule(old(db).contents(), *p) == Err::<
            AirlineContents,
            Seq<char>,
        >(m@),
{
    let ghost v0 = db.contents();
    let flight_id = p.flight_id;
    let (flight_numer, departure_airport_id, arrival_airport_id, day0, seats) = match db.flights.get(
        flight_id,
    ) {
        None => {
            proof {
                assert(!v0.flights.contains_key(flight_id));
            }
            return Err(String::from_str("Invalid flight id"));
        },
        Some(e) => {
            proof {
                crate::table::lemma_rows_map_dom(db.flights.rows@, flight_id);
                let k = choose|k: int|
                    0 <= k < db.flights.rows@.len() && (#[trigger] db.flights.rows@[k]).id
                        == flight_id;
                crate::table::lemma_rows_map_index(db.flights.rows@, k);
            }
            let f = e.value();
            (
                f.flight_numer.clone(),
                f.departure_airport_id,
                f.arrival_airport_id,
                f.day_of_week,
                f.seats,
            )
        },
    };
    let f1 = Flight {
        flight_numer: flight_numer.clone(),
        departure_airport_id,
        arrival_airport_id,
        day_of_week: day0,
        departure_time_utc: HoursAndMinutes::new(p.departure_time_hours, p.departure_time_minutes),
        arrival_time_utc: HoursAndMinutes::new(p.arrival_time_hours, p.arrival_time_minutes),
        seats,
    };
    db_set_flight(db, tm, flight_id, f1);
    if p.day_of_week < 1 || p.day_of_week > 7 {
        return Err(String::from_str("Invalid day of week"));
    }
    let f2 = Flight {
        flight_numer,
        departure_airport_id,
        arrival_airport_id,
        day_of_week: p.day_of_week,
        departure_time_utc: HoursAndMinutes::new(p.departure_time_hours, p.departure_time_minutes),
        arrival_time_utc: HoursAndMinutes::new(p.arrival_time_hours, p.arrival_time_minutes),
        seats,
    };
    db_set_flight(db, tm, flight_id, f2);
    proof {
        let fv = v0.flights[flight_id];
        assert(v0.flights.insert(flight_id, f1@).insert(flight_id, f2@) =~= v0.flights.insert(
            flight_id,
            f2@,
        ));
        assert(db.contents() =~= (AirlineContents {
            flights: v0.flights.insert(flight_id, f2@),
            ..v0
        }));
        assert(f2@ =~= (FlightView {
            day_of_week: p.day_of_week,
            departure_time_utc: HoursAndMinutes {
                hours: p.departure_time_hours,
                minutes: p.departure_time_minutes,
            },
            arrival_time_utc: HoursAndMinutes {
                hours: p.arrival_time_hours,
                minutes: p.arrival_time_minutes,
            },
            ..fv
        }));
    }
    Ok(())
}

/// Copy a reservation value.
fn clone_reservation(r: &Reservation) -> (c: Reservation)
    ensures
        c@ == r@,
{
    Reservation { flight_id: r.flight_id, year: r.year, week: r.week, name: r.name.clone() }
}

/// Run the batch reservation: for each listed reservation, check the seat
/// count against the flight's capacity, keep the per-flight count, and
/// insert the reservation; the first failure rolls the whole batch back.
fn run_add_reservations(
    db: &mut AirlineDatabase,
    tm: &mut TransactionManager,
    rs: &Vec<Reservation>,
) -> (r: Result<(), String>)
    requires
        old(db).inv(),
        old(tm).inv(),
        old(db).coherent(old(tm)@),
        seq_fits::<Reservation>(seq_view(rs@)),
    ensures
        final(db).inv(),
        final(tm).inv(),
        final(db).coherent(final(tm)@),
        final(tm)@.transaction_id == old(tm)@.transaction_id,
        final(tm)@.running == old(tm)@.running,
        !old(tm)@.running ==> final(tm)@ == old(tm)@,
        final(db).counters() == spec_add_reservations(
            old(db).contents(),
            old(db).counters(),
            seq_view(rs@),
        ).1,
        old(tm)@.running ==> apply_undo(final(db).image(), final(tm)@.entries) == apply_undo(
            old(db).image(),
            old(tm)@.entries,
        ),
        forall|e: UndoEntry|
            #![trigger final(db).entry_ok(e)]
            old(db).entry_ok(e) ==> final(db).entry_ok(e),
        r is Ok ==> spec_add_reservations(old(db).contents(), old(db).counters(), seq_view(rs@)).0
            == Ok::<AirlineContents, Seq<char>>(final(db).contents()),
        r matches Err(m) ==> spec_add_reservations(
            old(db).contents(),
            old(db).counters(),
            seq_view(rs@),
        ).0 == Err::<AirlineContents, Seq<char>>(m@),
{
    let ghost v0 = db.contents();
    let ghost c0 = db.counters();
    let ghost rsv = seq_view(rs@);
    let mut i: usize = 0;
    proof {
        assert(rsv.skip(0) =~= rsv);
    }
    while i < rs.len()
        invariant
            i <= rs@.len(),
            rsv == seq_view(rs@),
            seq_fits::<Reservation>(rsv),
            db.inv(),
            tm.inv(),
            db.coherent(tm@),
            tm@.transaction_id == old(tm)@.transaction_id,
            tm@.running == old(tm)@.running,
            !old(tm)@.running ==> tm@ == old(tm)@,
            old(tm)@.running ==> apply_undo(db.image(), tm@.entries) == apply_undo(
                old(db).image(),
                old(tm)@.entries,
            ),
            forall|e: UndoEntry|
                #![trigger db.entry_ok(e)]
                old(db).entry_ok(e) ==> db.entry_ok(e),
            spec_add_reservations(v0, c0, rsv) == spec_add_reservations(
                db.contents(),
                db.counters(),
                rsv.skip(i as int),
            ),
            v0 == old(db).contents(),
            c0 == old(db).counters(),
        decreases rs@.len() - i,
    {
        let ghost vi = db.contents();
        let ghost ci = db.counters();
        proof {
            assert(rsv.skip(i as int)[0] == rsv[i as int]);
            assert(rsv[i as int] == rs@[i as int]@);
            assert(rsv.skip(i as int).drop_first() =~= rsv.skip(i + 1));
        }
        if db.reservations.first_free_id == usize::MAX
            || db.flight_reservation_counts.first_free_id == usize::MAX {
            return Err(String::from_str("the table id counter is exhausted"));
        }
        let r = &rs[i];
        let seats = match db.flights.get(r.flight_id) {
            None => {
                proof {
                    assert(!vi.flights.contains_key(r.flight_id));
                }
                return Err(String::from_str("Invalid flight id"));
            },
            Some(e) => {
                proof {
                    crate::table::lemma_rows_map_dom(db.flights.rows@, r.flight_id);
                    let k = choose|k: int|
                        0 <= k < db.flights.rows@.len() && (#[trigger] db.flights.rows@[k]).id
                            == r.flight_id;
                    crate::table::lemma_rows_map_index(db.flights.rows@, k);
                    assert(vi.flights[r.flight_id].seats == e.val.seats);
                }
                e.value().seats
            },
        };
        match find_count(&db.flight_reservation_counts, r.flight_id, r.year, r.week) {
            None => {
                db_add_count(
                    db,
                    tm,
                    FlightReservationCount {
                        flight_id: r.flight_id,
                        year: r.year,
                        week: r.week,
                        count: 1,
                    },
                );
                db_add_reservation(db, tm, clone_reservation(r));
            },
            Some(cid) => {
                let cnt = match db.flight_reservation_counts.get(cid) {
                    Some(e) => *e.value(),
                    None => {
                        proof {
                            assert(false);
                        }
                        return Err(String::from_str("Invalid flight id"));
                    },
                };
                if seats <= cnt.count {
                    return Err(String::from_str("No free seat is avaiable for reservation"));
                }
                db_set_count(db, tm, cid, FlightReservationCount { count: cnt.count + 1, ..cnt });
                db_add_reservation(db, tm, clone_reservation(r));
            },
        }
        proof {
            assert(db.contents() =~= spec_step_contents(vi, ci, rsv[i as int]));
        }
        i = i + 1;
    }
    proof {
        assert(rsv.skip(rsv.len() as int) =~= Seq::<ReservationView>::empty());
    }
    Ok(())
}

/// The contents after one successful reservation: shared between the spec
/// recursion and the loop proof.
pub open spec fn spec_step_contents(
    v: AirlineContents,
    c: AirlineCounters,
    r: ReservationView,
) -> AirlineContents {
    match find_count_spec(v.flight_reservation_counts, r.flight_id, r.year, r.week) {
        None => AirlineContents {
            flight_reservation_counts: v.flight_reservation_counts.insert(
                c.flight_reservation_counts,
                FlightReservationCount {
                    flight_id: r.flight_id,
                    year: r.year,
                    week: r.week,
                    count: 1,
                },
            ),
            reservations: v.reservations.insert(c.reservations, r),
            ..v
        },
        Some(cid) => {
            let cnt = v.flight_reservation_counts[cid];
            AirlineContents {
                flight_reservation_counts: v.flight_reservation_counts.insert(
                    cid,
                    FlightReservationCount { count: (cnt.count + 1) as usize, ..cnt },
                ),
                reservations: v.reservations.insert(c.reservations, r),
                ..v
            }
        },
    }
}


/// A bound command of the airline directory.
pub enum AirlineCommand {
    /// Reserve the listed seats in one transaction.
    AddReservations(Vec<Reservation>),
    /// Change a flight's schedule.
    ChangeFlightSchedule(ChangeFlightScheduleParameters),
}

impl CommandBase<AirlineDatabase> for AirlineCommand {
    open spec fn spec_name(&self) -> Seq<char> {
        match self {
            AirlineCommand::AddReservations(_) => "add_reservation"@,
            AirlineCommand::ChangeFlightSchedule(_) => "change_flight_schedule"@,
        }
    }

    open spec fn spec_params(&self) -> Seq<u8> {
        match self {
            AirlineCommand::AddReservations(rs) => spec_serialize_list::<Reservation>(
                seq_view(rs@),
            ),
            AirlineCommand::ChangeFlightSchedule(p) => ChangeFlightScheduleParameters::spec_serialize(
                *p,
            ),
        }
    }

    open spec fn spec_fits(&self) -> bool {
        match self {
            AirlineCommand::AddReservations(rs) => seq_fits::<Reservation>(seq_view(rs@)),
            AirlineCommand::ChangeFlightSchedule(_) => true,
        }
    }

    open spec fn spec_run(&self, v: AirlineContents, c: AirlineCounters) -> (
        Result<AirlineContents, Seq<char>>,
        AirlineCounters,
    ) {
        match self {
            AirlineCommand::AddReservations(rs) => spec_add_reservations(v, c, seq_view(rs@)),
            AirlineCommand::ChangeFlightSchedule(p) => (spec_change_flight_schedule(v, *p), c),
        }
    }

    fn run(&self, db: &mut AirlineDatabase, tm: &mut TransactionManager) -> (r: Result<
        (),
        String,
    >) {
        match self {
            AirlineCommand::AddReservations(rs) => run_add_reservations(db, tm, rs),
            AirlineCommand::ChangeFlightSchedule(p) => run_change_flight_schedule(db, tm, p),
        }
    }

    fn get_name(&self) -> (r: String) {
        match self {
            AirlineCommand::AddReservations(_) => String::from_str("add_reservation"),
            AirlineCommand::ChangeFlightSchedule(_) => String::from_str("change_flight_schedule"),
        }
    }

    fn get_serialized_parameters(&self) -> (r: Vec<u8>) {
        match self {
            AirlineCommand::AddReservations(rs) => {
                let mut out: Vec<u8> = Vec::new();
                write_vec(&mut out, rs);
                proof {
                    assert(out@ =~= self.spec_params());
                }
                out
            },
            AirlineCommand::ChangeFlightSchedule(p) => serialize_to_vec(p),
        }
    }
}

/// The parameter bytes of the reservation command, decoded in full.
pub open spec fn spec_params_reservations(params: Seq<u8>) -> Option<Seq<ReservationView>> {
    match spec_take_list::<Reservation>(params) {
        Some((rs, rest)) => if rest.len() == 0 {
            Some(rs)
        } else {
            None
        },
        None => None,
    }
}

/// The directory of the airline commands, keyed by command name.
pub struct AirlineCommandDefinitions {}

impl AirlineCommandDefinitions {
    pub fn new() -> (r: Self)
        ensures
            true,
    {
        AirlineCommandDefinitions {  }
    }
}

impl CommandDefinitions<AirlineDatabase> for AirlineCommandDefinitions {
    type Cmd = AirlineCommand;

    open spec fn spec_can_create(&self, name: Seq<char>, params: Seq<u8>) -> bool {
        ||| (name == "add_reservation"@ && spec_params_reservations(params) is Some)
        ||| (name == "change_flight_schedule"@ && spec_deserialize::<
            ChangeFlightScheduleParameters,
        >(params) is Some)
    }

    open spec fn spec_run_of(
        &self,
        name: Seq<char>,
        params: Seq<u8>,
        v: AirlineContents,
        c: AirlineCounters,
    ) -> (Result<AirlineContents, Seq<char>>, AirlineCounters) {
        if name == "add_reservation"@ {
            match spec_params_reservations(params) {
                Some(rs) => spec_add_reservations(v, c, rs),
                None => (Err(Seq::empty()), c),
            }
        } else {
            match spec_deserialize::<ChangeFlightScheduleParameters>(params) {
                Some(p) => (spec_change_flight_schedule(v, p), c),
                None => (Err(Seq::empty()), c),
            }
        }
    }

    fn create_from_serialized(&self, name: &String, serialized_parameters: &Vec<u8>) -> (r: Option<
        AirlineCommand,
    >) {
        proof {
            lemma_names_differ();
        }
        let add_name = String::from_str("add_reservation");
        let change_name = String::from_str("change_flight_schedule");
        if name.eq(&add_name) {
            match read_vec::<Reservation>(serialized_parameters.as_slice(), 0) {
                Some((rs, end)) => {
                    if end == serialized_parameters.len() {
                        proof {
                            assert(serialized_parameters@.skip(end as int) =~= Seq::<u8>::empty());
                            lemma_take_list_canonical::<Reservation>(serialized_parameters@);
                            assert(serialized_parameters@.skip(0) =~= serialized_parameters@);
                        }
                        Some(AirlineCommand::AddReservations(rs))
                    } else {
                        proof {
                            assert(serialized_parameters@.skip(0) =~= serialized_parameters@);
                            assert(serialized_parameters@.skip(end as int).len() > 0);
                        }
                        None
                    }
                },
                None => {
                    proof {
                        assert(serialized_parameters@.skip(0) =~= serialized_parameters@);
                    }
                    None
                },
            }
        } else if name.eq(&change_name) {
            match deserialize::<ChangeFlightScheduleParameters>(serialized_parameters.as_slice()) {
                Some(p) => Some(AirlineCommand::ChangeFlightSchedule(p)),
                None => None,
            }
        } else {
            None
        }
    }

    proof fn lemma_create_round_trip(&self, cmd: &AirlineCommand) {
        lemma_names_differ();
        match cmd {
            AirlineCommand::AddReservations(rs) => {
                lemma_take_list::<Reservation>(seq_view(rs@), Seq::empty());
                assert(spec_serialize_list::<Reservation>(seq_view(rs@)) + Seq::<u8>::empty()
                    =~= spec_serialize_list::<Reservation>(seq_view(rs@)));
            },
            AirlineCommand::ChangeFlightSchedule(p) => {
                crate::serialize::lemma_deserialize_round_trip::<ChangeFlightScheduleParameters>(
                    *p,
                );
            },
        }
    }
}

/// The two command names differ.
proof fn lemma_names_differ()
    ensures
        "add_reservation"@ != "change_flight_schedule"@,
{
    reveal_strlit("add_reservation");
    reveal_strlit("change_flight_schedule");
    assert("add_reservation"@.len() != "change_flight_schedule"@.len());
}

} // verus!
