//! End-to-end tests of the engine: transactions, rollback, statuses, the
//! asynchronous queue, and journal replay.

use std::cell::RefCell;
use std::rc::Rc;

use microdb::commands::{AirlineCommand, AirlineCommandDefinitions, ChangeFlightScheduleParameters};
use microdb::schema::{Airport, AirlineDatabase, Flight, HoursAndMinutes, Reservation};
use microdb::transaction::TransactionManager;
use microdb::transaction_storage::{NullTransactionStorage, TransactionStorage};
use microdb::{CommandEngine, CommandExecutionType, DatabaseFactory, Engine, EngineError, TransactionStatus};

/// A journal kept in shared memory, so a second engine can replay what the
/// first one wrote.
#[derive(Clone)]
struct SharedStorage {
    bytes: Rc<RefCell<Vec<u8>>>,
}

impl SharedStorage {
    fn new() -> Self {
        SharedStorage { bytes: Rc::new(RefCell::new(Vec::new())) }
    }
}

impl TransactionStorage for SharedStorage {
    fn write(&mut self, buf: &Vec<u8>) -> usize {
        self.bytes.borrow_mut().extend_from_slice(buf);
        buf.len()
    }

    fn read_to_end(&mut self) -> Vec<u8> {
        self.bytes.borrow().clone()
    }
}

fn seeded_database() -> AirlineDatabase {
    let mut db = AirlineDatabase::create_database();
    let mut tm = TransactionManager::new();
    let bud_id = db.airports.add(
        &mut tm,
        Airport { code: String::from("BUD"), name: String::from("Budapest Airport") },
    );
    let vie_id = db.airports.add(
        &mut tm,
        Airport { code: String::from("VIE"), name: String::from("Vienna Airport") },
    );
    let prg_id = db.airports.add(
        &mut tm,
        Airport { code: String::from("PRG"), name: String::from("Prague Airport") },
    );
    db.flights.add(
        &mut tm,
        Flight {
            flight_numer: String::from("TEST-001"),
            departure_airport_id: bud_id,
            arrival_airport_id: vie_id,
            day_of_week: 1,
            departure_time_utc: HoursAndMinutes::new(8, 0),
            arrival_time_utc: HoursAndMinutes::new(8, 45),
            seats: 3,
        },
    );
    db.flights.add(
        &mut tm,
        Flight {
            flight_numer: String::from("TEST-002"),
            departure_airport_id: vie_id,
            arrival_airport_id: prg_id,
            day_of_week: 1,
            departure_time_utc: HoursAndMinutes::new(10, 0),
            arrival_time_utc: HoursAndMinutes::new(11, 0),
            seats: 3,
        },
    );
    db
}

type TestEngine =
    CommandEngine<AirlineDatabase, AirlineCommandDefinitions, NullTransactionStorage>;

fn create_engine() -> TestEngine {
    Engine::new(
        AirlineCommandDefinitions::new(),
        NullTransactionStorage::new(),
        CommandExecutionType::Synchronous,
        seeded_database(),
    )
    .unwrap()
}

fn flight_id_by_number(db: &AirlineDatabase, number: &str) -> usize {
    let mut k = 0;
    while k < db.flights.len() {
        let e = db.flights.entity_at(k);
        if e.value().flight_numer.as_str() == number {
            return e.get_id();
        }
        k += 1;
    }
    panic!("no such flight");
}

fn count_reservations(db: &AirlineDatabase, flight_id: usize) -> usize {
    let mut n = 0;
    let mut k = 0;
    while k < db.reservations.len() {
        if db.reservations.entity_at(k).value().flight_id == flight_id {
            n += 1;
        }
        k += 1;
    }
    n
}

fn reservation(flight_id: usize, name: &str) -> Reservation {
    Reservation { flight_id, year: 2022, week: 30, name: String::from(name) }
}

// Flight TEST-001 has 3 seats. The first transaction reserves 2 seats and
// commits; the second would need 2 more and must fail, reverting its first
// reservation as well.
#[test]
fn reservation_test() {
    let mut engine = create_engine();
    let flight_id = flight_id_by_number(engine.query_engine().get_db(), "TEST-001");

    let transaction_id = engine.push_command(AirlineCommand::AddReservations(vec![
        reservation(flight_id, "Test Passanger 1"),
        reservation(flight_id, "Test Passanger 2"),
    ]));
    assert!(TransactionStatus::Completed == engine.get_transaction_status(transaction_id));
    assert_eq!(2, count_reservations(engine.query_engine().get_db(), flight_id));

    let transaction_id = engine.push_command(AirlineCommand::AddReservations(vec![
        reservation(flight_id, "Test Passanger 3"),
        reservation(flight_id, "Test Passanger 4"),
    ]));
    assert!(TransactionStatus::Failed == engine.get_transaction_status(transaction_id));
    assert_eq!(2, count_reservations(engine.query_engine().get_db(), flight_id));
}

// A schedule change writes the departure and arrival times before it
// validates the day of week, so an invalid day must roll the times back too.
#[test]
fn flight_schedule_change_test() {
    let mut engine = create_engine();
    let flight_id = flight_id_by_number(engine.query_engine().get_db(), "TEST-001");

    let parameters = ChangeFlightScheduleParameters {
        flight_id,
        day_of_week: 8,
        departure_time_hours: 9,
        departure_time_minutes: 30,
        arrival_time_hours: 10,
        arrival_time_minutes: 15,
    };
    let transaction_id = engine.push_command(AirlineCommand::ChangeFlightSchedule(parameters));
    assert!(TransactionStatus::Failed == engine.get_transaction_status(transaction_id));

    let db = engine.query_engine().get_db();
    let flight = db.flights.get(flight_id).unwrap().value();
    assert_eq!(8, flight.departure_time_utc.hours);
    assert_eq!(0, flight.departure_time_utc.minutes);
    assert_eq!(8, flight.arrival_time_utc.hours);
    assert_eq!(45, flight.arrival_time_utc.minutes);
}

// A valid schedule change commits and all three fields are visible.
#[test]
fn flight_schedule_change_commits() {
    let mut engine = create_engine();
    let flight_id = flight_id_by_number(engine.query_engine().get_db(), "TEST-001");

    let parameters = ChangeFlightScheduleParameters {
        flight_id,
        day_of_week: 5,
        departure_time_hours: 9,
        departure_time_minutes: 30,
        arrival_time_hours: 10,
        arrival_time_minutes: 15,
    };
    let transaction_id = engine.push_command(AirlineCommand::ChangeFlightSchedule(parameters));
    assert!(TransactionStatus::Completed == engine.get_transaction_status(transaction_id));

    let db = engine.query_engine().get_db();
    let flight = db.flights.get(flight_id).unwrap().value();
    assert_eq!(5, flight.day_of_week);
    assert_eq!(9, flight.departure_time_utc.hours);
    assert_eq!(30, flight.departure_time_utc.minutes);
    assert_eq!(10, flight.arrival_time_utc.hours);
    assert_eq!(15, flight.arrival_time_utc.minutes);
}

// Transaction ids are handed out in submission order, starting at 1, and a
// not-yet-submitted id reads as not executed.
#[test]
fn transaction_ids_and_statuses() {
    let mut engine = create_engine();
    let flight_id = flight_id_by_number(engine.query_engine().get_db(), "TEST-001");

    let first = engine.push_command(AirlineCommand::AddReservations(vec![reservation(
        flight_id, "A",
    )]));
    let second = engine.push_command(AirlineCommand::AddReservations(vec![reservation(
        flight_id, "B",
    )]));
    assert_eq!(1, first);
    assert_eq!(2, second);
    assert!(second > first);
    assert!(TransactionStatus::NotExecuted == engine.get_transaction_status(3));
}

// An unknown flight id fails the whole batch and leaves no reservation.
#[test]
fn unknown_flight_fails() {
    let mut engine = create_engine();
    let id = engine.push_command(AirlineCommand::AddReservations(vec![reservation(
        4096, "Nobody",
    )]));
    assert!(TransactionStatus::Failed == engine.get_transaction_status(id));
    let db = engine.query_engine().get_db();
    assert_eq!(0, db.reservations.len());
}

// Ids assigned by a rolled-back transaction are not reused: rollback leaves
// holes in the id sequence.
#[test]
fn rollback_leaves_id_holes() {
    let mut engine = create_engine();
    let flight_id = flight_id_by_number(engine.query_engine().get_db(), "TEST-001");

    let ok = engine.push_command(AirlineCommand::AddReservations(vec![reservation(
        flight_id, "One",
    )]));
    assert!(TransactionStatus::Completed == engine.get_transaction_status(ok));
    let first_counter = engine.query_engine().get_db().reservations.first_free_id;

    // Three more would exceed the 3 seats; the transaction fails after
    // consuming ids.
    let failed = engine.push_command(AirlineCommand::AddReservations(vec![
        reservation(flight_id, "Two"),
        reservation(flight_id, "Three"),
        reservation(flight_id, "Four"),
    ]));
    assert!(TransactionStatus::Failed == engine.get_transaction_status(failed));
    let db = engine.query_engine().get_db();
    assert_eq!(1, count_reservations(db, flight_id));
    assert!(db.reservations.first_free_id > first_counter);

    // The next committed reservation gets a fresh id beyond the holes.
    let again = engine.push_command(AirlineCommand::AddReservations(vec![reservation(
        flight_id, "Five",
    )]));
    assert!(TransactionStatus::Completed == engine.get_transaction_status(again));
}

// In asynchronous mode commands queue in submission order; nothing executes
// until the writer runs, and waiting drains up to the awaited id.  With 3
// seats, exactly 3 of 5 single-seat reservations complete.
#[test]
fn asynchronous_ordering() {
    let mut engine = Engine::new(
        AirlineCommandDefinitions::new(),
        NullTransactionStorage::new(),
        CommandExecutionType::Asynchronous,
        seeded_database(),
    )
    .unwrap();
    let flight_id = flight_id_by_number(engine.query_engine().get_db(), "TEST-001");

    let mut last = 0;
    for k in 0..5 {
        last = engine.push_command(AirlineCommand::AddReservations(vec![reservation(
            flight_id,
            &format!("Passenger {}", k),
        )]));
    }
    assert_eq!(5, last);
    assert!(TransactionStatus::NotExecuted == engine.get_transaction_status(1));

    engine.wait_for_transaction(last);
    let mut completed = 0;
    for id in 1..=5 {
        if TransactionStatus::Completed == engine.get_transaction_status(id) {
            completed += 1;
        } else {
            assert!(TransactionStatus::Failed == engine.get_transaction_status(id));
        }
    }
    assert_eq!(3, completed);
    assert_eq!(3, count_reservations(engine.query_engine().get_db(), flight_id));
}

// A failed command in asynchronous mode rolls back completely: after the
// wait, its status is Failed and the contents equal the committed state
// from before it began.
#[test]
fn asynchronous_rollback_restores() {
    let mut engine = Engine::new(
        AirlineCommandDefinitions::new(),
        NullTransactionStorage::new(),
        CommandExecutionType::Asynchronous,
        seeded_database(),
    )
    .unwrap();
    let flight_id = flight_id_by_number(engine.query_engine().get_db(), "TEST-001");

    let ok = engine.push_command(AirlineCommand::AddReservations(vec![reservation(
        flight_id, "Seated",
    )]));
    engine.wait_for_transaction(ok);
    assert!(TransactionStatus::Completed == engine.get_transaction_status(ok));
    assert_eq!(1, count_reservations(engine.query_engine().get_db(), flight_id));

    // Three more would exceed the 3 seats: the batch fails after partial
    // work and must leave the committed state untouched.
    let failed = engine.push_command(AirlineCommand::AddReservations(vec![
        reservation(flight_id, "A"),
        reservation(flight_id, "B"),
        reservation(flight_id, "C"),
    ]));
    assert!(TransactionStatus::NotExecuted == engine.get_transaction_status(failed));
    engine.wait_for_transaction(failed);
    assert!(failed <= engine.get_last_processed_transaction_id());
    assert!(TransactionStatus::Failed == engine.get_transaction_status(failed));
    assert_eq!(1, count_reservations(engine.query_engine().get_db(), flight_id));
}

// Restarting over the journal of ten successful commands rebuilds the same
// contents; the next submission gets transaction id 11.
#[test]
fn replay_rebuilds_contents() {
    let storage = SharedStorage::new();
    let mut engine = Engine::new(
        AirlineCommandDefinitions::new(),
        storage.clone(),
        CommandExecutionType::Synchronous,
        seeded_database(),
    )
    .unwrap();
    let flight_id = flight_id_by_number(engine.query_engine().get_db(), "TEST-002");

    for k in 0..10 {
        let id = engine.push_command(AirlineCommand::AddReservations(vec![Reservation {
            flight_id,
            year: 2022,
            week: (k + 1) as u8,
            name: format!("Passenger {}", k),
        }]));
        assert!(TransactionStatus::Completed == engine.get_transaction_status(id));
    }
    let before = count_reservations(engine.query_engine().get_db(), flight_id);
    drop(engine);

    let mut engine = Engine::new(
        AirlineCommandDefinitions::new(),
        storage.clone(),
        CommandExecutionType::Synchronous,
        seeded_database(),
    )
    .unwrap();
    let db = engine.query_engine().get_db();
    assert_eq!(before, count_reservations(db, flight_id));
    assert_eq!(10, count_reservations(db, flight_id));
    let next = engine.push_command(AirlineCommand::AddReservations(vec![reservation(
        flight_id_by_number(engine.query_engine().get_db(), "TEST-001"),
        "Eleventh",
    )]));
    assert_eq!(11, next);
}

// A journal that is not a whole number of records is fatal at startup.
#[test]
fn corrupt_journal_is_fatal() {
    let storage = SharedStorage::new();
    storage.bytes.borrow_mut().extend_from_slice(&[1, 2, 3]);
    let result = Engine::new(
        AirlineCommandDefinitions::new(),
        storage,
        CommandExecutionType::Synchronous,
        seeded_database(),
    );
    assert!(matches!(result, Err(EngineError::SerializationError)));
}

// A journal record naming a command absent from the directory is fatal.
#[test]
fn unknown_command_is_fatal() {
    let storage = SharedStorage::new();
    {
        let mut buf = Vec::new();
        microdb::transaction_storage::encode_record(
            &mut buf,
            &String::from("no_such_command"),
            &vec![1, 2, 3],
        );
        storage.bytes.borrow_mut().extend_from_slice(&buf);
    }
    let result = Engine::new(
        AirlineCommandDefinitions::new(),
        storage,
        CommandExecutionType::Synchronous,
        seeded_database(),
    );
    assert!(matches!(result, Err(EngineError::UnknownCommand)));
}

// A journaled command that fails on replay is fatal: here a reservation for
// a flight the seeded database does not declare.
#[test]
fn replay_divergence_is_fatal() {
    let storage = SharedStorage::new();
    let mut engine = Engine::new(
        AirlineCommandDefinitions::new(),
        storage.clone(),
        CommandExecutionType::Synchronous,
        seeded_database(),
    )
    .unwrap();
    let id = engine.push_command(AirlineCommand::AddReservations(vec![reservation(
        4096, "Nobody",
    )]));
    assert!(TransactionStatus::Failed == engine.get_transaction_status(id));
    drop(engine);

    let result = Engine::new(
        AirlineCommandDefinitions::new(),
        storage,
        CommandExecutionType::Synchronous,
        seeded_database(),
    );
    assert!(matches!(result, Err(EngineError::ReplayDivergence)));
}
