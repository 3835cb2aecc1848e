//! A sample airline schema: the entity types with their byte codecs, and
//! the database record over them.
//!
//! This is the embedder's side of the engine: a fixed record of typed
//! tables, the factory that builds it, and the proofs that discharge every
//! obligation of the [`Database`] trait for it.

use vstd::prelude::*;
use vstd::utf8::encode_utf8;
use crate::entity::Entity;
use crate::serialize::{
    lemma_take_string_canonical, lemma_take_string, lemma_take_u16_canonical, lemma_take_u16,
    lemma_take_u8_canonical, lemma_take_u8, lemma_take_usize_canonical, lemma_take_usize,
    read_string, read_u16, read_u8, read_usize, spec_serialize_string, spec_serialize_u16,
    spec_serialize_u8, spec_serialize_usize, spec_take_string, spec_take_u16, spec_take_u8,
    spec_take_usize, write_string, write_u16, write_u8, write_usize, Serializable,
};
use crate::table::{
    lemma_image_determines_content, lemma_table_coherent_fresh, table_id_hash, Table, TableBase,
};
use crate::transaction::{apply_entry, DbImage, TransactionEntry, TransactionLog, UndoEntry};
use crate::{Database, DatabaseFactory};

verus! {

/// A time of day as hours [0, 23] and minutes [0, 59]; a custom field type
/// with full transaction support.
#[derive(PartialEq, Eq, Structural, Clone, Copy, Debug)]
pub struct HoursAndMinutes {
    pub hours: u8,
    pub minutes: u8,
}

impl View for HoursAndMinutes {
    type V = HoursAndMinutes;

    open spec fn view(&self) -> HoursAndMinutes {
        *self
    }
}

impl HoursAndMinutes {
    pub fn new(hours: u8, minutes: u8) -> (r: Self)
        ensures
            r.hours == hours,
            r.minutes == minutes,
    {
        HoursAndMinutes { hours, minutes }
    }

    /// The time as minutes since midnight.
    pub fn get_total_minutes(&self) -> (r: u16)
        ensures
            r == self.hours * 60 + self.minutes,
    {
        self.hours as u16 * 60 + self.minutes as u16
    }
}

impl Serializable for HoursAndMinutes {
    open spec fn spec_serialize(v: Self::V) -> Seq<u8> {
        spec_serialize_u8(v.hours) + spec_serialize_u8(v.minutes)
    }

    open spec fn spec_fits(v: Self::V) -> bool {
        true
    }

    open spec fn spec_take(b: Seq<u8>) -> Option<(Self::V, Seq<u8>)> {
        match spec_take_u8(b) {
            Some((hours, b1)) => match spec_take_u8(b1) {
                Some((minutes, b2)) => Some((HoursAndMinutes { hours, minutes }, b2)),
                None => None,
            },
            None => None,
        }
    }

    proof fn lemma_take_round_trip(v: Self::V, rest: Seq<u8>) {
        assert(Self::spec_serialize(v) + rest =~= spec_serialize_u8(v.hours) + (spec_serialize_u8(
            v.minutes,
        ) + rest));
        lemma_take_u8(v.hours, spec_serialize_u8(v.minutes) + rest);
        lemma_take_u8(v.minutes, rest);
    }

    proof fn lemma_take_canonical(b: Seq<u8>) {
        lemma_take_u8_canonical(b);
        if spec_take_u8(b) is Some {
            let (hours, b1) = spec_take_u8(b).unwrap();
            lemma_take_u8_canonical(b1);
            if spec_take_u8(b1) is Some {
                let (minutes, b2) = spec_take_u8(b1).unwrap();
                let v = HoursAndMinutes { hours, minutes };
                assert(Self::spec_serialize(v) + b2 =~= spec_serialize_u8(hours) + (
                spec_serialize_u8(minutes) + b2));
            }
        }
    }

    fn serialize(&self, out: &mut Vec<u8>) {
        write_u8(out, self.hours);
        write_u8(out, self.minutes);
        proof {
            assert(out@ =~= old(out)@ + Self::spec_serialize(self@));
        }
    }

    fn read_from(bytes: &[u8], pos: usize) -> (r: Option<(Self, usize)>) {
        let (hours, p1) = match read_u8(bytes, pos) {
            Some(x) => x,
            None => {
                return None;
            },
        };
        let (minutes, p2) = match read_u8(bytes, p1) {
            Some(x) => x,
            None => {
                return None;
            },
        };
        Some((HoursAndMinutes { hours, minutes }, p2))
    }
}

/// An airport: a short code and a user-facing name.
#[derive(Clone, Debug)]
pub struct Airport {
    pub code: String,
    pub name: String,
}

/// The mathematical form of an [`Airport`].
pub struct AirportView {
    pub code: Seq<char>,
    pub name: Seq<char>,
}

impl View for Airport {
    type V = AirportView;

    open spec fn view(&self) -> AirportView {
        AirportView { code: self.code@, name: self.name@ }
    }
}

impl Serializable for Airport {
    open spec fn spec_serialize(v: Self::V) -> Seq<u8> {
        spec_serialize_string(v.code) + spec_serialize_string(v.name)
    }

    open spec fn spec_fits(v: Self::V) -> bool {
        encode_utf8(v.code).len() <= u64::MAX && encode_utf8(v.name).len() <= u64::MAX
    }

    open spec fn spec_take(b: Seq<u8>) -> Option<(Self::V, Seq<u8>)> {
        match spec_take_string(b) {
            Some((code, b1)) => match spec_take_string(b1) {
                Some((name, b2)) => Some((AirportView { code, name }, b2)),
                None => None,
            },
            None => None,
        }
    }

    proof fn lemma_take_round_trip(v: Self::V, rest: Seq<u8>) {
        assert(Self::spec_serialize(v) + rest =~= spec_serialize_string(v.code) + (
        spec_serialize_string(v.name) + rest));
        lemma_take_string(v.code, spec_serialize_string(v.name) + rest);
        lemma_take_string(v.name, rest);
    }

    proof fn lemma_take_canonical(b: Seq<u8>) {
        lemma_take_string_canonical(b);
        if spec_take_string(b) is Some {
            let (code, b1) = spec_take_string(b).unwrap();
            lemma_take_string_canonical(b1);
            if spec_take_string(b1) is Some {
                let (name, b2) = spec_take_string(b1).unwrap();
                let v = AirportView { code, name };
                assert(Self::spec_serialize(v) + b2 =~= spec_serialize_string(code) + (
                spec_serialize_string(name) + b2));
            }
        }
    }

    fn serialize(&self, out: &mut Vec<u8>) {
        write_string(out, &self.code);
        write_string(out, &self.name);
        proof {
            assert(out@ =~= old(out)@ + Self::spec_serialize(self@));
        }
    }

    fn read_from(bytes: &[u8], pos: usize) -> (r: Option<(Self, usize)>) {
        let (code, p1) = match read_string(bytes, pos) {
            Some(x) => x,
            None => {
                return None;
            },
        };
        let (name, p2) = match read_string(bytes, p1) {
            Some(x) => x,
            None => {
                return None;
            },
        };
        Some((Airport { code, name }, p2))
    }
}

/// A flight of a weekly schedule, from one airport to another.
#[derive(Clone, Debug)]
pub struct Flight {
    pub flight_numer: String,
    pub departure_airport_id: usize,
    pub arrival_airport_id: usize,
    pub day_of_week: u8,
    pub departure_time_utc: HoursAndMinutes,
    pub arrival_time_utc: HoursAndMinutes,
    pub seats: usize,
}

/// The mathematical form of a [`Flight`].
pub struct FlightView {
    pub flight_numer: Seq<char>,
    pub departure_airport_id: usize,
    pub arrival_airport_id: usize,
    pub day_of_week: u8,
    pub departure_time_utc: HoursAndMinutes,
    pub arrival_time_utc: HoursAndMinutes,
    pub seats: usize,
}

impl View for Flight {
    type V = FlightView;

    open spec fn view(&self) -> FlightView {
        FlightView {
            flight_numer: self.flight_numer@,
            departure_airport_id: self.departure_airport_id,
            arrival_airport_id: self.arrival_airport_id,
            day_of_week: self.day_of_week,
            departure_time_utc: self.departure_time_utc,
            arrival_time_utc: self.arrival_time_utc,
            seats: self.seats,
        }
    }
}

impl Serializable for Flight {
    open spec fn spec_serialize(v: Self::V) -> Seq<u8> {
        spec_serialize_string(v.flight_numer) + spec_serialize_usize(v.departure_airport_id)
            + spec_serialize_usize(v.arrival_airport_id) + spec_serialize_u8(v.day_of_week)
            + HoursAndMinutes::spec_serialize(v.departure_time_utc)
            + HoursAndMinutes::spec_serialize(v.arrival_time_utc) + spec_serialize_usize(v.seats)
    }

    open spec fn spec_fits(v: Self::V) -> bool {
        encode_utf8(v.flight_numer).len() <= u64::MAX
    }

    open spec fn spec_take(b: Seq<u8>) -> Option<(Self::V, Seq<u8>)> {
        match spec_take_string(b) {
            None => None,
            Some((flight_numer, b1)) => match spec_take_usize(b1) {
                None => None,
                Some((departure_airport_id, b2)) => match spec_take_usize(b2) {
                    None => None,
                    Some((arrival_airport_id, b3)) => match spec_take_u8(b3) {
                        None => None,
                        Some((day_of_week, b4)) => match HoursAndMinutes::spec_take(b4) {
                            None => None,
                            Some((departure_time_utc, b5)) => match HoursAndMinutes::spec_take(
                                b5,
                            ) {
                                None => None,
                                Some((arrival_time_utc, b6)) => match spec_take_usize(b6) {
                                    None => None,
                                    Some((seats, b7)) => Some(
                                        (
                                            FlightView {
                                                flight_numer,
                                                departure_airport_id,
                                                arrival_airport_id,
                                                day_of_week,
                                                departure_time_utc,
                                                arrival_time_utc,
                                                seats,
                                            },
                                            b7,
                                        ),
                                    ),
                                },
                            },
                        },
                    },
                },
            },
        }
    }

    proof fn lemma_take_round_trip(v: Self::V, rest: Seq<u8>) {
        let s7 = spec_serialize_usize(v.seats);
        let s6 = HoursAndMinutes::spec_serialize(v.arrival_time_utc);
        let s5 = HoursAndMinutes::spec_serialize(v.departure_time_utc);
        let s4 = spec_serialize_u8(v.day_of_week);
        let s3 = spec_serialize_usize(v.arrival_airport_id);
        let s2 = spec_serialize_usize(v.departure_airport_id);
        let s1 = spec_serialize_string(v.flight_numer);
        assert(Self::spec_serialize(v) + rest =~= s1 + (s2 + (s3 + (s4 + (s5 + (s6 + (s7
            + rest)))))));
        lemma_take_string(v.flight_numer, s2 + (s3 + (s4 + (s5 + (s6 + (s7 + rest))))));
        lemma_take_usize(v.departure_airport_id, s3 + (s4 + (s5 + (s6 + (s7 + rest)))));
        lemma_take_usize(v.arrival_airport_id, s4 + (s5 + (s6 + (s7 + rest))));
        lemma_take_u8(v.day_of_week, s5 + (s6 + (s7 + rest)));
        HoursAndMinutes::lemma_take_round_trip(v.departure_time_utc, s6 + (s7 + rest));
        HoursAndMinutes::lemma_take_round_trip(v.arrival_time_utc, s7 + rest);
        lemma_take_usize(v.seats, rest);
    }

    #[verifier::rlimit(100)]
    proof fn lemma_take_canonical(b: Seq<u8>) {
        lemma_take_string_canonical(b);
        if spec_take_string(b) is Some {
            let (flight_numer, b1) = spec_take_string(b).unwrap();
            lemma_take_usize_canonical(b1);
            if spec_take_usize(b1) is Some {
                let (departure_airport_id, b2) = spec_take_usize(b1).unwrap();
                lemma_take_usize_canonical(b2);
                if spec_take_usize(b2) is Some {
                    let (arrival_airport_id, b3) = spec_take_usize(b2).unwrap();
                    lemma_take_u8_canonical(b3);
                    if spec_take_u8(b3) is Some {
                        let (day_of_week, b4) = spec_take_u8(b3).unwrap();
                        HoursAndMinutes::lemma_take_canonical(b4);
                        if HoursAndMinutes::spec_take(b4) is Some {
                            let (departure_time_utc, b5) = HoursAndMinutes::spec_take(b4).unwrap();
                            HoursAndMinutes::lemma_take_canonical(b5);
                            if HoursAndMinutes::spec_take(b5) is Some {
                                let (arrival_time_utc, b6) = HoursAndMinutes::spec_take(
                                    b5,
                                ).unwrap();
                                lemma_take_usize_canonical(b6);
                                if spec_take_usize(b6) is Some {
                                    let (seats, b7) = spec_take_usize(b6).unwrap();
                                    let v = FlightView {
                                        flight_numer,
                                        departure_airport_id,
                                        arrival_airport_id,
                                        day_of_week,
                                        departure_time_utc,
                                        arrival_time_utc,
                                        seats,
                                    };
                                    assert(Self::spec_serialize(v) + b7 =~= spec_serialize_string(
                                        flight_numer,
                                    ) + (spec_serialize_usize(departure_airport_id) + (
                                    spec_serialize_usize(arrival_airport_id) + (spec_serialize_u8(
                                        day_of_week,
                                    ) + (HoursAndMinutes::spec_serialize(departure_time_utc) + (
                                    HoursAndMinutes::spec_serialize(arrival_time_utc) + (
                                    spec_serialize_usize(seats) + b7)))))));
                                }
                            }
                        }
                    }
                }
            }
        }
    }

    fn serialize(&self, out: &mut Vec<u8>) {
        write_string(out, &self.flight_numer);
        write_usize(out, self.departure_airport_id);
        write_usize(out, self.arrival_airport_id);
        write_u8(out, self.day_of_week);
        self.departure_time_utc.serialize(out);
        self.arrival_time_utc.serialize(out);
        write_usize(out, self.seats);
        proof {
            assert(out@ =~= old(out)@ + Self::spec_serialize(self@));
        }
    }

    fn read_from(bytes: &[u8], pos: usize) -> (r: Option<(Self, usize)>) {
        let (flight_numer, p1) = match read_string(bytes, pos) {
            Some(x) => x,
            None => {
                return None;
            },
        };
        let (departure_airport_id, p2) = match read_usize(bytes, p1) {
            Some(x) => x,
            None => {
                return None;
            },
        };
        let (arrival_airport_id, p3) = match read_usize(bytes, p2) {
            Some(x) => x,
            None => {
                return None;
            },
        };
        let (day_of_week, p4) = match read_u8(bytes, p3) {
            Some(x) => x,
            None => {
                return None;
            },
        };
        let (departure_time_utc, p5) = match HoursAndMinutes::read_from(bytes, p4) {
            Some(x) => x,
            None => {
                return None;
            },
        };
        let (arrival_time_utc, p6) = match HoursAndMinutes::read_from(bytes, p5) {
            Some(x) => x,
            None => {
                return None;
            },
        };
        let (seats, p7) = match read_usize(bytes, p6) {
            Some(x) => x,
            None => {
                return None;
            },
        };
        Some(
            (
                Flight {
                    flight_numer,
                    departure_airport_id,
                    arrival_airport_id,
                    day_of_week,
                    departure_time_utc,
                    arrival_time_utc,
                    seats,
                },
                p7,
            ),
        )
    }
}

/// A reservation for a flight in a specific year and week.
#[derive(Clone, Debug)]
pub struct Reservation {
    pub flight_id: usize,
    pub year: u16,
    pub week: u8,
    pub name: String,
}

/// The mathematical form of a [`Reservation`].
pub struct ReservationView {
    pub flight_id: usize,
    pub year: u16,
    pub week: u8,
    pub name: Seq<char>,
}

impl View for Reservation {
    type V = ReservationView;

    open spec fn view(&self) -> ReservationView {
        ReservationView {
            flight_id: self.flight_id,
            year: self.year,
            week: self.week,
            name: self.name@,
        }
    }
}

impl Serializable for Reservation {
    open spec fn spec_serialize(v: Self::V) -> Seq<u8> {
        spec_serialize_usize(v.flight_id) + spec_serialize_u16(v.year) + spec_serialize_u8(v.week)
            + spec_serialize_string(v.name)
    }

    open spec fn spec_fits(v: Self::V) -> bool {
        encode_utf8(v.name).len() <= u64::MAX
    }

    open spec fn spec_take(b: Seq<u8>) -> Option<(Self::V, Seq<u8>)> {
        match spec_take_usize(b) {
            None => None,
            Some((flight_id, b1)) => match spec_take_u16(b1) {
                None => None,
                Some((year, b2)) => match spec_take_u8(b2) {
                    None => None,
                    Some((week, b3)) => match spec_take_string(b3) {
                        None => None,
                        Some((name, b4)) => Some(
                            (ReservationView { flight_id, year, week, name }, b4),
                        ),
                    },
                },
            },
        }
    }

    proof fn lemma_take_round_trip(v: Self::V, rest: Seq<u8>) {
        let s4 = spec_serialize_string(v.name);
        let s3 = spec_serialize_u8(v.week);
        let s2 = spec_serialize_u16(v.year);
        let s1 = spec_serialize_usize(v.flight_id);
        assert(Self::spec_serialize(v) + rest =~= s1 + (s2 + (s3 + (s4 + rest))));
        lemma_take_usize(v.flight_id, s2 + (s3 + (s4 + rest)));
        lemma_take_u16(v.year, s3 + (s4 + rest));
        lemma_take_u8(v.week, s4 + rest);
        lemma_take_string(v.name, rest);
    }

    proof fn lemma_take_canonical(b: Seq<u8>) {
        lemma_take_usize_canonical(b);
        if spec_take_usize(b) is Some {
            let (flight_id, b1) = spec_take_usize(b).unwrap();
            lemma_take_u16_canonical(b1);
            if spec_take_u16(b1) is Some {
                let (year, b2) = spec_take_u16(b1).unwrap();
                lemma_take_u8_canonical(b2);
                if spec_take_u8(b2) is Some {
                    let (week, b3) = spec_take_u8(b2).unwrap();
                    lemma_take_string_canonical(b3);
                    if spec_take_string(b3) is Some {
                        let (name, b4) = spec_take_string(b3).unwrap();
                        let v = ReservationView { flight_id, year, week, name };
                        assert(Self::spec_serialize(v) + b4 =~= spec_serialize_usize(flight_id) + (
                        spec_serialize_u16(year) + (spec_serialize_u8(week) + (
                        spec_serialize_string(name) + b4))));
                    }
                }
            }
        }
    }

    fn serialize(&self, out: &mut Vec<u8>) {
        write_usize(out, self.flight_id);
        write_u16(out, self.year);
        write_u8(out, self.week);
        write_string(out, &self.name);
        proof {
            assert(out@ =~= old(out)@ + Self::spec_serialize(self@));
        }
    }

    fn read_from(bytes: &[u8], pos: usize) -> (r: Option<(Self, usize)>) {
        let (flight_id, p1) = match read_usize(bytes, pos) {
            Some(x) => x,
            None => {
                return None;
            },
        };
        let (year, p2) = match read_u16(bytes, p1) {
            Some(x) => x,
            None => {
                return None;
            },
        };
        let (week, p3) = match read_u8(bytes, p2) {
            Some(x) => x,
            None => {
                return None;
            },
        };
        let (name, p4) = match read_string(bytes, p3) {
            Some(x) => x,
            None => {
                return None;
            },
        };
        Some((Reservation { flight_id, year, week, name }, p4))
    }
}

/// The number of reservations a flight holds in one year and week.
#[derive(PartialEq, Eq, Structural, Clone, Copy, Debug)]
pub struct FlightReservationCount {
    pub flight_id: usize,
    pub year: u16,
    pub week: u8,
    pub count: usize,
}

impl View for FlightReservationCount {
    type V = FlightReservationCount;

    open spec fn view(&self) -> FlightReservationCount {
        *self
    }
}

impl Serializable for FlightReservationCount {
    open spec fn spec_serialize(v: Self::V) -> Seq<u8> {
        spec_serialize_usize(v.flight_id) + spec_serialize_u16(v.year) + spec_serialize_u8(v.week)
            + spec_serialize_usize(v.count)
    }

    open spec fn spec_fits(v: Self::V) -> bool {
        true
    }

    open spec fn spec_take(b: Seq<u8>) -> Option<(Self::V, Seq<u8>)> {
        match spec_take_usize(b) {
            None => None,
            Some((flight_id, b1)) => match spec_take_u16(b1) {
                None => None,
                Some((year, b2)) => match spec_take_u8(b2) {
                    None => None,
                    Some((week, b3)) => match spec_take_usize(b3) {
                        None => None,
                        Some((count, b4)) => Some(
                            (FlightReservationCount { flight_id, year, week, count }, b4),
                        ),
                    },
                },
            },
        }
    }

    proof fn lemma_take_round_trip(v: Self::V, rest: Seq<u8>) {
        let s4 = spec_serialize_usize(v.count);
        let s3 = spec_serialize_u8(v.week);
        let s2 = spec_serialize_u16(v.year);
        let s1 = spec_serialize_usize(v.flight_id);
        assert(Self::spec_serialize(v) + rest =~= s1 + (s2 + (s3 + (s4 + rest))));
        lemma_take_usize(v.flight_id, s2 + (s3 + (s4 + rest)));
        lemma_take_u16(v.year, s3 + (s4 + rest));
        lemma_take_u8(v.week, s4 + rest);
        lemma_take_usize(v.count, rest);
    }

    proof fn lemma_take_canonical(b: Seq<u8>) {
        lemma_take_usize_canonical(b);
        if spec_take_usize(b) is Some {
            let (flight_id, b1) = spec_take_usize(b).unwrap();
            lemma_take_u16_canonical(b1);
            if spec_take_u16(b1) is Some {
                let (year, b2) = spec_take_u16(b1).unwrap();
                lemma_take_u8_canonical(b2);
                if spec_take_u8(b2) is Some {
                    let (week, b3) = spec_take_u8(b2).unwrap();
                    lemma_take_usize_canonical(b3);
                    if spec_take_usize(b3) is Some {
                        let (count, b4) = spec_take_usize(b3).unwrap();
                        let v = FlightReservationCount { flight_id, year, week, count };
                        assert(Self::spec_serialize(v) + b4 =~= spec_serialize_usize(flight_id) + (
                        spec_serialize_u16(year) + (spec_serialize_u8(week) + (
                        spec_serialize_usize(count) + b4))));
                    }
                }
            }
        }
    }

    fn serialize(&self, out: &mut Vec<u8>) {
        write_usize(out, self.flight_id);
        write_u16(out, self.year);
        write_u8(out, self.week);
        write_usize(out, self.count);
        proof {
            assert(out@ =~= old(out)@ + Self::spec_serialize(self@));
        }
    }

    fn read_from(bytes: &[u8], pos: usize) -> (r: Option<(Self, usize)>) {
        let (flight_id, p1) = match read_usize(bytes, pos) {
            Some(x) => x,
            None => {
                return None;
            },
        };
        let (year, p2) = match read_u16(bytes, p1) {
            Some(x) => x,
            None => {
                return None;
            },
        };
        let (week, p3) = match read_u8(bytes, p2) {
            Some(x) => x,
            None => {
                return None;
            },
        };
        let (count, p4) = match read_usize(bytes, p3) {
            Some(x) => x,
            None => {
                return None;
            },
        };
        Some((FlightReservationCount { flight_id, year, week, count }, p4))
    }
}

// ------------------------------------------------------------------
// The airline database record
// ------------------------------------------------------------------

/// A simplified airline database: a fixed record of four typed tables.
pub struct AirlineDatabase {
    pub airports: Table<Airport>,
    pub flights: Table<Flight>,
    pub reservations: Table<Reservation>,
    pub flight_reservation_counts: Table<FlightReservationCount>,
}

/// The observable contents of an [`AirlineDatabase`]: each table's values
/// by entity id.
#[verifier::ext_equal]
pub struct AirlineContents {
    pub airports: Map<usize, AirportView>,
    pub flights: Map<usize, FlightView>,
    pub reservations: Map<usize, ReservationView>,
    pub flight_reservation_counts: Map<usize, FlightReservationCount>,
}

/// The id counters of an [`AirlineDatabase`]'s tables.
#[verifier::ext_equal]
pub struct AirlineCounters {
    pub airports: usize,
    pub flights: usize,
    pub reservations: usize,
    pub flight_reservation_counts: usize,
}

/// The four table names hash to pairwise distinct ids.
#[verifier::rlimit(50)]
pub proof fn lemma_airline_ids_distinct()
    ensures
        table_id_hash("airports"@) != table_id_hash("flights"@),
        table_id_hash("airports"@) != table_id_hash("reservations"@),
        table_id_hash("airports"@) != table_id_hash("flight_reservation_counts"@),
        table_id_hash("flights"@) != table_id_hash("reservations"@),
        table_id_hash("flights"@) != table_id_hash("flight_reservation_counts"@),
        table_id_hash("reservations"@) != table_id_hash("flight_reservation_counts"@),
{
    reveal_strlit("airports");
    reveal_strlit("flights");
    reveal_strlit("reservations");
    reveal_strlit("flight_reservation_counts");
    assert(vstd::utf8::is_ascii_chars("airports"@));
    assert(vstd::utf8::is_ascii_chars("flights"@));
    assert(vstd::utf8::is_ascii_chars("reservations"@));
    assert(vstd::utf8::is_ascii_chars("flight_reservation_counts"@));
    lemma_ascii_name_hash("airports"@);
    lemma_ascii_name_hash("flights"@);
    lemma_ascii_name_hash("reservations"@);
    lemma_ascii_name_hash("flight_reservation_counts"@);
    lemma_hash_of_airports();
    lemma_hash_of_flights();
    lemma_hash_of_reservations();
    lemma_hash_of_flight_reservation_counts();
}

#[verifier::rlimit(100)]
proof fn lemma_hash_of_airports()
    ensures
        name_hash_ascii("airports"@) == 0xf977b8b3e2da6b2du64,
{
    reveal_strlit("airports");
    let s = "airports"@;
    reveal_with_fuel(name_hash_ascii, 2);
    assert(s.take(0) =~= Seq::<char>::empty());
    assert(name_hash_ascii(s.take(0)) == 0xcbf29ce484222325u64);
    assert(s.take(1).drop_last() =~= s.take(0) && s.take(1).last() == 'a');
    assert(name_hash_ascii(s.take(1)) == 0xb260ffac002241dcu64);
    assert(s.take(2).drop_last() =~= s.take(1) && s.take(2).last() == 'i');
    assert(name_hash_ascii(s.take(2)) == 0x99bef5d40425fa0du64);
    assert(s.take(3).drop_last() =~= s.take(2) && s.take(3).last() == 'r');
    assert(name_hash_ascii(s.take(3)) == 0x9e1fc4ac80994805u64);
    assert(s.take(4).drop_last() =~= s.take(3) && s.take(4).last() == 'p');
    assert(name_hash_ascii(s.take(4)) == 0x25d8d0e3928fb90bu64);
    assert(s.take(5).drop_last() =~= s.take(4) && s.take(5).last() == 'o');
    assert(name_hash_ascii(s.take(5)) == 0x95414b8ebf6768c4u64);
    assert(s.take(6).drop_last() =~= s.take(5) && s.take(6).last() == 'r');
    assert(name_hash_ascii(s.take(6)) == 0x12e826492d85b02eu64);
    assert(s.take(7).drop_last() =~= s.take(6) && s.take(7).last() == 't');
    assert(name_hash_ascii(s.take(7)) == 0x4a1ca2dc83305606u64);
    assert(s.take(8).drop_last() =~= s.take(7) && s.take(8).last() == 's');
    assert(name_hash_ascii(s.take(8)) == 0xf977b8b3e2da6b2du64);
    assert(s.take(8) =~= s);
}

#[verifier::rlimit(100)]
proof fn lemma_hash_of_flights()
    ensures
        name_hash_ascii("flights"@) == 0x4a1ca2dd904b033eu64,
{
    reveal_strlit("flights");
    let s = "flights"@;
    reveal_with_fuel(name_hash_ascii, 2);
    assert(s.take(0) =~= Seq::<char>::empty());
    assert(name_hash_ascii(s.take(0)) == 0xcbf29ce484222325u64);
    assert(s.take(1).drop_last() =~= s.take(0) && s.take(1).last() == 'f');
    assert(name_hash_ascii(s.take(1)) == 0xb260ffac002241e1u64);
    assert(s.take(2).drop_last() =~= s.take(1) && s.take(2).last() == 'l');
    assert(name_hash_ascii(s.take(2)) == 0x99bef5d40425faabu64);
    assert(s.take(3).drop_last() =~= s.take(2) && s.take(3).last() == 'i');
    assert(name_hash_ascii(s.take(3)) == 0x9e1fc4ac80995b1eu64);
    assert(s.take(4).drop_last() =~= s.take(3) && s.take(4).last() == 'g');
    assert(name_hash_ascii(s.take(4)) == 0x25d8d0e392920909u64);
    assert(s.take(5).drop_last() =~= s.take(4) && s.take(5).last() == 'h');
    assert(name_hash_ascii(s.take(5)) == 0x95414b8ebfaf187fu64);
    assert(s.take(6).drop_last() =~= s.take(5) && s.take(6).last() == 't');
    assert(name_hash_ascii(s.take(6)) == 0x12e826493633f7d5u64);
    assert(s.take(7).drop_last() =~= s.take(6) && s.take(7).last() == 's');
    assert(name_hash_ascii(s.take(7)) == 0x4a1ca2dd904b033eu64);
    assert(s.take(7) =~= s);
}

#[verifier::rlimit(100)]
proof fn lemma_hash_of_reservations()
    ensures
        name_hash_ascii("reservations"@) == 0x96b5a0a67bc8c9ccu64,
{
    reveal_strlit("reservations");
    let s = "reservations"@;
    reveal_with_fuel(name_hash_ascii, 2);
    assert(s.take(0) =~= Seq::<char>::empty());
    assert(name_hash_ascii(s.take(0)) == 0xcbf29ce484222325u64);
    assert(s.take(1).drop_last() =~= s.take(0) && s.take(1).last() == 'r');
    assert(name_hash_ascii(s.take(1)) == 0xb260ffac002241edu64);
    assert(s.take(2).drop_last() =~= s.take(1) && s.take(2).last() == 'e');
    assert(name_hash_ascii(s.take(2)) == 0x99bef5d40425fc18u64);
    assert(s.take(3).drop_last() =~= s.take(2) && s.take(3).last() == 's');
    assert(name_hash_ascii(s.take(3)) == 0x9e1fc4ac8099875bu64);
    assert(s.take(4).drop_last() =~= s.take(3) && s.take(4).last() == 'e');
    assert(name_hash_ascii(s.take(4)) == 0x25d8d0e39297646au64);
    assert(s.take(5).drop_last() =~= s.take(4) && s.take(5).last() == 'r');
    assert(name_hash_ascii(s.take(5)) == 0x95414b8ec0552948u64);
    assert(s.take(6).drop_last() =~= s.take(5) && s.take(6).last() == 'v');
    assert(name_hash_ascii(s.take(6)) == 0x12e826494a50002eu64);
    assert(s.take(7).drop_last() =~= s.take(6) && s.take(7).last() == 'a');
    assert(name_hash_ascii(s.take(7)) == 0x4a1ca2dfffb005f3u64);
    assert(s.take(8).drop_last() =~= s.take(7) && s.take(8).last() == 't');
    assert(name_hash_ascii(s.take(8)) == 0xf977b91ff650b8e1u64);
    assert(s.take(9).drop_last() =~= s.take(8) && s.take(9).last() == 'i');
    assert(name_hash_ascii(s.take(9)) == 0x357f6aded3c663a8u64);
    assert(s.take(10).drop_last() =~= s.take(9) && s.take(10).last() == 'o');
    assert(name_hash_ascii(s.take(10)) == 0x7a6df0fba50611c7u64);
    assert(s.take(11).drop_last() =~= s.take(10) && s.take(11).last() == 'n');
    assert(name_hash_ascii(s.take(11)) == 0xd3502e78fbbc2787u64);
    assert(s.take(12).drop_last() =~= s.take(11) && s.take(12).last() == 's');
    assert(name_hash_ascii(s.take(12)) == 0x96b5a0a67bc8c9ccu64);
    assert(s.take(12) =~= s);
}

#[verifier::rlimit(100)]
proof fn lemma_hash_of_flight_reservation_counts()
    ensures
        name_hash_ascii("flight_reservation_counts"@) == 0x7e7727e86b1039c1u64,
{
    reveal_strlit("flight_reservation_counts");
    let s = "flight_reservation_counts"@;
    reveal_with_fuel(name_hash_ascii, 2);
    assert(s.take(0) =~= Seq::<char>::empty());
    assert(name_hash_ascii(s.take(0)) == 0xcbf29ce484222325u64);
    assert(s.take(1).drop_last() =~= s.take(0) && s.take(1).last() == 'f');
    assert(name_hash_ascii(s.take(1)) == 0xb260ffac002241e1u64);
    assert(s.take(2).drop_last() =~= s.take(1) && s.take(2).last() == 'l');
    assert(name_hash_ascii(s.take(2)) == 0x99bef5d40425faabu64);
    assert(s.take(3).drop_last() =~= s.take(2) && s.take(3).last() == 'i');
    assert(name_hash_ascii(s.take(3)) == 0x9e1fc4ac80995b1eu64);
    assert(s.take(4).drop_last() =~= s.take(3) && s.take(4).last() == 'g');
    assert(name_hash_ascii(s.take(4)) == 0x25d8d0e392920909u64);
    assert(s.take(5).drop_last() =~= s.take(4) && s.take(5).last() == 'h');
    assert(name_hash_ascii(s.take(5)) == 0x95414b8ebfaf187fu64);
    assert(s.take(6).drop_last() =~= s.take(5) && s.take(6).last() == 't');
    assert(name_hash_ascii(s.take(6)) == 0x12e826493633f7d5u64);
    assert(s.take(7).drop_last() =~= s.take(6) && s.take(7).last() == '_');
    assert(name_hash_ascii(s.take(7)) == 0x4a1ca2dd904b032au64);
    assert(s.take(8).drop_last() =~= s.take(7) && s.take(8).last() == 'r');
    assert(name_hash_ascii(s.take(8)) == 0xf977b8d479156288u64);
    assert(s.take(9).drop_last() =~= s.take(8) && s.take(9).last() == 'e');
    assert(name_hash_ascii(s.take(9)) == 0x357f61baa996eeddu64);
    assert(s.take(10).drop_last() =~= s.take(9) && s.take(10).last() == 's');
    assert(name_hash_ascii(s.take(10)) == 0x7a6cd59a8946ed36u64);
    assert(s.take(11).drop_last() =~= s.take(10) && s.take(11).last() == 'e');
    assert(name_hash_ascii(s.take(11)) == 0xd32dddb69f96b9efu64);
    assert(s.take(12).drop_last() =~= s.take(11) && s.take(12).last() == 'r');
    assert(name_hash_ascii(s.take(12)) == 0x928dd91d53408463u64);
    assert(s.take(13).drop_last() =~= s.take(12) && s.take(13).last() == 'v');
    assert(name_hash_ascii(s.take(13)) == 0xbf2d4a8d14d00873u64);
    assert(s.take(14).drop_last() =~= s.take(13) && s.take(14).last() == 'a');
    assert(name_hash_ascii(s.take(14)) == 0x267c07158531064eu64);
    assert(s.take(15).drop_last() =~= s.take(14) && s.take(15).last() == 't');
    assert(name_hash_ascii(s.take(15)) == 0xa904db9b20efc3e6u64);
    assert(s.take(16).drop_last() =~= s.take(15) && s.take(16).last() == 'i');
    assert(name_hash_ascii(s.take(16)) == 0x779697c8fd08b943u64);
    assert(s.take(17).drop_last() =~= s.take(16) && s.take(17).last() == 'o');
    assert(name_hash_ascii(s.take(17)) == 0x7b3c6156a40e6f8cu64);
    assert(s.take(18).drop_last() =~= s.take(17) && s.take(18).last() == 'n');
    assert(name_hash_ascii(s.take(18)) == 0xec4fc97dddbf8262u64);
    assert(s.take(19).drop_last() =~= s.take(18) && s.take(19).last() == '_');
    assert(name_hash_ascii(s.take(19)) == 0x9da9663dda30ca3du64);
    assert(s.take(20).drop_last() =~= s.take(19) && s.take(20).last() == 'c');
    assert(name_hash_ascii(s.take(20)) == 0x1783617d6be87dc6u64);
    assert(s.take(21).drop_last() =~= s.take(20) && s.take(21).last() == 'o');
    assert(name_hash_ascii(s.take(21)) == 0xd8e8ce3011273b69u64);
    assert(s.take(22).drop_last() =~= s.take(21) && s.take(22).last() == 'u');
    assert(name_hash_ascii(s.take(22)) == 0x4430f7d213c0322cu64);
    assert(s.take(23).drop_last() =~= s.take(22) && s.take(23).last() == 'n');
    assert(name_hash_ascii(s.take(23)) == 0x41ee0270644613c2u64);
    assert(s.take(24).drop_last() =~= s.take(23) && s.take(24).last() == 't');
    assert(name_hash_ascii(s.take(24)) == 0xfbd24b9c247c64f2u64);
    assert(s.take(25).drop_last() =~= s.take(24) && s.take(25).last() == 's');
    assert(name_hash_ascii(s.take(25)) == 0x7e7727e86b1039c1u64);
    assert(s.take(25) =~= s);
}

/// The name hash folded over a name's characters taken as single bytes:
/// what [`table_id_hash`] works out to for an ASCII name.
pub open spec fn name_hash_ascii(name: Seq<char>) -> u64
    decreases name.len(),
{
    if name.len() == 0 {
        0xcbf29ce484222325u64
    } else {
        crate::table::name_hash_step(name_hash_ascii(name.drop_last()), name.last() as u8)
    }
}

/// For a name of ASCII characters the table id is the hash folded over the
/// characters themselves, since each encodes as the one byte of its code
/// point.
pub proof fn lemma_ascii_name_hash(name: Seq<char>)
    requires
        vstd::utf8::is_ascii_chars(name),
    ensures
        table_id_hash(name) == name_hash_ascii(name),
{
    vstd::utf8::is_ascii_chars_encode_utf8(name);
    assert(encode_utf8(name) =~= Seq::new(name.len(), |i: int| name[i] as u8));
    lemma_fnv_of_ascii_bytes(name);
}

proof fn lemma_fnv_of_ascii_bytes(name: Seq<char>)
    ensures
        crate::table::name_hash_64(Seq::new(name.len(), |i: int| name[i] as u8))
            == name_hash_ascii(name),
    decreases name.len(),
{
    let bytes = Seq::new(name.len(), |i: int| name[i] as u8);
    if name.len() > 0 {
        let front = name.drop_last();
        assert(bytes.drop_last() =~= Seq::new(front.len(), |i: int| front[i] as u8));
        assert(bytes.last() == name.last() as u8);
        lemma_fnv_of_ascii_bytes(front);
    } else {
        assert(bytes =~= Seq::<u8>::empty());
    }
}

impl AirlineDatabase {
    /// The four table ids are pairwise distinct.
    pub open spec fn ids_distinct(&self) -> bool {
        &&& self.airports.id != self.flights.id
        &&& self.airports.id != self.reservations.id
        &&& self.airports.id != self.flight_reservation_counts.id
        &&& self.flights.id != self.reservations.id
        &&& self.flights.id != self.flight_reservation_counts.id
        &&& self.reservations.id != self.flight_reservation_counts.id
    }
}

impl Database for AirlineDatabase {
    type Contents = AirlineContents;

    type Counters = AirlineCounters;

    open spec fn contents(&self) -> AirlineContents {
        AirlineContents {
            airports: self.airports.content_map(),
            flights: self.flights.content_map(),
            reservations: self.reservations.content_map(),
            flight_reservation_counts: self.flight_reservation_counts.content_map(),
        }
    }

    open spec fn counters(&self) -> AirlineCounters {
        AirlineCounters {
            airports: self.airports.first_free_id,
            flights: self.flights.first_free_id,
            reservations: self.reservations.first_free_id,
            flight_reservation_counts: self.flight_reservation_counts.first_free_id,
        }
    }

    open spec fn image(&self) -> DbImage {
        Map::empty().insert(self.airports.id, self.airports.image_map()).insert(
            self.flights.id,
            self.flights.image_map(),
        ).insert(self.reservations.id, self.reservations.image_map()).insert(
            self.flight_reservation_counts.id,
            self.flight_reservation_counts.image_map(),
        )
    }

    open spec fn inv(&self) -> bool {
        &&& self.airports.inv()
        &&& self.flights.inv()
        &&& self.reservations.inv()
        &&& self.flight_reservation_counts.inv()
        &&& self.airports.id == table_id_hash("airports"@)
        &&& self.flights.id == table_id_hash("flights"@)
        &&& self.reservations.id == table_id_hash("reservations"@)
        &&& self.flight_reservation_counts.id == table_id_hash("flight_reservation_counts"@)
        &&& self.ids_distinct()
    }

    open spec fn snap_le(&self, n: usize) -> bool {
        &&& self.airports.snap_le(n)
        &&& self.flights.snap_le(n)
        &&& self.reservations.snap_le(n)
        &&& self.flight_reservation_counts.snap_le(n)
    }

    open spec fn entry_ok(&self, e: UndoEntry) -> bool {
        &&& (e.table_id() == self.airports.id || e.table_id() == self.flights.id || e.table_id()
            == self.reservations.id || e.table_id() == self.flight_reservation_counts.id)
        &&& self.airports.entry_ok_for(e)
        &&& self.flights.entry_ok_for(e)
        &&& self.reservations.entry_ok_for(e)
        &&& self.flight_reservation_counts.entry_ok_for(e)
    }

    open spec fn coherent(&self, log: TransactionLog) -> bool {
        &&& self.airports.coherent_with(log)
        &&& self.flights.coherent_with(log)
        &&& self.reservations.coherent_with(log)
        &&& self.flight_reservation_counts.coherent_with(log)
        &&& forall|k: int| 0 <= k < log.entries.len() ==> self.entry_ok(#[trigger] log.entries[k])
    }

    #[verifier::rlimit(100)]
    fn rollback_entry(&mut self, e: &TransactionEntry) {
        let ghost image0 = self.image();
        match e {
            TransactionEntry::Existing(table_id, entity_id, state) => {
                if *table_id == self.airports.get_id() {
                    self.airports.rollback_to_existing(*entity_id, state);
                } else if *table_id == self.flights.get_id() {
                    self.flights.rollback_to_existing(*entity_id, state);
                } else if *table_id == self.reservations.get_id() {
                    self.reservations.rollback_to_existing(*entity_id, state);
                } else {
                    self.flight_reservation_counts.rollback_to_existing(*entity_id, state);
                }
            },
            TransactionEntry::NotExisting(table_id, entity_id) => {
                if *table_id == self.airports.get_id() {
                    self.airports.rollback_to_not_existing(*entity_id);
                } else if *table_id == self.flights.get_id() {
                    self.flights.rollback_to_not_existing(*entity_id);
                } else if *table_id == self.reservations.get_id() {
                    self.reservations.rollback_to_not_existing(*entity_id);
                } else {
                    self.flight_reservation_counts.rollback_to_not_existing(*entity_id);
                }
            },
        }
        proof {
            assert(self.airports.id == old(self).airports.id);
            assert(self.flights.id == old(self).flights.id);
            assert(self.reservations.id == old(self).reservations.id);
            assert(self.flight_reservation_counts.id == old(self).flight_reservation_counts.id);
            assert(self.airports.id_counter() == old(self).airports.id_counter());
            assert(self.flights.id_counter() == old(self).flights.id_counter());
            assert(self.reservations.id_counter() == old(self).reservations.id_counter());
            assert(self.flight_reservation_counts.id_counter() == old(
                self,
            ).flight_reservation_counts.id_counter());
            assert forall|e2: UndoEntry| old(self).entry_ok(e2) implies self.entry_ok(e2) by {
                assert(self.airports.id_ok(e2.entity_id()) == old(self).airports.id_ok(
                    e2.entity_id(),
                ));
                assert(self.flights.id_ok(e2.entity_id()) == old(self).flights.id_ok(
                    e2.entity_id(),
                ));
                assert(self.reservations.id_ok(e2.entity_id()) == old(self).reservations.id_ok(
                    e2.entity_id(),
                ));
                assert(self.flight_reservation_counts.id_ok(e2.entity_id()) == old(
                    self,
                ).flight_reservation_counts.id_ok(e2.entity_id()));
                match e2 {
                    UndoEntry::Existing { state, .. } => {
                        assert(self.airports.bytes_ok(state) == old(self).airports.bytes_ok(
                            state,
                        ));
                        assert(self.flights.bytes_ok(state) == old(self).flights.bytes_ok(state));
                        assert(self.reservations.bytes_ok(state) == old(
                            self,
                        ).reservations.bytes_ok(state));
                        assert(self.flight_reservation_counts.bytes_ok(state) == old(
                            self,
                        ).flight_reservation_counts.bytes_ok(state));
                    },
                    UndoEntry::NotExisting { .. } => {},
                }
            }
            assert forall|n: usize| old(self).snap_le(n) implies self.snap_le(n) by {
                assert(old(self).airports.snap_bound(n) ==> self.airports.snap_bound(n));
                assert(old(self).flights.snap_bound(n) ==> self.flights.snap_bound(n));
                assert(old(self).reservations.snap_bound(n) ==> self.reservations.snap_bound(n));
                assert(old(self).flight_reservation_counts.snap_bound(n) ==> self.flight_reservation_counts.snap_bound(n));
            }
            assert(image0[old(self).airports.id] == old(self).airports.image_map());
            assert(image0[old(self).flights.id] == old(self).flights.image_map());
            assert(image0[old(self).reservations.id] == old(self).reservations.image_map());
            assert(image0[old(self).flight_reservation_counts.id] == old(
                self,
            ).flight_reservation_counts.image_map());
            assert(self.image() =~~= apply_entry(image0, e@));
        }
    }

    proof fn lemma_coherent_parts(&self, log: TransactionLog) {
    }

    proof fn lemma_coherent_fresh(&self, log: TransactionLog) {
        lemma_table_coherent_fresh(&self.airports, log);
        lemma_table_coherent_fresh(&self.flights, log);
        lemma_table_coherent_fresh(&self.reservations, log);
        lemma_table_coherent_fresh(&self.flight_reservation_counts, log);
    }

    proof fn lemma_image_determines_contents(&self, other: &Self) {
        assert(self.image()[self.airports.id] == self.airports.image_map());
        assert(other.image()[other.airports.id] == other.airports.image_map());
        assert(self.image()[self.flights.id] == self.flights.image_map());
        assert(other.image()[other.flights.id] == other.flights.image_map());
        assert(self.image()[self.reservations.id] == self.reservations.image_map());
        assert(other.image()[other.reservations.id] == other.reservations.image_map());
        assert(self.image()[self.flight_reservation_counts.id]
            == self.flight_reservation_counts.image_map());
        assert(other.image()[other.flight_reservation_counts.id]
            == other.flight_reservation_counts.image_map());
        lemma_image_determines_content(&self.airports, &other.airports);
        lemma_image_determines_content(&self.flights, &other.flights);
        lemma_image_determines_content(&self.reservations, &other.reservations);
        lemma_image_determines_content(
            &self.flight_reservation_counts,
            &other.flight_reservation_counts,
        );
        assert(self.contents() =~= other.contents());
    }
}

impl DatabaseFactory for AirlineDatabase {
    /// One empty table per declared field, each named by its field: every
    /// table holds nothing and its id counter starts at 1.
    fn create_database() -> (r: Self)
        ensures
            r.contents() == (AirlineContents {
                airports: Map::empty(),
                flights: Map::empty(),
                reservations: Map::empty(),
                flight_reservation_counts: Map::empty(),
            }),
            r.counters() == (AirlineCounters {
                airports: 1,
                flights: 1,
                reservations: 1,
                flight_reservation_counts: 1,
            }),
            r.airports.rows_map() == Map::<usize, Entity<Airport>>::empty(),
            r.flights.rows_map() == Map::<usize, Entity<Flight>>::empty(),
            r.reservations.rows_map() == Map::<usize, Entity<Reservation>>::empty(),
            r.flight_reservation_counts.rows_map() == Map::<
                usize,
                Entity<FlightReservationCount>,
            >::empty(),
    {
        let r = AirlineDatabase {
            airports: Table::new("airports"),
            flights: Table::new("flights"),
            reservations: Table::new("reservations"),
            flight_reservation_counts: Table::new("flight_reservation_counts"),
        };
        proof {
            lemma_airline_ids_distinct();
            assert(r.airports.content_map() =~= Map::<usize, AirportView>::empty());
            assert(r.flights.content_map() =~= Map::<usize, FlightView>::empty());
            assert(r.reservations.content_map() =~= Map::<usize, ReservationView>::empty());
            assert(r.flight_reservation_counts.content_map() =~= Map::<
                usize,
                FlightReservationCount,
            >::empty());
            assert(r.contents() =~= (AirlineContents {
                airports: Map::empty(),
                flights: Map::empty(),
                reservations: Map::empty(),
                flight_reservation_counts: Map::empty(),
            }));
            assert(r.airports.image_map() =~= Map::<usize, Seq<u8>>::empty());
            assert(r.flights.image_map() =~= Map::<usize, Seq<u8>>::empty());
            assert(r.reservations.image_map() =~= Map::<usize, Seq<u8>>::empty());
            assert(r.flight_reservation_counts.image_map() =~= Map::<usize, Seq<u8>>::empty());
            assert forall|t: u64| #[trigger]
                r.image().dom().contains(t) implies r.image()[t] == Map::<
                usize,
                Seq<u8>,
            >::empty() by {}
        }
        r
    }
}

} // verus!
