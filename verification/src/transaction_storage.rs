//! Durable storage of submitted commands, and the journal record format.
//!
//! A record is `name_length: u64 LE`, the UTF-8 name bytes, `params_length:
//! u64 LE`, the parameter bytes; the journal is records back to back.
//! Records are written before the command executes, and the whole journal is
//! read and replayed on startup.  Encoding and parsing are verified here;
//! what a storage does with the bytes (a file, nothing) is the embedder's
//! code behind the [`TransactionStorage`] trait.

use vstd::prelude::*;
use crate::serialize::{
    lemma_take_bytes, lemma_take_string, read_bytes, read_string, spec_serialize_bytes,
    spec_serialize_string, spec_take_bytes, spec_take_string, write_bytes, write_string,
};
use vstd::utf8::encode_utf8;

verus! {

/// One journal record: a command name with its serialized parameters.
pub struct SerializedTransaction {
    pub name: String,
    pub serialized_parameters: Vec<u8>,
}

/// The mathematical form of a journal record.
pub struct JournalRecord {
    pub name: Seq<char>,
    pub params: Seq<u8>,
}

impl View for SerializedTransaction {
    type V = JournalRecord;

    open spec fn view(&self) -> JournalRecord {
        JournalRecord { name: self.name@, params: self.serialized_parameters@ }
    }
}

/// The byte image of one record.
pub open spec fn spec_encode_record(r: JournalRecord) -> Seq<u8> {
    spec_serialize_string(r.name) + spec_serialize_bytes(r.params)
}

/// The byte image of a whole journal.
pub open spec fn spec_encode_journal(rs: Seq<JournalRecord>) -> Seq<u8>
    decreases rs.len(),
{
    if rs.len() == 0 {
        Seq::empty()
    } else {
        spec_encode_record(rs[0]) + spec_encode_journal(rs.drop_first())
    }
}

/// A record fits the length-prefixed format.
pub open spec fn record_fits(r: JournalRecord) -> bool {
    encode_utf8(r.name).len() <= u64::MAX && r.params.len() <= u64::MAX
}

/// Parse a journal: records until the end of the bytes; anything that is
/// not a whole number of well-formed records is rejected.
pub open spec fn spec_parse_journal(b: Seq<u8>) -> Option<Seq<JournalRecord>>
    decreases b.len(),
{
    if b.len() == 0 {
        Some(Seq::empty())
    } else {
        match spec_take_string(b) {
            None => None,
            Some((name, r1)) => match spec_take_bytes(r1) {
                None => None,
                Some((params, r2)) => match spec_parse_journal(r2) {
                    None => None,
                    Some(rs) => Some(seq![JournalRecord { name, params }] + rs),
                },
            },
        }
    }
}

/// Parsing inverts encoding: the journal written for a run of commands
/// parses back to exactly those records.  With the round trip of each
/// command's parameters, this is what makes restart replay rebuild the same
/// run.
pub proof fn lemma_parse_encode_journal(rs: Seq<JournalRecord>)
    requires
        forall|k: int| 0 <= k < rs.len() ==> record_fits(#[trigger] rs[k]),
    ensures
        spec_parse_journal(spec_encode_journal(rs)) == Some(rs),
    decreases rs.len(),
{
    if rs.len() == 0 {
        assert(spec_encode_journal(rs).len() == 0);
        assert(Seq::<JournalRecord>::empty() =~= rs);
    } else {
        let r = rs[0];
        let tail = spec_encode_journal(rs.drop_first());
        let b = spec_encode_journal(rs);
        assert(record_fits(r));
        assert(b =~= spec_serialize_string(r.name) + (spec_serialize_bytes(r.params) + tail));
        lemma_take_string(r.name, spec_serialize_bytes(r.params) + tail);
        lemma_take_bytes(r.params, tail);
        assert(b.len() > 0) by {
            vstd::bytes::lemma_auto_spec_u64_to_from_le_bytes();
        }
        lemma_parse_encode_journal(rs.drop_first());
        assert(seq![JournalRecord { name: r.name, params: r.params }] + rs.drop_first() =~= rs);
    }
}

/// Append the byte image of one record to `out`.
pub fn encode_record(out: &mut Vec<u8>, name: &String, serialized_parameters: &Vec<u8>)
    ensures
        final(out)@ == old(out)@ + spec_encode_record(
            JournalRecord { name: name@, params: serialized_parameters@ },
        ),
{
    write_string(out, name);
    write_bytes(out, serialized_parameters);
    proof {
        assert(out@ =~= old(out)@ + spec_encode_record(
            JournalRecord { name: name@, params: serialized_parameters@ },
        ));
    }
}

/// Parse a whole journal into records; `None` when the bytes are not a
/// whole number of well-formed records.
pub fn parse_journal(bytes: &Vec<u8>) -> (r: Option<Vec<SerializedTransaction>>)
    ensures
        match r {
            Some(records) => spec_parse_journal(bytes@) == Some(
                records@.map_values(|st: SerializedTransaction| st@),
            ),
            None => spec_parse_journal(bytes@) is None,
        },
{
    let mut records: Vec<SerializedTransaction> = Vec::new();
    let mut pos: usize = 0;
    proof {
        assert(bytes@.skip(0) =~= bytes@);
        assert(records@.map_values(|st: SerializedTransaction| st@) =~= Seq::<
            JournalRecord,
        >::empty());
    }
    while pos < bytes.len()
        invariant
            pos <= bytes@.len(),
            ({
                let done = records@.map_values(|st: SerializedTransaction| st@);
                match spec_parse_journal(bytes@.skip(pos as int)) {
                    Some(rest) => spec_parse_journal(bytes@) == Some(done + rest),
                    None => spec_parse_journal(bytes@) is None,
                }
            }),
        decreases bytes@.len() - pos,
    {
        let ghost done0 = records@.map_values(|st: SerializedTransaction| st@);
        let ghost suffix = bytes@.skip(pos as int);
        let name = match read_string(bytes.as_slice(), pos) {
            Some(v) => v,
            None => {
                return None;
            },
        };
        let params = match read_bytes(bytes.as_slice(), name.1) {
            Some(v) => v,
            None => {
                return None;
            },
        };
        let end = params.1;
        let rec = SerializedTransaction { name: name.0, serialized_parameters: params.0 };
        proof {
            assert(spec_parse_journal(suffix) matches Some(rs) ==> rs == seq![rec@]
                + spec_parse_journal(bytes@.skip(end as int)).unwrap());
        }
        records.push(rec);
        proof {
            assert(records@.map_values(|st: SerializedTransaction| st@) =~= done0.push(rec@));
            if spec_parse_journal(bytes@.skip(end as int)) is Some {
                let rest2 = spec_parse_journal(bytes@.skip(end as int)).unwrap();
                assert(done0 + (seq![rec@] + rest2) =~= done0.push(rec@) + rest2);
            }
        }
        pos = end;
    }
    proof {
        assert(bytes@.skip(pos as int) =~= Seq::<u8>::empty());
        assert(records@.map_values(|st: SerializedTransaction| st@) + Seq::<
            JournalRecord,
        >::empty() =~= records@.map_values(|st: SerializedTransaction| st@));
    }
    Some(records)
}

/// Where submitted commands go for durability and come back from at
/// startup.  The engine encodes and parses records itself; a storage only
/// carries bytes, and nothing is promised of it — a storage that loses
/// bytes loses durability, not the in-memory guarantees.
pub trait TransactionStorage: Sized {
    /// Append raw bytes to the journal.
    fn write(&mut self, buf: &Vec<u8>) -> usize;

    /// The whole journal, read once at startup.
    fn read_to_end(&mut self) -> Vec<u8>;

    /// Append one command as a length-prefixed record.
    fn add(&mut self, name: &String, serialized_parameters: &Vec<u8>) {
        let mut buf: Vec<u8> = Vec::new();
        encode_record(&mut buf, name, serialized_parameters);
        self.write(&buf);
    }
}

/// A storage that keeps nothing: writes vanish and startup sees an empty
/// journal.  For tests and ephemeral databases.
pub struct NullTransactionStorage {}

impl NullTransactionStorage {
    pub fn new() -> (r: Self)
        ensures
            true,
    {
        NullTransactionStorage {  }
    }
}

impl TransactionStorage for NullTransactionStorage {
    fn write(&mut self, buf: &Vec<u8>) -> (r: usize)
        ensures
            r == 0,
            *final(self) == *old(self),
    {
        0
    }

    fn read_to_end(&mut self) -> (r: Vec<u8>)
        ensures
            r@ == Seq::<u8>::empty(),
    {
        Vec::new()
    }
}

} // verus!
