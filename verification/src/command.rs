//! Commands: named mutations with serializable parameters, and the
//! directory that resolves a journaled name back to an executable command.
//!
//! A command's meaning is its `spec_run`: a deterministic transform of the
//! database contents, or an error message.  `run` must realize exactly that
//! transform under the transaction envelope, and must keep the undo result
//! of the database image unchanged while a transaction runs — which is what
//! lets the engine promise that a failed command leaves no trace.

use vstd::prelude::*;
use crate::transaction::{apply_undo, TransactionManager, UndoEntry};
use crate::transaction_storage::JournalRecord;
use crate::Database;

verus! {

/// An executable binding of a command to its parameters.
pub trait CommandBase<D: Database>: Sized {
    /// The command's registered name.
    spec fn spec_name(&self) -> Seq<char>;

    /// The serialized form of the command's parameters.
    spec fn spec_params(&self) -> Seq<u8>;

    /// What the command does: from the contents and the id counters, the
    /// new contents (or the error that rolls the transaction back) and the
    /// counters afterwards.  A function of that state alone, so a journaled
    /// command re-runs identically on replay.  The counters advance even on
    /// an error: rollback leaves id holes.
    spec fn spec_run(&self, v: D::Contents, c: D::Counters) -> (
        Result<D::Contents, Seq<char>>,
        D::Counters,
    );

    /// Whether the command's parameters fit the codec's 64-bit length
    /// prefixes.  Every command that exists at run time fits;
    /// `get_serialized_parameters` proves it, and `run` may assume it.
    spec fn spec_fits(&self) -> bool;

    /// Run the command against the database.  Within a running transaction
    /// every mutation goes through the undo-capturing table operations, so
    /// the undo result of the image is unchanged and the log stays coherent;
    /// the outcome is exactly `spec_run` of the prior contents.
    fn run(&self, db: &mut D, tm: &mut TransactionManager) -> (r: Result<(), String>)
        requires
            self.spec_fits(),
            old(db).inv(),
            old(tm).inv(),
            old(db).coherent(old(tm)@),
        ensures
            final(db).inv(),
            final(tm).inv(),
            final(db).coherent(final(tm)@),
            final(tm)@.transaction_id == old(tm)@.transaction_id,
            final(tm)@.running == old(tm)@.running,
            forall|e: UndoEntry|
                #![trigger final(db).entry_ok(e)]
                old(db).entry_ok(e) ==> final(db).entry_ok(e),
            old(tm)@.running ==> apply_undo(final(db).image(), final(tm)@.entries) == apply_undo(
                old(db).image(),
                old(tm)@.entries,
            ),
            !old(tm)@.running ==> final(tm)@ == old(tm)@,
            final(db).counters() == self.spec_run(old(db).contents(), old(db).counters()).1,
            match r {
                Ok(u) => self.spec_run(old(db).contents(), old(db).counters()).0 == Ok::<
                    D::Contents,
                    Seq<char>,
                >(final(db).contents()),
                Err(m) => self.spec_run(old(db).contents(), old(db).counters()).0 == Err::<
                    D::Contents,
                    Seq<char>,
                >(m@),
            },
    ;

    /// The command's registered name.
    fn get_name(&self) -> (r: String)
        ensures
            r@ == self.spec_name(),
    ;

    /// The serialized form of the command's parameters.
    fn get_serialized_parameters(&self) -> (r: Vec<u8>)
        ensures
            r@ == self.spec_params(),
            self.spec_fits(),
    ;
}

/// The journal record a command submission writes.
pub open spec fn record_of<D: Database, C: CommandBase<D>>(c: C) -> JournalRecord {
    JournalRecord { name: c.spec_name(), params: c.spec_params() }
}

/// The directory: resolves a command name and serialized parameters into an
/// executable command.  A name the directory does not know, or parameters
/// that do not decode, resolve to nothing — on replay that is fatal.
pub trait CommandDefinitions<D: Database>: Sized {
    /// The type of the directory's commands.
    type Cmd: CommandBase<D>;

    /// Whether the name and parameter bytes denote a command.
    spec fn spec_can_create(&self, name: Seq<char>, params: Seq<u8>) -> bool;

    /// The transform denoted by a name and parameter bytes.
    spec fn spec_run_of(&self, name: Seq<char>, params: Seq<u8>, v: D::Contents, c: D::Counters) -> (
        Result<D::Contents, Seq<char>>,
        D::Counters,
    );

    /// Resolve a journaled record into the command it denotes.
    fn create_from_serialized(&self, name: &String, serialized_parameters: &Vec<u8>) -> (r: Option<
        Self::Cmd,
    >)
        ensures
            r is Some <==> self.spec_can_create(name@, serialized_parameters@),
            r matches Some(cmd) ==> cmd.spec_fits() && cmd.spec_name() == name@ && forall|
                v: D::Contents,
                c: D::Counters,
            |
                #![trigger cmd.spec_run(v, c)]
                cmd.spec_run(v, c) == self.spec_run_of(name@, serialized_parameters@, v, c),
    ;

    /// Every command resolves back to itself from its own name and
    /// serialized parameters: what makes a journaled submission replay as
    /// the same transform.
    proof fn lemma_create_round_trip(&self, cmd: &Self::Cmd)
        requires
            cmd.spec_fits(),
        ensures
            self.spec_can_create(cmd.spec_name(), cmd.spec_params()),
            forall|v: D::Contents, c: D::Counters|
                #![trigger cmd.spec_run(v, c)]
                cmd.spec_run(v, c) == self.spec_run_of(cmd.spec_name(), cmd.spec_params(), v, c),
    ;
}

/// Replay a journal: resolve and run each record in order, from the seeded
/// contents.  `None` when a record does not resolve or a replayed command
/// reports an error — the fatal startup conditions.
pub open spec fn spec_replay<D: Database, CD: CommandDefinitions<D>>(
    cd: CD,
    v: D::Contents,
    c: D::Counters,
    records: Seq<JournalRecord>,
) -> Option<(D::Contents, D::Counters)>
    decreases records.len(),
{
    if records.len() == 0 {
        Some((v, c))
    } else if !cd.spec_can_create(records[0].name, records[0].params) {
        None
    } else {
        let step = cd.spec_run_of(records[0].name, records[0].params, v, c);
        match step.0 {
            Ok(v2) => spec_replay(cd, v2, step.1, records.drop_first()),
            Err(m) => None,
        }
    }
}

/// Replay extended by one successful record is the record's transform of
/// the replay.
pub proof fn lemma_replay_snoc<D: Database, CD: CommandDefinitions<D>>(
    cd: CD,
    v0: D::Contents,
    c0: D::Counters,
    records: Seq<JournalRecord>,
    r: JournalRecord,
    v: D::Contents,
    c: D::Counters,
    v2: D::Contents,
    c2: D::Counters,
)
    requires
        spec_replay(cd, v0, c0, records) == Some((v, c)),
        cd.spec_can_create(r.name, r.params),
        cd.spec_run_of(r.name, r.params, v, c).0 == Ok::<D::Contents, Seq<char>>(v2),
        cd.spec_run_of(r.name, r.params, v, c).1 == c2,
    ensures
        spec_replay(cd, v0, c0, records.push(r)) == Some((v2, c2)),
    decreases records.len(),
{
    reveal_with_fuel(spec_replay, 3);
    if records.len() == 0 {
        assert(records.push(r).drop_first() =~= Seq::<JournalRecord>::empty());
    } else {
        assert(records.push(r)[0] == records[0]);
        assert(records.push(r).drop_first() =~= records.drop_first().push(r));
        let step = cd.spec_run_of(records[0].name, records[0].params, v0, c0);
        match step.0 {
            Ok(v1) => {
                lemma_replay_snoc(cd, v1, step.1, records.drop_first(), r, v, c, v2, c2);
            },
            Err(_) => {},
        }
    }
}

} // verus!
