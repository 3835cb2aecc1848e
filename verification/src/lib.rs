//! An embedded, in-memory, single-writer database engine with
//! ACID-serializable transactions and durability through a command journal.
//!
//! Mutations are expressed as named commands; each command runs against the
//! whole database under an implicit transaction and either commits or is
//! rolled back from an in-memory undo log.  Every submitted command is
//! appended to a journal before it executes, and replaying the journal on
//! startup reconstructs the database.

use vstd::prelude::*;

pub mod command;
pub mod commands;
pub mod entity;
pub mod schema;
pub mod serialize;
pub mod table;
pub mod transaction;
pub mod transaction_storage;

use crate::command::{record_of, spec_replay, CommandBase, CommandDefinitions};
use crate::command::lemma_replay_snoc;
use crate::transaction::{
    apply_entry, apply_undo, DbImage, TransactionEntry, TransactionLog, TransactionManager,
    UndoEntry,
};
use crate::transaction_storage::{JournalRecord, SerializedTransaction, TransactionStorage};

verus! {

/// Builds a fresh, empty database with every declared table; the engine and
/// embedders construct databases only through this.
pub trait DatabaseFactory: Database {
    /// The built record is fresh: well-formed, untouched by any transaction,
    /// and every declared table is empty.  An implementation additionally
    /// pins its own tables' contents and id counters.
    fn create_database() -> (r: Self)
        ensures
            r.inv(),
            forall|n: usize| r.snap_le(n),
            forall|t: u64| #[trigger]
                r.image().dom().contains(t) ==> r.image()[t] == Map::<usize, Seq<u8>>::empty(),
    ;
}

/// A database: a fixed record of tables, with the capability set that
/// rollback dispatches by table id.
///
/// The two spec views are the typed `contents` (what queries observe) and
/// the serialized `image` (what the undo machinery restores); `inv` is the
/// well-formedness of all tables, and `coherent` ties the tables'
/// snapshot markers to the transaction manager's undo log.
pub trait Database: Sized {
    /// The typed contents of all tables, without identity counters or
    /// snapshot bookkeeping: what is observable through queries, and what
    /// rollback restores.
    type Contents;

    /// The tables' id counters.  They only ever grow: a rolled-back
    /// transaction leaves holes, it does not give ids back.
    type Counters;

    spec fn contents(&self) -> Self::Contents;

    spec fn counters(&self) -> Self::Counters;

    /// The serialized contents of all tables, keyed by table id.
    spec fn image(&self) -> DbImage;

    spec fn inv(&self) -> bool;

    /// Every entity's last-snapshot transaction id is at most `n`.
    spec fn snap_le(&self, n: usize) -> bool;

    /// The undo entry refers to a declared table, its entity id is below
    /// that table's id counter, and saved bytes decode for that table's
    /// entity type.
    spec fn entry_ok(&self, e: UndoEntry) -> bool;

    /// The tables' snapshot markers agree with the undo log: while a
    /// transaction runs, an entity carries the running transaction's id
    /// exactly when the log holds an entry for it, the log holds at most
    /// one entry per entity, and every entry is `entry_ok`.
    spec fn coherent(&self, log: TransactionLog) -> bool;

    /// Restore one undo entry: put back the saved bytes, or erase the
    /// created entity.
    fn rollback_entry(&mut self, e: &TransactionEntry)
        requires
            old(self).inv(),
            old(self).entry_ok(e@),
        ensures
            final(self).inv(),
            final(self).image() == apply_entry(old(self).image(), e@),
            final(self).counters() == old(self).counters(),
            forall|e2: UndoEntry| old(self).entry_ok(e2) ==> final(self).entry_ok(e2),
            forall|n: usize| old(self).snap_le(n) ==> final(self).snap_le(n),
    ;

    /// What coherence gives the engine: a snapshot bound and the validity
    /// of every logged entry.
    proof fn lemma_coherent_parts(&self, log: TransactionLog)
        requires
            self.coherent(log),
        ensures
            self.snap_le(log.transaction_id),
            forall|k: int| 0 <= k < log.entries.len() ==> self.entry_ok(#[trigger] log.entries[k]),
    ;

    /// A database whose snapshot markers are old enough is coherent with an
    /// empty undo log.
    proof fn lemma_coherent_fresh(&self, log: TransactionLog)
        requires
            self.inv(),
            log.entries.len() == 0,
            log.transaction_id >= 1,
            log.running ==> self.snap_le((log.transaction_id - 1) as usize),
            !log.running ==> self.snap_le(log.transaction_id),
        ensures
            self.coherent(log),
    ;

    /// The serialized image pins down the typed contents: serialization is
    /// injective, so restoring the image restores what queries observe.
    proof fn lemma_image_determines_contents(&self, other: &Self)
        requires
            self.inv(),
            other.inv(),
            self.image() == other.image(),
        ensures
            self.contents() == other.contents(),
    ;
}

/// Read-only access to the database.  In this sequential core a query
/// engine is a shared borrow of the database, so readers exclude the writer
/// exactly as the shared/exclusive reference rules say; the surrounding
/// application wraps the engine in a reader/writer lock to get the same
/// exclusion between threads.
pub struct QueryEngine<'a, D: Database> {
    db: &'a D,
}

impl<'a, D: Database> View for QueryEngine<'a, D> {
    type V = D;

    closed spec fn view(&self) -> D {
        *self.db
    }
}

impl<'a, D: Database> QueryEngine<'a, D> {
    pub fn new(db: &'a D) -> (r: Self)
        ensures
            r@ == *db,
    {
        QueryEngine { db }
    }

    /// The committed database, for reading.
    pub fn get_db(&self) -> (r: &'a D)
        ensures
            *r == self@,
    {
        self.db
    }
}

/// Whether a submitted command runs before `push_command` returns or is
/// queued for the single writer.
#[derive(PartialEq, Eq, Structural, Clone, Copy, Debug)]
pub enum CommandExecutionType {
    Synchronous,
    Asynchronous,
}

/// The published fate of a submitted transaction.
#[derive(PartialEq, Eq, Structural, Clone, Copy, Debug)]
pub enum TransactionStatus {
    Completed,
    Failed,
    NotExecuted,
}

/// The fatal startup errors: each one means the journal and the running
/// binary disagree, and continuing would break the durability contract.
#[derive(PartialEq, Eq, Structural, Clone, Copy, Debug)]
pub enum EngineError {
    /// A journal record names a command absent from the directory.
    UnknownCommand,
    /// A replayed command that once succeeded now reports an error.
    ReplayDivergence,
    /// The journal bytes do not parse as records.
    SerializationError,
}

/// What processing a queue of commands yields: the contents, the ids of the
/// failed transactions, and the processed-transaction counter.
pub struct ProcessOutcome<V, C> {
    pub contents: V,
    pub counters: C,
    pub failed: Seq<usize>,
    pub processed: usize,
}

/// Process the first `k` queued commands in order: each one advances the
/// processed counter, a success transforms the contents, a failure leaves
/// them unchanged and records the transaction id as failed.
pub open spec fn spec_process<D: Database, C: CommandBase<D>>(
    v: D::Contents,
    cn: D::Counters,
    failed: Seq<usize>,
    processed: usize,
    q: Seq<C>,
    k: nat,
) -> ProcessOutcome<D::Contents, D::Counters>
    decreases k,
{
    if k == 0 || q.len() == 0 {
        ProcessOutcome { contents: v, counters: cn, failed, processed }
    } else {
        let p2 = (processed + 1) as usize;
        let step = q[0].spec_run(v, cn);
        match step.0 {
            Ok(v2) => spec_process::<D, C>(v2, step.1, failed, p2, q.drop_first(), (k - 1) as nat),
            Err(m) => spec_process::<D, C>(
                v,
                step.1,
                failed.push(p2),
                p2,
                q.drop_first(),
                (k - 1) as nat,
            ),
        }
    }
}

/// Whether an id is among the failed transaction ids.
fn contains_id(ids: &Vec<usize>, id: usize) -> (r: bool)
    ensures
        r == ids@.contains(id),
{
    let mut i: usize = 0;
    while i < ids.len()
        invariant
            i <= ids@.len(),
            forall|k: int| 0 <= k < i ==> ids@[k] != id,
        decreases ids@.len() - i,
    {
        if ids[i] == id {
            return true;
        }
        i = i + 1;
    }
    false
}

/// Receives command submissions, journals them, and drives them through the
/// transaction envelope; publishes each transaction's status.
///
/// This is the sequential core of the engine: in synchronous mode a
/// submission executes before `push_command` returns; in asynchronous mode
/// it queues, and [`CommandEngine::process_next_command`] is the writer
/// step that a dedicated writer thread (outside this crate) drives.
pub struct CommandEngine<D: Database, CD: CommandDefinitions<D>, S: TransactionStorage> {
    db: D,
    command_definitions: CD,
    transaction_storage: S,
    transaction_manager: TransactionManager,
    last_pushed_transaction_id: usize,
    last_processed_transaction_id: usize,
    failed_transaction_ids: Vec<usize>,
    command_execution_type: CommandExecutionType,
    pending_commands: Vec<CD::Cmd>,
    base_contents: Ghost<D::Contents>,
    base_counters: Ghost<D::Counters>,
    executed_records: Ghost<Seq<JournalRecord>>,
}

impl<D: Database, CD: CommandDefinitions<D>, S: TransactionStorage> CommandEngine<D, CD, S> {
    /// The database as of the last committed transaction.
    pub closed spec fn db_spec(&self) -> D {
        self.db
    }

    /// The committed contents.
    pub open spec fn contents(&self) -> D::Contents {
        self.db_spec().contents()
    }

    /// The tables' id counters.
    pub open spec fn counters(&self) -> D::Counters {
        self.db_spec().counters()
    }

    pub closed spec fn defs(&self) -> CD {
        self.command_definitions
    }

    /// The id handed to the most recent submission.
    pub closed spec fn last_pushed(&self) -> usize {
        self.last_pushed_transaction_id
    }

    /// The id of the most recently executed transaction.
    pub closed spec fn last_processed(&self) -> usize {
        self.last_processed_transaction_id
    }

    /// The ids of the transactions that failed and were rolled back.
    pub closed spec fn failed(&self) -> Seq<usize> {
        self.failed_transaction_ids@
    }

    pub closed spec fn mode(&self) -> CommandExecutionType {
        self.command_execution_type
    }

    /// The submitted commands not yet executed, oldest first.
    pub closed spec fn pending(&self) -> Seq<CD::Cmd> {
        self.pending_commands@
    }

    /// The contents the engine started from, after seeding.
    pub closed spec fn base(&self) -> D::Contents {
        self.base_contents@
    }

    /// The id counters the engine started from.
    pub closed spec fn base_ids(&self) -> D::Counters {
        self.base_counters@
    }

    /// The journal records of every executed command, replayed ones
    /// included, in execution order.
    pub closed spec fn executed(&self) -> Seq<JournalRecord> {
        self.executed_records@
    }

    /// The engine between commands: no transaction runs, the undo log is
    /// empty, snapshot markers do not outrun the transaction id, counters
    /// agree, and — as long as no transaction has failed — replaying the
    /// executed records over the starting contents yields the committed
    /// contents.
    pub closed spec fn core_wf(&self) -> bool {
        &&& self.transaction_manager.inv()
        &&& !self.transaction_manager@.running
        &&& self.transaction_manager@.entries.len() == 0
        &&& self.db.inv()
        &&& self.db.snap_le(self.transaction_manager@.transaction_id)
        &&& self.transaction_manager@.transaction_id <= self.last_processed_transaction_id + 1
        &&& self.executed_records@.len() == self.last_processed_transaction_id
        &&& (forall|i: int|
            0 <= i < self.failed_transaction_ids@.len() ==> 1 <= (
            #[trigger] self.failed_transaction_ids@[i]) <= self.last_processed_transaction_id)
        &&& (self.failed_transaction_ids@.len() == 0 ==> spec_replay(
            self.command_definitions,
            self.base_contents@,
            self.base_counters@,
            self.executed_records@,
        ) == Some((self.db.contents(), self.db.counters())))
    }

    /// [`CommandEngine::core_wf`] plus the submission counters: the pending
    /// queue holds exactly the submitted-but-unexecuted commands, and in
    /// synchronous mode it is empty.
    pub closed spec fn wf(&self) -> bool {
        &&& self.core_wf()
        &&& self.last_processed_transaction_id <= self.last_pushed_transaction_id
        &&& self.pending_commands@.len() == self.last_pushed_transaction_id
            - self.last_processed_transaction_id
        &&& (self.command_execution_type == CommandExecutionType::Synchronous
            ==> self.pending_commands@.len() == 0)
        &&& (forall|k: int|
            0 <= k < self.pending_commands@.len() ==> (
            #[trigger] self.pending_commands@[k]).spec_fits())
    }

    /// The published status of a transaction id.
    pub open spec fn spec_status(&self, transaction_id: usize) -> TransactionStatus {
        if transaction_id > self.last_processed() {
            TransactionStatus::NotExecuted
        } else if self.failed().contains(transaction_id) {
            TransactionStatus::Failed
        } else {
            TransactionStatus::Completed
        }
    }

    /// Build the engine: read the journal, parse it, and replay every
    /// record in order against the seeded database, with no transaction
    /// envelope.  A record that does not resolve, does not parse, or whose
    /// command now reports an error is fatal.
    pub fn new(
        command_definitions: CD,
        mut transaction_storage: S,
        initial: D,
        command_execution_type: CommandExecutionType,
    ) -> (r: Result<Self, EngineError>)
        requires
            initial.inv(),
            initial.snap_le(1),
        ensures
            r matches Ok(engine) ==> {
                &&& engine.wf()
                &&& engine.mode() == command_execution_type
                &&& engine.defs() == command_definitions
                &&& engine.base() == initial.contents()
                &&& engine.failed() == Seq::<usize>::empty()
                &&& engine.pending() == Seq::<CD::Cmd>::empty()
                &&& engine.last_pushed() == engine.last_processed()
                &&& engine.last_processed() == engine.executed().len()
                &&& engine.base_ids() == initial.counters()
                &&& spec_replay(
                    command_definitions,
                    initial.contents(),
                    initial.counters(),
                    engine.executed(),
                ) == Some((engine.contents(), engine.counters()))
            },
    {
        let journal_bytes = transaction_storage.read_to_end();
        let records = match crate::transaction_storage::parse_journal(&journal_bytes) {
            Some(records) => records,
            None => {
                return Err(EngineError::SerializationError);
            },
        };
        let mut db = initial;
        let mut transaction_manager = TransactionManager::new();
        let ghost base = db.contents();
        let ghost base_ids = db.counters();
        let ghost record_views = records@.map_values(|st: SerializedTransaction| st@);
        let mut executed: Ghost<Seq<JournalRecord>> = Ghost(Seq::empty());
        let mut i: usize = 0;
        proof {
            assert(record_views.take(0) =~= Seq::<JournalRecord>::empty());
        }
        while i < records.len()
            invariant
                i <= records@.len(),
                record_views == records@.map_values(|st: SerializedTransaction| st@),
                executed@ == record_views.take(i as int),
                db.inv(),
                db.snap_le(1),
                transaction_manager.inv(),
                !transaction_manager@.running,
                transaction_manager@.entries.len() == 0,
                transaction_manager@.transaction_id == 1,
                spec_replay(command_definitions, base, base_ids, executed@) == Some(
                    (db.contents(), db.counters()),
                ),
            decreases records@.len() - i,
        {
            let record = &records[i];
            let command = match command_definitions.create_from_serialized(
                &record.name,
                &record.serialized_parameters,
            ) {
                Some(command) => command,
                None => {
                    return Err(EngineError::UnknownCommand);
                },
            };
            proof {
                db.lemma_coherent_fresh(transaction_manager@);
            }
            let ghost before = db.contents();
            let ghost before_ids = db.counters();
            let outcome = command.run(&mut db, &mut transaction_manager);
            proof {
                db.lemma_coherent_parts(transaction_manager@);
            }
            match outcome {
                Ok(_) => {},
                Err(_) => {
                    return Err(EngineError::ReplayDivergence);
                },
            }
            proof {
                lemma_replay_snoc(
                    command_definitions,
                    base,
                    base_ids,
                    executed@,
                    record@,
                    before,
                    before_ids,
                    db.contents(),
                    db.counters(),
                );
                assert(record_views.take(i + 1) =~= record_views.take(i as int).push(
                    record_views[i as int],
                ));
            }
            executed = Ghost(executed@.push(record@));
            i = i + 1;
        }
        proof {
            assert(record_views.take(records@.len() as int) =~= record_views);
        }
        let engine = CommandEngine {
            db,
            command_definitions,
            transaction_storage,
            transaction_manager,
            last_pushed_transaction_id: i,
            last_processed_transaction_id: i,
            failed_transaction_ids: Vec::new(),
            command_execution_type,
            pending_commands: Vec::new(),
            base_contents: Ghost(base),
            base_counters: Ghost(base_ids),
            executed_records: executed,
        };
        proof {
            assert(engine.pending() =~= Seq::<CD::Cmd>::empty());
            assert(engine.failed() =~= Seq::<usize>::empty());
        }
        Ok(engine)
    }

    /// Run one command under the transaction envelope: begin, run, then
    /// commit on success or roll back on error, recording the failed id.
    /// A failed command leaves the contents exactly as they were.
    fn execute_command(&mut self, cmd: &CD::Cmd)
        requires
            old(self).core_wf(),
            old(self).last_processed() + 1 < usize::MAX,
            cmd.spec_fits(),
        ensures
            final(self).core_wf(),
            final(self).last_processed() == old(self).last_processed() + 1,
            final(self).last_pushed() == old(self).last_pushed(),
            final(self).pending() == old(self).pending(),
            final(self).mode() == old(self).mode(),
            final(self).base() == old(self).base(),
            final(self).defs() == old(self).defs(),
            final(self).executed() == old(self).executed().push(record_of::<D, CD::Cmd>(*cmd)),
            final(self).counters() == cmd.spec_run(old(self).contents(), old(self).counters()).1,
            cmd.spec_run(old(self).contents(), old(self).counters()).0 matches Ok(v) ==> final(self).contents() == v && final(self).failed() == old(self).failed(),
            cmd.spec_run(old(self).contents(), old(self).counters()).0 matches Err(m) ==> final(self).contents() == old(self).contents() && final(self).failed() == old(self).failed().push((old(self).last_processed() + 1) as usize),
    {
        let ghost image0 = self.db.image();
        let ghost contents0 = self.db.contents();
        let ghost counters0 = self.db.counters();
        self.transaction_manager.begin_transaction();
        self.last_processed_transaction_id = self.last_processed_transaction_id + 1;
        proof {
            self.db.lemma_coherent_fresh(self.transaction_manager@);
        }
        let outcome = cmd.run(&mut self.db, &mut self.transaction_manager);
        proof {
            self.db.lemma_coherent_parts(self.transaction_manager@);
        }
        match outcome {
            Ok(_) => {
                self.transaction_manager.commit_transaction();
                proof {
                    if old(self).failed().len() == 0 {
                        self.command_definitions.lemma_create_round_trip(cmd);
                        lemma_replay_snoc(
                            self.command_definitions,
                            self.base_contents@,
                            self.base_counters@,
                            old(self).executed(),
                            record_of::<D, CD::Cmd>(*cmd),
                            contents0,
                            counters0,
                            self.db.contents(),
                            self.db.counters(),
                        );
                    }
                }
            },
            Err(_) => {
                self.transaction_manager.rollback_transaction(&mut self.db);
                self.failed_transaction_ids.push(self.last_processed_transaction_id);
                proof {
                    assert(apply_undo(image0, Seq::<UndoEntry>::empty()) == image0);
                    assert(self.db.image() == image0);
                    self.db.lemma_image_determines_contents(&old(self).db);
                }
            },
        }
        self.executed_records = Ghost(self.executed_records@.push(record_of::<D, CD::Cmd>(*cmd)));
    }

    /// Submit a command: journal it, then run it now (synchronous) or queue
    /// it for the writer (asynchronous).  The returned transaction id is
    /// one more than the previous submission's: the command's position in
    /// the serial order.
    pub fn push_command(&mut self, cmd: CD::Cmd) -> (transaction_id: usize)
        requires
            old(self).wf(),
            old(self).last_pushed() < usize::MAX,
            old(self).last_processed() + 1 < usize::MAX,
        ensures
            final(self).wf(),
            transaction_id == old(self).last_pushed() + 1,
            final(self).last_pushed() == transaction_id,
            final(self).mode() == old(self).mode(),
            final(self).base() == old(self).base(),
            final(self).defs() == old(self).defs(),
            old(self).mode() == CommandExecutionType::Synchronous ==> {
                &&& final(self).last_processed() == transaction_id
                &&& final(self).pending() == old(self).pending()
                &&& final(self).executed() == old(self).executed().push(
                    record_of::<D, CD::Cmd>(cmd),
                )
                &&& final(self).counters() == cmd.spec_run(
                    old(self).contents(),
                    old(self).counters(),
                ).1
                &&& (cmd.spec_run(old(self).contents(), old(self).counters()).0 matches Ok(v)
                    ==> final(self).contents() == v && final(self).failed() == old(self).failed()
                    && final(self).spec_status(transaction_id) == TransactionStatus::Completed)
                &&& (cmd.spec_run(old(self).contents(), old(self).counters()).0 matches Err(m)
                    ==> final(self).contents() == old(self).contents() && final(self).failed()
                    == old(self).failed().push(transaction_id) && final(self).spec_status(
                    transaction_id,
                ) == TransactionStatus::Failed)
            },
            old(self).mode() == CommandExecutionType::Asynchronous ==> {
                &&& final(self).last_processed() == old(self).last_processed()
                &&& final(self).pending() == old(self).pending().push(cmd)
                &&& final(self).executed() == old(self).executed()
                &&& final(self).contents() == old(self).contents()
                &&& final(self).counters() == old(self).counters()
                &&& final(self).failed() == old(self).failed()
            },
    {
        let name = cmd.get_name();
        let serialized_parameters = cmd.get_serialized_parameters();
        self.transaction_storage.add(&name, &serialized_parameters);
        self.last_pushed_transaction_id = self.last_pushed_transaction_id + 1;
        let sync = match self.command_execution_type {
            CommandExecutionType::Synchronous => true,
            CommandExecutionType::Asynchronous => false,
        };
        if sync {
            self.execute_command(&cmd);
            proof {
                let id = self.last_pushed_transaction_id;
                if cmd.spec_run(old(self).contents(), old(self).counters()).0 is Ok {
                    if self.failed().contains(id) {
                        let k = choose|k: int|
                            0 <= k < old(self).failed().len() && old(self).failed()[k] == id;
                        assert(old(self).failed()[k] <= old(self).last_processed());
                    }
                } else {
                    assert(self.failed()[self.failed().len() - 1] == id);
                    assert(self.failed().contains(id));
                }
            }
        } else {
            self.pending_commands.push(cmd);
        }
        self.last_pushed_transaction_id
    }

    /// One writer step: take the oldest queued command and run it under the
    /// transaction envelope.  Does nothing when the queue is empty.
    pub fn process_next_command(&mut self) -> (processed_one: bool)
        requires
            old(self).wf(),
            old(self).last_processed() + 1 < usize::MAX,
        ensures
            final(self).wf(),
            final(self).last_pushed() == old(self).last_pushed(),
            final(self).mode() == old(self).mode(),
            final(self).base() == old(self).base(),
            final(self).defs() == old(self).defs(),
            processed_one == (old(self).pending().len() > 0),
            !processed_one ==> *final(self) == *old(self),
            processed_one ==> {
                &&& final(self).last_processed() == old(self).last_processed() + 1
                &&& final(self).pending() == old(self).pending().drop_first()
                &&& final(self).executed() == old(self).executed().push(
                    record_of::<D, CD::Cmd>(old(self).pending()[0]),
                )
                &&& final(self).counters() == old(self).pending()[0].spec_run(
                    old(self).contents(),
                    old(self).counters(),
                ).1
                &&& (old(self).pending()[0].spec_run(old(self).contents(), old(self).counters()).0
                    matches Ok(v) ==> final(self).contents() == v && final(self).failed() == old(self).failed())
                &&& (old(self).pending()[0].spec_run(old(self).contents(), old(self).counters()).0
                    matches Err(m) ==> final(self).contents() == old(self).contents() && final(self).failed() == old(self).failed().push((old(self).last_processed() + 1) as usize))
            },
    {
        if self.pending_commands.len() == 0 {
            proof {
                assert(old(self).pending().len() == 0);
            }
            return false;
        }
        let cmd = self.pending_commands.remove(0);
        proof {
            assert(self.pending_commands@ =~= old(self).pending().drop_first());
        }
        self.execute_command(&cmd);
        true
    }

    /// Block until the transaction with the given id has been processed: in
    /// this sequential core, drive the writer step until the processed
    /// counter reaches the id.
    pub fn wait_for_transaction(&mut self, transaction_id: usize)
        requires
            old(self).wf(),
            transaction_id <= old(self).last_pushed(),
            old(self).last_pushed() + 1 < usize::MAX,
        ensures
            final(self).wf(),
            final(self).last_pushed() == old(self).last_pushed(),
            final(self).mode() == old(self).mode(),
            final(self).base() == old(self).base(),
            final(self).defs() == old(self).defs(),
            final(self).last_processed() == if transaction_id > old(self).last_processed() {
                transaction_id
            } else {
                old(self).last_processed()
            },
            ({
                let steps = (final(self).last_processed() - old(self).last_processed()) as nat;
                let outcome = spec_process::<D, CD::Cmd>(
                    old(self).contents(),
                    old(self).counters(),
                    old(self).failed(),
                    old(self).last_processed(),
                    old(self).pending(),
                    steps,
                );
                &&& final(self).contents() == outcome.contents
                &&& final(self).counters() == outcome.counters
                &&& final(self).failed() == outcome.failed
                &&& final(self).pending() == old(self).pending().skip(steps as int)
            }),
    {
        let ghost steps_total: nat = if transaction_id > old(self).last_processed() {
            (transaction_id - old(self).last_processed()) as nat
        } else {
            0
        };
        proof {
            assert(old(self).pending().skip(0) =~= old(self).pending());
        }
        while self.last_processed_transaction_id < transaction_id
            invariant
                self.wf(),
                transaction_id <= self.last_pushed(),
                self.last_pushed() == old(self).last_pushed(),
                self.last_pushed() + 1 < usize::MAX,
                self.mode() == old(self).mode(),
                self.base() == old(self).base(),
                self.defs() == old(self).defs(),
                self.last_processed() >= old(self).last_processed(),
                old(self).pending().len() == old(self).last_pushed() - old(self).last_processed(),
                transaction_id > old(self).last_processed() ==> self.last_processed()
                    <= transaction_id,
                transaction_id <= old(self).last_processed() ==> self.last_processed() == old(self).last_processed(),
                self.pending() == old(self).pending().skip(
                    self.last_processed() - old(self).last_processed(),
                ),
                spec_process::<D, CD::Cmd>(
                    old(self).contents(),
                    old(self).counters(),
                    old(self).failed(),
                    old(self).last_processed(),
                    old(self).pending(),
                    steps_total,
                ) == spec_process::<D, CD::Cmd>(
                    self.contents(),
                    self.counters(),
                    self.failed(),
                    self.last_processed(),
                    self.pending(),
                    (steps_total - (self.last_processed() - old(self).last_processed())) as nat,
                ),
                steps_total == if transaction_id > old(self).last_processed() {
                    (transaction_id - old(self).last_processed()) as nat
                } else {
                    0nat
                },
            decreases transaction_id - self.last_processed_transaction_id,
        {
            let ghost pending_before = self.pending();
            let ghost done_before = (self.last_processed() - old(self).last_processed()) as int;
            proof {
                assert(self.pending().len() > 0);
                assert(done_before < old(self).pending().len());
            }
            self.process_next_command();
            proof {
                assert(old(self).pending().skip(done_before).drop_first()
                    =~= old(self).pending().skip(done_before + 1));
            }
        }
        proof {
            let done = (self.last_processed() - old(self).last_processed()) as nat;
            assert(done == steps_total);
        }
    }

    /// The published status of a transaction: not yet executed, failed and
    /// rolled back, or completed.
    pub fn get_transaction_status(&self, transaction_id: usize) -> (r: TransactionStatus)
        ensures
            r == self.spec_status(transaction_id),
    {
        if transaction_id > self.last_processed_transaction_id {
            TransactionStatus::NotExecuted
        } else if contains_id(&self.failed_transaction_ids, transaction_id) {
            TransactionStatus::Failed
        } else {
            TransactionStatus::Completed
        }
    }

    /// The id handed to the most recent submission: what the next
    /// submission's transaction id will follow.
    pub fn get_last_pushed_transaction_id(&self) -> (r: usize)
        ensures
            r == self.last_pushed(),
    {
        self.last_pushed_transaction_id
    }

    /// The id of the most recently executed transaction.
    pub fn get_last_processed_transaction_id(&self) -> (r: usize)
        ensures
            r == self.last_processed(),
    {
        self.last_processed_transaction_id
    }

    /// The command directory.
    pub fn get_command_definitions(&self) -> (r: &CD)
        ensures
            *r == self.defs(),
    {
        &self.command_definitions
    }

    /// A read-only handle to the committed database.
    pub fn query_engine(&self) -> (r: QueryEngine<'_, D>)
        ensures
            r@ == self.db_spec(),
    {
        QueryEngine::new(&self.db)
    }
}

/// The engine's entry point: seed a fresh database, then build the command
/// engine, which replays the journal over it.
pub struct Engine {}

impl Engine {
    /// Start the engine over seeded contents.  `initial` is the embedder's
    /// seeded database (built through [`DatabaseFactory::create_database`]
    /// and the table operations); the journal then replays on top of it,
    /// exactly as the original run unfolded on top of the same seed.
    ///
    /// Seeding deliberately precedes replay on every start: the journal
    /// holds only submitted commands, never the seed, and those commands
    /// ran over the seeded database, so replaying them over anything else
    /// would diverge.  Seeding must therefore be deterministic.
    pub fn new<D: Database, CD: CommandDefinitions<D>, S: TransactionStorage>(
        command_definitions: CD,
        transaction_storage: S,
        command_execution_type: CommandExecutionType,
        initial: D,
    ) -> (r: Result<CommandEngine<D, CD, S>, EngineError>)
        requires
            initial.inv(),
            initial.snap_le(1),
        ensures
            r matches Ok(engine) ==> {
                &&& engine.wf()
                &&& engine.mode() == command_execution_type
                &&& engine.defs() == command_definitions
                &&& engine.base() == initial.contents()
                &&& engine.failed() == Seq::<usize>::empty()
                &&& engine.pending() == Seq::<CD::Cmd>::empty()
                &&& engine.last_pushed() == engine.last_processed()
                &&& spec_replay(
                    command_definitions,
                    initial.contents(),
                    initial.counters(),
                    engine.executed(),
                ) == Some((engine.contents(), engine.counters()))
            },
    {
        CommandEngine::new(command_definitions, transaction_storage, initial, command_execution_type)
    }
}

/// Monotonic transaction ids: of two successful submissions, the later one
/// returns the strictly greater id.  `push_command` returns one more than
/// the submission counter and leaves the counter at the returned id, and
/// every other engine operation leaves the counter unchanged, so the
/// counter between the two calls is at least the first id.
pub proof fn lemma_push_ids_monotonic(id1: usize, mid: usize, id2: usize)
    requires
        id1 <= mid,
        id2 == mid + 1,
    ensures
        id2 > id1,
{
}

/// Replay equivalence: starting over from the same seeded contents and
/// counters, the journal bytes written for a run of successful commands
/// parse back to the run's records, and replaying them rebuilds exactly the
/// run's contents and counters.  The engine keeps `spec_replay` of its
/// executed records equal to its contents as long as no transaction failed,
/// and writes each record with the verified encoder, which is what this law
/// composes.
pub proof fn lemma_restart_replay<D: Database, CD: CommandDefinitions<D>>(
    cd: CD,
    v0: D::Contents,
    c0: D::Counters,
    records: Seq<JournalRecord>,
    v: D::Contents,
    c: D::Counters,
)
    requires
        spec_replay(cd, v0, c0, records) == Some((v, c)),
        forall|k: int|
            0 <= k < records.len() ==> crate::transaction_storage::record_fits(
                #[trigger] records[k],
            ),
    ensures
        crate::transaction_storage::spec_parse_journal(
            crate::transaction_storage::spec_encode_journal(records),
        ) == Some(records),
        spec_replay(
            cd,
            v0,
            c0,
            crate::transaction_storage::spec_parse_journal(
                crate::transaction_storage::spec_encode_journal(records),
            ).unwrap(),
        ) == Some((v, c)),
{
    crate::transaction_storage::lemma_parse_encode_journal(records);
}

} // verus!

