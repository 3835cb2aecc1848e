//! The transaction manager: the monotone transaction id, the in-memory undo
//! log of the running transaction, and rollback.
//!
//! Rollback is specified against the *image* of a database: the map from
//! table id to the serialized bytes of each live entity.  [`apply_undo`]
//! replays an undo log against an image, walking the log in reverse, so the
//! entry written earliest wins; the lemmas here are what table mutations and
//! rollback rely on to show that a rolled-back transaction leaves the image
//! exactly as it was when the transaction began.

use vstd::prelude::*;
use crate::Database;

verus! {

/// The serialized contents of one table: entity id to byte image.
pub type TableImage = Map<usize, Seq<u8>>;

/// The serialized contents of a whole database: table id to table image.
pub type DbImage = Map<u64, TableImage>;

/// One record of the undo log.
///
/// `Existing(table_id, entity_id, bytes)`: the entity existed when the
/// running transaction first mutated it, and `bytes` is its serialized value
/// from just before that mutation.  `NotExisting(table_id, entity_id)`: the
/// entity was created by the running transaction.
pub enum TransactionEntry {
    Existing(u64, usize, Vec<u8>),
    NotExisting(u64, usize),
}

/// The mathematical form of a [`TransactionEntry`].
pub enum UndoEntry {
    Existing { table_id: u64, entity_id: usize, state: Seq<u8> },
    NotExisting { table_id: u64, entity_id: usize },
}

impl View for TransactionEntry {
    type V = UndoEntry;

    open spec fn view(&self) -> UndoEntry {
        match *self {
            TransactionEntry::Existing(table_id, entity_id, ref state) => UndoEntry::Existing {
                table_id,
                entity_id,
                state: state@,
            },
            TransactionEntry::NotExisting(table_id, entity_id) => UndoEntry::NotExisting {
                table_id,
                entity_id,
            },
        }
    }
}

impl UndoEntry {
    pub open spec fn table_id(self) -> u64 {
        match self {
            UndoEntry::Existing { table_id, .. } => table_id,
            UndoEntry::NotExisting { table_id, .. } => table_id,
        }
    }

    pub open spec fn entity_id(self) -> usize {
        match self {
            UndoEntry::Existing { entity_id, .. } => entity_id,
            UndoEntry::NotExisting { entity_id, .. } => entity_id,
        }
    }

    /// Whether this entry restores the entity `(t, id)`.
    pub open spec fn targets(self, t: u64, id: usize) -> bool {
        self.table_id() == t && self.entity_id() == id
    }
}

/// Undo one entry against an image: an `Existing` entry restores the saved
/// bytes, a `NotExisting` entry erases the entity.  An entry whose table is
/// not part of the image changes nothing; the engine's invariants keep that
/// case from arising.
pub open spec fn apply_entry(image: DbImage, e: UndoEntry) -> DbImage {
    if image.dom().contains(e.table_id()) {
        match e {
            UndoEntry::Existing { table_id, entity_id, state } => image.insert(
                table_id,
                image[table_id].insert(entity_id, state),
            ),
            UndoEntry::NotExisting { table_id, entity_id } => image.insert(
                table_id,
                image[table_id].remove(entity_id),
            ),
        }
    } else {
        image
    }
}

/// Replay a whole undo log against an image, last entry first, so that the
/// earliest entry for an entity decides its final state.
pub open spec fn apply_undo(image: DbImage, entries: Seq<UndoEntry>) -> DbImage
    decreases entries.len(),
{
    if entries.len() == 0 {
        image
    } else {
        apply_undo(apply_entry(image, entries.last()), entries.drop_last())
    }
}

/// Whether some entry of the log restores the entity `(t, id)`.
pub open spec fn log_covers(entries: Seq<UndoEntry>, t: u64, id: usize) -> bool {
    exists|k: int| 0 <= k < entries.len() && (#[trigger] entries[k]).targets(t, id)
}

/// How many entries of the log restore the entity `(t, id)`.
pub open spec fn log_count(entries: Seq<UndoEntry>, t: u64, id: usize) -> nat
    decreases entries.len(),
{
    if entries.len() == 0 {
        0
    } else {
        log_count(entries.drop_last(), t, id) + if entries.last().targets(t, id) {
            1nat
        } else {
            0nat
        }
    }
}

/// A log extended by one entry covers what the log covered and what the new
/// entry targets, and nothing else.
pub proof fn lemma_covers_push(es: Seq<UndoEntry>, e: UndoEntry, t: u64, id: usize)
    ensures
        log_covers(es.push(e), t, id) <==> (log_covers(es, t, id) || e.targets(t, id)),
{
    let es2 = es.push(e);
    if log_covers(es, t, id) {
        let k = choose|k: int| 0 <= k < es.len() && (#[trigger] es[k]).targets(t, id);
        assert(es2[k].targets(t, id));
    }
    if e.targets(t, id) {
        assert(es2[es.len() as int].targets(t, id));
    }
    if log_covers(es2, t, id) && !e.targets(t, id) {
        let k = choose|k: int| 0 <= k < es2.len() && (#[trigger] es2[k]).targets(t, id);
        assert(k < es.len());
        assert(es[k].targets(t, id));
    }
}

/// Appending an `Existing` entry that saves the bytes an entity holds right
/// before it is overwritten keeps the undo result unchanged.
pub proof fn lemma_undo_overwrite(
    image: DbImage,
    entries: Seq<UndoEntry>,
    t: u64,
    id: usize,
    new_bytes: Seq<u8>,
)
    requires
        image.dom().contains(t),
        image[t].dom().contains(id),
    ensures
        apply_undo(
            image.insert(t, image[t].insert(id, new_bytes)),
            entries.push(
                UndoEntry::Existing { table_id: t, entity_id: id, state: image[t][id] },
            ),
        ) == apply_undo(image, entries),
{
    let e = UndoEntry::Existing { table_id: t, entity_id: id, state: image[t][id] };
    let image2 = image.insert(t, image[t].insert(id, new_bytes));
    assert(entries.push(e).drop_last() =~= entries);
    assert(image2[t].insert(id, image[t][id]) =~= image[t]);
    assert(apply_entry(image2, e) =~~= image);
}

/// Appending a `NotExisting` entry as an entity that did not exist is
/// inserted keeps the undo result unchanged.
pub proof fn lemma_undo_insert_fresh(
    image: DbImage,
    entries: Seq<UndoEntry>,
    t: u64,
    id: usize,
    new_bytes: Seq<u8>,
)
    requires
        image.dom().contains(t),
        !image[t].dom().contains(id),
    ensures
        apply_undo(
            image.insert(t, image[t].insert(id, new_bytes)),
            entries.push(UndoEntry::NotExisting { table_id: t, entity_id: id }),
        ) == apply_undo(image, entries),
{
    let e = UndoEntry::NotExisting { table_id: t, entity_id: id };
    let image2 = image.insert(t, image[t].insert(id, new_bytes));
    assert(entries.push(e).drop_last() =~= entries);
    assert(image2[t].remove(id) =~= image[t]);
    assert(apply_entry(image2, e) =~~= image);
}

/// Overwriting an entity that the log already covers keeps the undo result
/// unchanged: the covering entry decides the entity's restored state.
pub proof fn lemma_undo_covered_update(
    image: DbImage,
    entries: Seq<UndoEntry>,
    t: u64,
    id: usize,
    new_bytes: Seq<u8>,
)
    requires
        image.dom().contains(t),
        log_covers(entries, t, id),
    ensures
        apply_undo(image.insert(t, image[t].insert(id, new_bytes)), entries) == apply_undo(
            image,
            entries,
        ),
    decreases entries.len(),
{
    let image2 = image.insert(t, image[t].insert(id, new_bytes));
    let e = entries.last();
    let front = entries.drop_last();
    if e.targets(t, id) {
        assert(apply_entry(image2, e) =~~= apply_entry(image, e)) by {
            match e {
                UndoEntry::Existing { table_id, entity_id, state } => {
                    assert(image2[t].insert(id, state) =~= image[t].insert(id, state));
                },
                UndoEntry::NotExisting { table_id, entity_id } => {
                    assert(image2[t].remove(id) =~= image[t].remove(id));
                },
            }
        }
    } else {
        // The last entry touches another entity; it commutes with the
        // overwrite, and some earlier entry covers (t, id).
        let k = choose|k: int| 0 <= k < entries.len() && (#[trigger] entries[k]).targets(t, id);
        assert(front[k] == entries[k]);
        assert(log_covers(front, t, id));
        let mid = apply_entry(image, e);
        assert(mid.dom().contains(t));
        assert(apply_entry(image2, e) =~~= mid.insert(t, mid[t].insert(id, new_bytes))) by {
            let t2 = e.table_id();
            if image.dom().contains(t2) {
                if t2 == t {
                    match e {
                        UndoEntry::Existing { table_id, entity_id, state } => {
                            assert(image2[t].insert(entity_id, state) =~= image[t].insert(
                                entity_id,
                                state,
                            ).insert(id, new_bytes));
                        },
                        UndoEntry::NotExisting { table_id, entity_id } => {
                            assert(image2[t].remove(entity_id) =~= image[t].remove(
                                entity_id,
                            ).insert(id, new_bytes));
                        },
                    }
                }
            }
        }
        lemma_undo_covered_update(mid, front, t, id, new_bytes);
    }
}

/// A log that covers an entity exactly once: what the undo-capture rule
/// guarantees for every entity mutated during a transaction.
pub proof fn lemma_log_count_one(entries: Seq<UndoEntry>, t: u64, id: usize, k1: int)
    requires
        0 <= k1 < entries.len(),
        entries[k1].targets(t, id),
        forall|i: int, j: int|
            0 <= i < j < entries.len() ==> !((#[trigger] entries[i]).targets(t, id) && (
            #[trigger] entries[j]).targets(t, id)),
    ensures
        log_count(entries, t, id) == 1,
    decreases entries.len(),
{
    let front = entries.drop_last();
    if k1 == entries.len() - 1 {
        lemma_log_count_zero(front, t, id);
    } else {
        assert(front[k1] == entries[k1]);
        lemma_log_count_one(front, t, id, k1);
    }
}

/// A log with no entry for an entity counts zero entries for it.
pub proof fn lemma_log_count_zero(entries: Seq<UndoEntry>, t: u64, id: usize)
    requires
        forall|i: int| 0 <= i < entries.len() ==> !(#[trigger] entries[i]).targets(t, id),
    ensures
        log_count(entries, t, id) == 0,
    decreases entries.len(),
{
    if entries.len() > 0 {
        let front = entries.drop_last();
        assert(forall|i: int| 0 <= i < front.len() ==> front[i] == entries[i]);
        lemma_log_count_zero(front, t, id);
    }
}

/// The state of the transaction manager as contracts speak of it.
#[verifier::ext_equal]
pub struct TransactionLog {
    /// The id of the running transaction, or of the last one if none runs.
    pub transaction_id: usize,
    /// The undo log of the running transaction, in mutation order.
    pub entries: Seq<UndoEntry>,
    /// Whether a transaction is running.
    pub running: bool,
}

/// Tracks the running transaction and its undo log, and performs rollback.
///
/// The transaction id starts at 1 and strictly increases over the life of
/// the process; the undo log is empty between transactions.
pub struct TransactionManager {
    transaction_id: usize,
    entries: Vec<TransactionEntry>,
    transaction_running: bool,
}

impl View for TransactionManager {
    type V = TransactionLog;

    closed spec fn view(&self) -> TransactionLog {
        TransactionLog {
            transaction_id: self.transaction_id,
            entries: self.entries@.map_values(|e: TransactionEntry| e@),
            running: self.transaction_running,
        }
    }
}

impl TransactionManager {
    /// No transaction is running and the undo log is empty when none runs.
    pub open spec fn inv(&self) -> bool {
        &&& self@.transaction_id >= 1
        &&& !self@.running ==> self@.entries.len() == 0
    }

    pub fn new() -> (r: Self)
        ensures
            r.inv(),
            r@.transaction_id == 1,
            !r@.running,
            r@.entries == Seq::<UndoEntry>::empty(),
    {
        let r = Self { transaction_id: 1, entries: Vec::new(), transaction_running: false };
        proof {
            assert(r@.entries =~= Seq::<UndoEntry>::empty());
        }
        r
    }

    pub fn is_transaction_running(&self) -> (r: bool)
        ensures
            r == self@.running,
    {
        self.transaction_running
    }

    /// Start the next transaction: the id advances and the undo log is
    /// empty.
    pub fn begin_transaction(&mut self)
        requires
            old(self).inv(),
            !old(self)@.running,
            old(self)@.transaction_id < usize::MAX,
        ensures
            final(self).inv(),
            final(self)@.running,
            final(self)@.transaction_id == old(self)@.transaction_id + 1,
            final(self)@.entries == Seq::<UndoEntry>::empty(),
    {
        self.transaction_running = true;
        self.transaction_id = self.transaction_id + 1;
        proof {
            assert(self@.entries =~= Seq::<UndoEntry>::empty());
        }
    }

    /// Commit the running transaction: the undo log is dropped.
    pub fn commit_transaction(&mut self)
        requires
            old(self).inv(),
            old(self)@.running,
        ensures
            final(self).inv(),
            !final(self)@.running,
            final(self)@.transaction_id == old(self)@.transaction_id,
            final(self)@.entries == Seq::<UndoEntry>::empty(),
    {
        self.transaction_running = false;
        self.entries.clear();
        proof {
            assert(self@.entries =~= Seq::<UndoEntry>::empty());
        }
    }

    /// Undo the running transaction: walk the undo log in reverse and
    /// restore every touched entity through the database's rollback
    /// capability, then drop the log.  The database image afterwards is the
    /// undo log replayed against the image from before the call.
    pub fn rollback_transaction<D: Database>(&mut self, db: &mut D)
        requires
            old(self).inv(),
            old(self)@.running,
            old(db).inv(),
            forall|k: int|
                0 <= k < old(self)@.entries.len() ==> old(db).entry_ok(
                    #[trigger] old(self)@.entries[k],
                ),
        ensures
            final(self).inv(),
            !final(self)@.running,
            final(self)@.transaction_id == old(self)@.transaction_id,
            final(self)@.entries == Seq::<UndoEntry>::empty(),
            final(db).inv(),
            final(db).image() == apply_undo(old(db).image(), old(self)@.entries),
            final(db).counters() == old(db).counters(),
            forall|e: UndoEntry| old(db).entry_ok(e) ==> final(db).entry_ok(e),
            forall|n: usize| old(db).snap_le(n) ==> final(db).snap_le(n),
    {
        let ghost all = old(self)@.entries;
        let mut i: usize = self.entries.len();
        proof {
            assert(all.take(i as int) =~= all);
        }
        while i > 0
            invariant
                i <= all.len(),
                self@.entries == all,
                self@ == old(self)@,
                self.inv(),
                db.inv(),
                db.counters() == old(db).counters(),
                apply_undo(db.image(), all.take(i as int)) == apply_undo(old(db).image(), all),
                forall|k: int| 0 <= k < all.len() ==> old(db).entry_ok(#[trigger] all[k]),
                forall|e: UndoEntry| old(db).entry_ok(e) ==> db.entry_ok(e),
                forall|n: usize| old(db).snap_le(n) ==> db.snap_le(n),
            decreases i,
        {
            i = i - 1;
            proof {
                assert(all.take(i + 1).last() == all[i as int]);
                assert(all.take(i + 1).drop_last() =~= all.take(i as int));
                assert(self@.entries[i as int] == all[i as int]);
                assert(self.entries@[i as int]@ == self@.entries[i as int]);
                assert(old(db).entry_ok(old(self)@.entries[i as int]));
            }
            db.rollback_entry(&self.entries[i]);
        }
        self.entries.clear();
        self.transaction_running = false;
        proof {
            assert(self@.entries =~= Seq::<UndoEntry>::empty());
            assert(all.take(0) =~= Seq::<UndoEntry>::empty());
        }
    }

    /// Record one undo entry for the running transaction.
    pub fn add_entry(&mut self, entry: TransactionEntry)
        requires
            old(self).inv(),
            old(self)@.running,
        ensures
            final(self).inv(),
            final(self)@.running,
            final(self)@.transaction_id == old(self)@.transaction_id,
            final(self)@.entries == old(self)@.entries.push(entry@),
    {
        let ghost e = entry@;
        self.entries.push(entry);
        proof {
            assert(self@.entries =~= old(self)@.entries.push(e));
        }
    }

    pub fn get_transaction_id(&self) -> (r: usize)
        ensures
            r == self@.transaction_id,
    {
        self.transaction_id
    }
}

} // verus!
