//! A typed table: entities keyed by a monotonically assigned id, with
//! copy-on-first-write undo capture.
//!
//! `add` and `set` are the only mutation paths a command handler has, and
//! both record into the transaction manager's undo log whatever rollback
//! needs to restore the table: `add` records that the entity did not exist,
//! the first `set` of an entity in a transaction records its prior bytes.
//! The contracts state, next to the change of the table itself, that the
//! undo result [`apply_undo`] over the database image is kept unchanged —
//! the invariant from which rollback correctness follows.

use vstd::prelude::*;
use vstd::pervasive::VecAdditionalExecFns;
use vstd::utf8::encode_utf8;
use crate::entity::Entity;
use crate::serialize::{spec_deserialize, Serializable};
use crate::transaction::{
    lemma_covers_push, log_covers, TableImage, TransactionEntry, TransactionLog,
    TransactionManager, UndoEntry,
};

verus! {

// ------------------------------------------------------------------
// Table ids
// ------------------------------------------------------------------

/// One round of the name hash: multiply by 31 and absorb a byte, modulo
/// two to the sixty-fourth.
pub open spec fn name_hash_step(h: u64, b: u8) -> u64 {
    vstd::wrapping::u64_specs::wrapping_add(
        vstd::wrapping::u64_specs::wrapping_mul(h, 31),
        b as u64,
    )
}

/// A fixed 64-bit polynomial hash of a byte string.  Its value depends on
/// the bytes alone — never on a process, platform or library seed — so
/// table ids recorded in a journal stay valid over restarts.
pub open spec fn name_hash_64(bytes: Seq<u8>) -> u64
    decreases bytes.len(),
{
    if bytes.len() == 0 {
        0xcbf29ce484222325u64
    } else {
        name_hash_step(name_hash_64(bytes.drop_last()), bytes.last())
    }
}

/// A table's id: the hash of the UTF-8 encoding of its name.
pub open spec fn table_id_hash(name: Seq<char>) -> u64 {
    name_hash_64(encode_utf8(name))
}

/// Compute [`table_id_hash`] of a table name.
pub fn table_id_from_name(name: &str) -> (r: u64)
    ensures
        r == table_id_hash(name@),
{
    let bytes = name.as_bytes();
    let mut h: u64 = 0xcbf29ce484222325;
    let mut i: usize = 0;
    while i < bytes.len()
        invariant
            i <= bytes@.len(),
            bytes@ == encode_utf8(name@),
            h == name_hash_64(bytes@.take(i as int)),
        decreases bytes@.len() - i,
    {
        let b = *vstd::slice::slice_index_get(bytes, i);
        h = h.wrapping_mul(31).wrapping_add(b as u64);
        proof {
            assert(bytes@.take(i + 1).drop_last() =~= bytes@.take(i as int));
            assert(bytes@.take(i + 1).last() == bytes@[i as int]);
        }
        i = i + 1;
    }
    proof {
        assert(bytes@.take(bytes@.len() as int) =~= bytes@);
    }
    h
}

// ------------------------------------------------------------------
// The map a row sequence denotes
// ------------------------------------------------------------------

/// No two rows share an id.
pub open spec fn rows_unique<T>(s: Seq<Entity<T>>) -> bool {
    forall|i: int, j: int| 0 <= i < j < s.len() ==> s[i].id != s[j].id
}

/// The map from entity id to row that a row sequence denotes.
pub open spec fn rows_to_map<T>(s: Seq<Entity<T>>) -> Map<usize, Entity<T>>
    decreases s.len(),
{
    if s.len() == 0 {
        Map::empty()
    } else {
        rows_to_map(s.drop_last()).insert(s.last().id, s.last())
    }
}

/// Every row is in the map under its id.
pub proof fn lemma_rows_map_index<T>(s: Seq<Entity<T>>, k: int)
    requires
        rows_unique(s),
        0 <= k < s.len(),
    ensures
        rows_to_map(s).contains_key(s[k].id),
        rows_to_map(s)[s[k].id] == s[k],
    decreases s.len(),
{
    if k < s.len() - 1 {
        lemma_rows_map_index(s.drop_last(), k);
        assert(s.drop_last()[k] == s[k]);
    }
}

/// Every id in the map belongs to some row.
pub proof fn lemma_rows_map_dom<T>(s: Seq<Entity<T>>, id: usize)
    requires
        rows_to_map(s).contains_key(id),
    ensures
        exists|k: int| 0 <= k < s.len() && (#[trigger] s[k]).id == id,
    decreases s.len(),
{
    if s.len() > 0 {
        if s.last().id == id {
            assert(s[s.len() - 1].id == id);
        } else {
            lemma_rows_map_dom(s.drop_last(), id);
            let k = choose|k: int| 0 <= k < s.drop_last().len() && (#[trigger] s.drop_last()[k]).id
                == id;
            assert(s[k].id == id);
        }
    }
}

/// An id no row carries is not in the map.
pub proof fn lemma_rows_map_absent<T>(s: Seq<Entity<T>>, id: usize)
    requires
        forall|k: int| 0 <= k < s.len() ==> (#[trigger] s[k]).id != id,
    ensures
        !rows_to_map(s).contains_key(id),
{
    if rows_to_map(s).contains_key(id) {
        lemma_rows_map_dom(s, id);
    }
}

/// Appending a row inserts it into the map.
pub proof fn lemma_rows_map_push<T>(s: Seq<Entity<T>>, e: Entity<T>)
    ensures
        rows_to_map(s.push(e)) == rows_to_map(s).insert(e.id, e),
{
    assert(s.push(e).drop_last() =~= s);
}

/// Replacing a row in place updates the map at its id.
pub proof fn lemma_rows_map_update<T>(s: Seq<Entity<T>>, k: int, e: Entity<T>)
    requires
        rows_unique(s),
        0 <= k < s.len(),
        e.id == s[k].id,
    ensures
        rows_to_map(s.update(k, e)) == rows_to_map(s).insert(e.id, e),
        rows_unique(s.update(k, e)),
    decreases s.len(),
{
    let s2 = s.update(k, e);
    if k == s.len() - 1 {
        assert(s2.drop_last() =~= s.drop_last());
        assert(s2.last() == e);
        assert(rows_to_map(s.drop_last()).insert(s.last().id, s.last()).insert(e.id, e)
            =~= rows_to_map(s.drop_last()).insert(e.id, e));
    } else {
        assert(s2.drop_last() =~= s.drop_last().update(k, e));
        assert(s2.last() == s.last());
        lemma_rows_map_update(s.drop_last(), k, e);
        assert(s.last().id != e.id);
        assert(rows_to_map(s.drop_last()).insert(e.id, e).insert(s.last().id, s.last())
            =~= rows_to_map(s.drop_last()).insert(s.last().id, s.last()).insert(e.id, e));
    }
}

/// Removing a row removes its id from the map.
pub proof fn lemma_rows_map_remove<T>(s: Seq<Entity<T>>, k: int)
    requires
        rows_unique(s),
        0 <= k < s.len(),
    ensures
        rows_to_map(s.remove(k)) == rows_to_map(s).remove(s[k].id),
        rows_unique(s.remove(k)),
    decreases s.len(),
{
    let s2 = s.remove(k);
    if k == s.len() - 1 {
        assert(s2 =~= s.drop_last());
        lemma_rows_map_absent(s.drop_last(), s[k].id);
        assert(rows_to_map(s.drop_last()).insert(s.last().id, s.last()).remove(s[k].id)
            =~= rows_to_map(s.drop_last()));
    } else {
        assert(s2.drop_last() =~= s.drop_last().remove(k));
        assert(s2.last() == s.last());
        lemma_rows_map_remove(s.drop_last(), k);
        assert(s.drop_last()[k] == s[k]);
        assert(s.last().id != s[k].id);
        assert(rows_to_map(s.drop_last()).remove(s[k].id).insert(s.last().id, s.last())
            =~= rows_to_map(s.drop_last()).insert(s.last().id, s.last()).remove(s[k].id));
    }
}

// ------------------------------------------------------------------
// The table
// ------------------------------------------------------------------

/// A typed container of entities keyed by a monotonically assigned id.
/// Ids start at 1 and are never reused within the life of the process, not
/// even across rollbacks.
pub struct Table<T: Serializable> {
    /// The stable id of the table: [`table_id_hash`] of its name.
    pub id: u64,
    /// The live rows, with pairwise distinct ids below `first_free_id`.
    pub rows: Vec<Entity<T>>,
    /// The next id `add` will assign; 1 on a fresh table, never decreased.
    pub first_free_id: usize,
}

impl<T: Serializable> Table<T> {
    /// The stable table id.
    pub open spec fn spec_id(&self) -> u64 {
        self.id
    }

    /// The rows as a map from entity id to row.
    pub open spec fn rows_map(&self) -> Map<usize, Entity<T>> {
        rows_to_map(self.rows@)
    }

    /// The stored values by entity id, as views: what queries observe.
    pub open spec fn content_map(&self) -> Map<usize, T::V> {
        self.rows_map().map_values(|e: Entity<T>| e.val@)
    }

    /// The serialized values by entity id: the table's part of the database
    /// image that rollback restores.
    pub open spec fn image_map(&self) -> TableImage {
        self.rows_map().map_values(|e: Entity<T>| T::spec_serialize(e.val@))
    }

    /// Every live id is positive and below the id counter, rows carry this
    /// table's id, and no id occurs twice.
    pub open spec fn inv(&self) -> bool {
        &&& self.first_free_id >= 1
        &&& rows_unique(self.rows@)
        &&& forall|k: int| 0 <= k < self.rows@.len() ==> T::spec_fits((#[trigger] self.rows@[k]).val@)
        &&& forall|k: int|
            0 <= k < self.rows@.len() ==> 1 <= (#[trigger] self.rows@[k]).id
                < self.first_free_id
        &&& forall|k: int| 0 <= k < self.rows@.len() ==> (#[trigger] self.rows@[k]).table_id
            == self.id
    }

    /// Every row's snapshot marker is at most `n`.
    pub open spec fn snap_le(&self, n: usize) -> bool {
        forall|k: int|
            0 <= k < self.rows@.len() ==> (
            #[trigger] self.rows@[k]).last_modified_transaction_id <= n
    }

    /// An undo entry aimed at this table is sound for it: its entity id is
    /// below the id counter and saved bytes decode as this table's entity
    /// type.
    pub open spec fn entry_ok_for(&self, e: UndoEntry) -> bool {
        e.table_id() == self.id ==> {
            &&& 1 <= e.entity_id() < self.first_free_id
            &&& (e matches UndoEntry::Existing { state, .. } ==> spec_deserialize::<T>(
                state,
            ) is Some)
        }
    }

    /// The table agrees with the undo log.  While a transaction runs, a row
    /// carries the running transaction's id exactly when the log covers it;
    /// the log holds at most one entry per entity of this table; and every
    /// entry aimed at this table is sound for it.
    pub open spec fn coherent_with(&self, log: TransactionLog) -> bool {
        &&& self.snap_le(log.transaction_id)
        &&& log.running ==> forall|k: int|
            0 <= k < self.rows@.len() ==> ((#[trigger] self.rows@[k]).last_modified_transaction_id
                == log.transaction_id <==> log_covers(log.entries, self.id, self.rows@[k].id))
        &&& forall|i: int, j: int|
            0 <= i < j < log.entries.len() ==> !((#[trigger] log.entries[i]).table_id() == self.id
                && (#[trigger] log.entries[j]).table_id() == self.id && log.entries[i].entity_id()
                == log.entries[j].entity_id())
        &&& forall|k: int|
            0 <= k < log.entries.len() ==> self.entry_ok_for(#[trigger] log.entries[k])
    }

    /// A fresh, empty table whose id is the hash of its name.
    pub fn new(name: &str) -> (r: Self)
        ensures
            r.inv(),
            r.id == table_id_hash(name@),
            r.rows_map() == Map::<usize, Entity<T>>::empty(),
            r.first_free_id == 1,
            forall|n: usize| r.snap_le(n),
    {
        let id = table_id_from_name(name);
        let r = Table { id, rows: Vec::new(), first_free_id: 1 };
        r
    }

    /// The stable table id.
    pub fn get_id(&self) -> (r: u64)
        ensures
            r == self.id,
    {
        self.id
    }

    /// How many entities the table holds.
    pub fn len(&self) -> (r: usize)
        ensures
            r == self.rows@.len(),
    {
        self.rows.len()
    }

    /// The row at a position, for scans.  Positions order the rows
    /// arbitrarily; identity lives in [`Entity::get_id`].
    pub fn entity_at(&self, k: usize) -> (r: &Entity<T>)
        requires
            k < self.rows@.len(),
        ensures
            *r == self.rows@[k as int],
    {
        &self.rows[k]
    }

    /// The position of the row with the given id, if any.
    fn index_of(&self, id: usize) -> (r: Option<usize>)
        ensures
            match r {
                Some(j) => j < self.rows@.len() && self.rows@[j as int].id == id,
                None => forall|k: int| 0 <= k < self.rows@.len() ==> (#[trigger] self.rows@[k]).id
                    != id,
            },
    {
        let mut j: usize = 0;
        while j < self.rows.len()
            invariant
                j <= self.rows@.len(),
                forall|k: int| 0 <= k < j ==> (#[trigger] self.rows@[k]).id != id,
            decreases self.rows@.len() - j,
        {
            if self.rows[j].id == id {
                return Some(j);
            }
            j = j + 1;
        }
        None
    }

    /// Insert a value as a new entity under the next free id.  While a
    /// transaction runs, a `NotExisting` undo entry is recorded under the
    /// transaction manager's lock-free equivalent here, and the entity's
    /// snapshot marker is set to the running transaction's id: the entry
    /// already restores the entity in full, so no later snapshot of it is
    /// needed.  Undoing the log afterwards yields the same image as before.
    pub fn add(&mut self, tm: &mut TransactionManager, value: T) -> (id: usize)
        requires
            old(self).inv(),
            old(self).first_free_id < usize::MAX,
            old(tm).inv(),
            T::spec_fits(value@),
        ensures
            final(self).inv(),
            final(tm).inv(),
            id == old(self).first_free_id,
            final(self).first_free_id == id + 1,
            final(self).id == old(self).id,
            !old(self).rows_map().contains_key(id),
            final(self).rows@ == old(self).rows@.push(
                Entity {
                    id,
                    table_id: old(self).id,
                    val: value,
                    last_modified_transaction_id: if old(tm)@.running {
                        old(tm)@.transaction_id
                    } else {
                        0
                    },
                },
            ),
            final(self).rows_map() == old(self).rows_map().insert(
                id,
                (Entity {
                    id,
                    table_id: old(self).id,
                    val: value,
                    last_modified_transaction_id: if old(tm)@.running {
                        old(tm)@.transaction_id
                    } else {
                        0
                    },
                }),
            ),
            final(self).content_map() == old(self).content_map().insert(id, value@),
            final(self).image_map() == old(self).image_map().insert(
                id,
                T::spec_serialize(value@),
            ),
            !old(self).image_map().contains_key(id),
            old(tm)@.running ==> final(tm)@ == (TransactionLog {
                entries: old(tm)@.entries.push(
                    UndoEntry::NotExisting { table_id: old(self).id, entity_id: id },
                ),
                ..old(tm)@
            }),
            !old(tm)@.running ==> final(tm)@ == old(tm)@,
            old(self).coherent_with(old(tm)@) ==> final(self).coherent_with(final(tm)@),
            forall|e: UndoEntry|
                #![trigger final(self).entry_ok_for(e)]
                old(self).entry_ok_for(e) ==> final(self).entry_ok_for(e),
    {
        let id = self.first_free_id;
        self.first_free_id = self.first_free_id + 1;
        let running = tm.is_transaction_running();
        let last: usize = if running {
            tm.get_transaction_id()
        } else {
            0
        };
        let e = Entity { id, table_id: self.id, val: value, last_modified_transaction_id: last };
        proof {
            let ghost rows0 = self.rows@;
            lemma_rows_map_push(rows0, e);
            lemma_rows_map_absent(rows0, id);
        }
        self.rows.push(e);
        if running {
            tm.add_entry(TransactionEntry::NotExisting(self.id, id));
        }
        proof {
            let rows0 = old(self).rows@;
            let rows2 = self.rows@;
            assert(self.content_map() =~= old(self).content_map().insert(id, e.val@));
            assert(self.image_map() =~= old(self).image_map().insert(
                id,
                T::spec_serialize(e.val@),
            ));
            if old(self).coherent_with(old(tm)@) {
                let log0 = old(tm)@;
                let log2 = tm@;
                if log0.running {
                    let ne = UndoEntry::NotExisting { table_id: old(self).id, entity_id: id };
                    assert forall|k: int| 0 <= k < rows2.len() implies ((
                    #[trigger] rows2[k]).last_modified_transaction_id == log2.transaction_id
                        <==> log_covers(log2.entries, self.id, rows2[k].id)) by {
                        lemma_covers_push(log0.entries, ne, self.id, rows2[k].id);
                        if k < rows0.len() {
                            assert(rows2[k] == rows0[k]);
                            assert(rows0[k].id != id);
                        } else {
                            assert(rows2[k] == e);
                        }
                    }
                    assert forall|i: int, j: int| 0 <= i < j < log2.entries.len() implies !((
                    #[trigger] log2.entries[i]).table_id() == self.id && (
                    #[trigger] log2.entries[j]).table_id() == self.id
                        && log2.entries[i].entity_id() == log2.entries[j].entity_id()) by {
                        if j == log0.entries.len() {
                            assert(log2.entries[i] == log0.entries[i]);
                            assert(old(self).entry_ok_for(log0.entries[i]));
                        } else {
                            assert(log2.entries[i] == log0.entries[i]);
                            assert(log2.entries[j] == log0.entries[j]);
                        }
                    }
                    assert forall|k: int| 0 <= k < log2.entries.len() implies self.entry_ok_for(
                        #[trigger] log2.entries[k],
                    ) by {
                        if k < log0.entries.len() {
                            assert(log2.entries[k] == log0.entries[k]);
                            assert(old(self).entry_ok_for(log0.entries[k]));
                        } else {
                            assert(log2.entries[k] == ne);
                        }
                    }
                }
            }
        }
        id
    }

    /// Overwrite the value of a live entity; `false` when no entity has the
    /// given id.  On the first write to an entity within a transaction, an
    /// `Existing` undo entry with the entity's prior serialized value is
    /// recorded and the entity's snapshot marker advances to the running
    /// transaction's id; later writes in the same transaction record
    /// nothing.  Undoing the log afterwards yields the same image as
    /// before.
    pub fn set(&mut self, tm: &mut TransactionManager, id: usize, value: T) -> (updated: bool)
        requires
            old(self).inv(),
            old(tm).inv(),
            old(self).coherent_with(old(tm)@),
            T::spec_fits(value@),
        ensures
            final(self).inv(),
            final(tm).inv(),
            final(self).id == old(self).id,
            final(self).first_free_id == old(self).first_free_id,
            updated == old(self).rows_map().contains_key(id),
            !updated ==> *final(self) == *old(self) && final(tm)@ == old(tm)@,
            updated ==> ({
                let prior = old(self).rows_map()[id];
                let snap = old(tm)@.running && prior.last_modified_transaction_id < old(
                    tm,
                )@.transaction_id;
                &&& final(self).rows_map() == old(self).rows_map().insert(
                    id,
                    (Entity {
                        id,
                        table_id: old(self).id,
                        val: value,
                        last_modified_transaction_id: if snap {
                            old(tm)@.transaction_id
                        } else {
                            prior.last_modified_transaction_id
                        },
                    }),
                )
                &&& final(self).content_map() == old(self).content_map().insert(id, value@)
                &&& final(self).image_map() == old(self).image_map().insert(
                    id,
                    T::spec_serialize(value@),
                )
                &&& old(self).image_map().contains_key(id)
                &&& old(self).image_map()[id] == T::spec_serialize(prior.val@)
                &&& snap ==> final(tm)@ == (TransactionLog {
                    entries: old(tm)@.entries.push(
                        UndoEntry::Existing {
                            table_id: old(self).id,
                            entity_id: id,
                            state: T::spec_serialize(prior.val@),
                        },
                    ),
                    ..old(tm)@
                })
                &&& !snap ==> final(tm)@ == old(tm)@
                &&& (old(tm)@.running && !snap) ==> log_covers(
                    old(tm)@.entries,
                    old(self).id,
                    id,
                )
            }),
            final(self).coherent_with(final(tm)@),
            forall|e: UndoEntry|
                #![trigger final(self).entry_ok_for(e)]
                old(self).entry_ok_for(e) ==> final(self).entry_ok_for(e),
    {
        match self.index_of(id) {
            None => {
                proof {
                    lemma_rows_map_absent(self.rows@, id);
                }
                false
            },
            Some(j) => {
                proof {
                    lemma_rows_map_index(self.rows@, j as int);
                }
                let running = tm.is_transaction_running();
                let prior_mark = self.rows[j].last_modified_transaction_id;
                let snap = running && prior_mark < tm.get_transaction_id();
                let ghost prior = old(self).rows_map()[id];
                let new_mark: usize = if snap {
                    tm.get_transaction_id()
                } else {
                    prior_mark
                };
                if snap {
                    let bytes = crate::serialize::serialize_to_vec(&self.rows[j].val);
                    tm.add_entry(TransactionEntry::Existing(self.id, id, bytes));
                }
                let e = Entity {
                    id,
                    table_id: self.id,
                    val: value,
                    last_modified_transaction_id: new_mark,
                };
                proof {
                    lemma_rows_map_update(old(self).rows@, j as int, e);
                }
                self.rows.set(j, e);
                proof {
                    let rows0 = old(self).rows@;
                    let rows2 = self.rows@;
                    let log0 = old(tm)@;
                    let log2 = tm@;
                    assert(self.content_map() =~= old(self).content_map().insert(id, e.val@));
                    assert(self.image_map() =~= old(self).image_map().insert(
                        id,
                        T::spec_serialize(e.val@),
                    ));
                    if running && !snap {
                        // The entity already carries the running transaction's
                        // id, so the log covers it.
                        assert(prior.last_modified_transaction_id == log0.transaction_id);
                        assert(log_covers(log0.entries, old(self).id, id));
                    }
                    if snap {
                        let ne = UndoEntry::Existing {
                            table_id: old(self).id,
                            entity_id: id,
                            state: T::spec_serialize(prior.val@),
                        };
                        assert forall|k: int| 0 <= k < rows2.len() implies ((
                        #[trigger] rows2[k]).last_modified_transaction_id == log2.transaction_id
                            <==> log_covers(log2.entries, self.id, rows2[k].id)) by {
                            lemma_covers_push(log0.entries, ne, self.id, rows2[k].id);
                            if k != j {
                                assert(rows2[k] == rows0[k]);
                                assert(rows0[k].id != id);
                            } else {
                                assert(rows2[k] == e);
                            }
                        }
                        assert forall|i: int, k: int| 0 <= i < k < log2.entries.len() implies !((
                        #[trigger] log2.entries[i]).table_id() == self.id && (
                        #[trigger] log2.entries[k]).table_id() == self.id
                            && log2.entries[i].entity_id() == log2.entries[k].entity_id()) by {
                            if k == log0.entries.len() {
                                assert(log2.entries[i] == log0.entries[i]);
                                if log0.entries[i].targets(self.id, id) {
                                    assert(log_covers(log0.entries, self.id, id));
                                    assert(prior.last_modified_transaction_id
                                        == log0.transaction_id);
                                }
                            } else {
                                assert(log2.entries[i] == log0.entries[i]);
                                assert(log2.entries[k] == log0.entries[k]);
                            }
                        }
                        assert forall|k: int| 0 <= k < log2.entries.len() implies self.entry_ok_for(
                            #[trigger] log2.entries[k],
                        ) by {
                            if k < log0.entries.len() {
                                assert(log2.entries[k] == log0.entries[k]);
                                assert(old(self).entry_ok_for(log0.entries[k]));
                            } else {
                                assert(log2.entries[k] == ne);
                                crate::serialize::lemma_deserialize_round_trip::<T>(prior.val@);
                            }
                        }
                    } else {
                        assert forall|k: int| 0 <= k < log2.entries.len() implies self.entry_ok_for(
                            #[trigger] log2.entries[k],
                        ) by {
                            assert(old(self).entry_ok_for(log0.entries[k]));
                        }
                        if log2.running {
                            assert forall|k: int| 0 <= k < rows2.len() implies ((
                            #[trigger] rows2[k]).last_modified_transaction_id
                                == log2.transaction_id <==> log_covers(
                                log2.entries,
                                self.id,
                                rows2[k].id,
                            )) by {
                                if k != j {
                                    assert(rows2[k] == rows0[k]);
                                } else {
                                    assert(rows2[k] == e);
                                    assert(rows0[k] == prior);
                                }
                            }
                        }
                    }
                }
                true
            },
        }
    }

    /// Remove the entity with the given id, if it is live.  Removal records
    /// no undo entry: a row removed inside a transaction is not restored by
    /// rollback.  This is a documented limit of the engine.
    pub fn remove(&mut self, id: usize)
        requires
            old(self).inv(),
        ensures
            final(self).inv(),
            final(self).id == old(self).id,
            final(self).first_free_id == old(self).first_free_id,
            final(self).rows_map() == old(self).rows_map().remove(id),
            final(self).content_map() == old(self).content_map().remove(id),
            final(self).image_map() == old(self).image_map().remove(id),
            forall|log: TransactionLog|
                #![trigger final(self).coherent_with(log)]
                old(self).coherent_with(log) ==> final(self).coherent_with(log),
            forall|e: UndoEntry|
                #![trigger final(self).entry_ok_for(e)]
                old(self).entry_ok_for(e) ==> final(self).entry_ok_for(e),
            forall|n: usize|
                #![trigger final(self).snap_le(n)]
                old(self).snap_le(n) ==> final(self).snap_le(n),
    {
        match self.index_of(id) {
            None => {
                proof {
                    lemma_rows_map_absent(self.rows@, id);
                    assert(self.rows_map().remove(id) =~= self.rows_map());
                    assert(self.content_map().remove(id) =~= self.content_map());
                    assert(self.image_map().remove(id) =~= self.image_map());
                }
            },
            Some(j) => {
                proof {
                    lemma_rows_map_index(self.rows@, j as int);
                    lemma_rows_map_remove(self.rows@, j as int);
                }
                self.rows.remove(j);
                proof {
                    assert(self.content_map() =~= old(self).content_map().remove(id));
                    assert(self.image_map() =~= old(self).image_map().remove(id));
                    assert forall|log: TransactionLog|
                        old(self).coherent_with(log) implies #[trigger] self.coherent_with(
                        log,
                    ) by {
                        let rows0 = old(self).rows@;
                        let rows2 = self.rows@;
                        assert forall|k: int| 0 <= k < rows2.len() implies (
                        #[trigger] rows2[k]).last_modified_transaction_id <= log.transaction_id by {
                            if k < j {
                                assert(rows2[k] == rows0[k]);
                            } else {
                                assert(rows2[k] == rows0[k + 1]);
                            }
                        }
                        if log.running {
                            assert forall|k: int| 0 <= k < rows2.len() implies ((
                            #[trigger] rows2[k]).last_modified_transaction_id
                                == log.transaction_id <==> log_covers(
                                log.entries,
                                old(self).id,
                                rows2[k].id,
                            )) by {
                                if k < j {
                                    assert(rows2[k] == rows0[k]);
                                } else {
                                    assert(rows2[k] == rows0[k + 1]);
                                }
                            }
                        }
                    }
                }
            },
        }
    }

    /// The entity with the given id, if it is live.
    pub fn get(&self, id: usize) -> (r: Option<&Entity<T>>)
        requires
            self.inv(),
        ensures
            match r {
                Some(e) => self.rows_map().contains_key(id) && *e == self.rows_map()[id],
                None => !self.rows_map().contains_key(id),
            },
    {
        match self.index_of(id) {
            Some(j) => {
                proof {
                    lemma_rows_map_index(self.rows@, j as int);
                }
                Some(&self.rows[j])
            },
            None => {
                proof {
                    lemma_rows_map_absent(self.rows@, id);
                }
                None
            },
        }
    }
}

// ------------------------------------------------------------------
// The rollback capability set
// ------------------------------------------------------------------

/// What rollback needs from a table, dispatched by table id: restore an
/// entity to its saved bytes, or erase an entity the transaction created.
/// Both leave the table's id, its id counter and its decoder untouched and
/// never raise a snapshot marker.
pub trait TableBase {
    /// The table's stable id.
    spec fn table_key(&self) -> u64;

    /// The table's id counter.
    spec fn id_counter(&self) -> usize;

    /// The table's part of the database image.
    spec fn table_image(&self) -> TableImage;

    spec fn base_inv(&self) -> bool;

    /// Whether saved bytes decode as this table's entity type.
    spec fn bytes_ok(&self, b: Seq<u8>) -> bool;

    /// Whether an entity id is below the table's id counter.
    spec fn id_ok(&self, id: usize) -> bool;

    /// Every snapshot marker is at most `n`.
    spec fn snap_bound(&self, n: usize) -> bool;

    /// Revert an entity to the saved state it had before the transaction.
    fn rollback_to_existing(&mut self, id: usize, state: &Vec<u8>)
        requires
            old(self).base_inv(),
            old(self).bytes_ok(state@),
            old(self).id_ok(id),
        ensures
            final(self).base_inv(),
            final(self).table_key() == old(self).table_key(),
            final(self).id_counter() == old(self).id_counter(),
            final(self).table_image() == old(self).table_image().insert(id, state@),
            forall|b: Seq<u8>| final(self).bytes_ok(b) == old(self).bytes_ok(b),
            forall|i: usize| final(self).id_ok(i) == old(self).id_ok(i),
            forall|n: usize| old(self).snap_bound(n) ==> final(self).snap_bound(n),
    ;

    /// Remove an entity that did not exist before the transaction.
    fn rollback_to_not_existing(&mut self, id: usize)
        requires
            old(self).base_inv(),
        ensures
            final(self).base_inv(),
            final(self).table_key() == old(self).table_key(),
            final(self).id_counter() == old(self).id_counter(),
            final(self).table_image() == old(self).table_image().remove(id),
            forall|b: Seq<u8>| final(self).bytes_ok(b) == old(self).bytes_ok(b),
            forall|i: usize| final(self).id_ok(i) == old(self).id_ok(i),
            forall|n: usize| old(self).snap_bound(n) ==> final(self).snap_bound(n),
    ;
}

impl<T: Serializable> TableBase for Table<T> {
    open spec fn table_key(&self) -> u64 {
        self.id
    }

    open spec fn id_counter(&self) -> usize {
        self.first_free_id
    }

    open spec fn table_image(&self) -> TableImage {
        self.image_map()
    }

    open spec fn base_inv(&self) -> bool {
        self.inv()
    }

    open spec fn bytes_ok(&self, b: Seq<u8>) -> bool {
        spec_deserialize::<T>(b) is Some
    }

    open spec fn id_ok(&self, id: usize) -> bool {
        1 <= id < self.first_free_id
    }

    open spec fn snap_bound(&self, n: usize) -> bool {
        self.snap_le(n)
    }

    fn rollback_to_existing(&mut self, id: usize, state: &Vec<u8>) {
        let v: T = crate::serialize::deserialize::<T>(state.as_slice()).unwrap();
        proof {
            crate::serialize::lemma_deserialize_canonical::<T>(state@);
        }
        self.remove(id);
        let e = Entity::new(id, self.id, v);
        let ghost midtable = *self;
        let ghost mid = self.rows@;
        proof {
            lemma_rows_map_push(mid, e);
            assert forall|k: int| 0 <= k < mid.len() implies (#[trigger] mid[k]).id != id by {
                if mid[k].id == id {
                    lemma_rows_map_index(mid, k);
                }
            }
        }
        self.rows.push(e);
        proof {
            assert(self.image_map() =~= old(self).image_map().insert(id, state@));
            assert forall|n: usize| old(self).snap_bound(n) implies #[trigger] self.snap_bound(
                n,
            ) by {
                assert(midtable.snap_le(n));
                assert forall|k: int| 0 <= k < self.rows@.len() implies (
                #[trigger] self.rows@[k]).last_modified_transaction_id <= n by {
                    if k < mid.len() {
                        assert(self.rows@[k] == mid[k]);
                        assert(midtable.rows@[k] == mid[k]);
                    } else {
                        assert(self.rows@[k] == e);
                    }
                }
            }
        }
    }

    fn rollback_to_not_existing(&mut self, id: usize) {
        self.remove(id);
    }
}

// ------------------------------------------------------------------
// Lemmas the database record uses to lift table facts
// ------------------------------------------------------------------

/// A table whose snapshot markers predate the running transaction is
/// coherent with an empty undo log.
pub proof fn lemma_table_coherent_fresh<T: Serializable>(t: &Table<T>, log: TransactionLog)
    requires
        log.entries.len() == 0,
        log.transaction_id >= 1,
        log.running ==> t.snap_le((log.transaction_id - 1) as usize),
        !log.running ==> t.snap_le(log.transaction_id),
    ensures
        t.coherent_with(log),
{
}

/// An entry aimed at another table does not disturb this table's coherence.
pub proof fn lemma_coherent_append_other<T: Serializable>(
    t: &Table<T>,
    log0: TransactionLog,
    log2: TransactionLog,
    e: UndoEntry,
)
    requires
        t.coherent_with(log0),
        log2.entries == log0.entries.push(e),
        log2.transaction_id == log0.transaction_id,
        log2.running == log0.running,
        e.table_id() != t.id,
    ensures
        t.coherent_with(log2),
{
    if log2.running {
        assert forall|k: int| 0 <= k < t.rows@.len() implies ((
        #[trigger] t.rows@[k]).last_modified_transaction_id == log2.transaction_id <==> log_covers(
            log2.entries,
            t.id,
            t.rows@[k].id,
        )) by {
            lemma_covers_push(log0.entries, e, t.id, t.rows@[k].id);
        }
    }
    assert forall|i: int, j: int| 0 <= i < j < log2.entries.len() implies !((
    #[trigger] log2.entries[i]).table_id() == t.id && (#[trigger] log2.entries[j]).table_id()
        == t.id && log2.entries[i].entity_id() == log2.entries[j].entity_id()) by {
        if j < log0.entries.len() {
            assert(log2.entries[i] == log0.entries[i]);
            assert(log2.entries[j] == log0.entries[j]);
        } else {
            assert(log2.entries[j] == e);
        }
    }
    assert forall|k: int| 0 <= k < log2.entries.len() implies t.entry_ok_for(
        #[trigger] log2.entries[k],
    ) by {
        if k < log0.entries.len() {
            assert(log2.entries[k] == log0.entries[k]);
            assert(t.entry_ok_for(log0.entries[k]));
        } else {
            assert(log2.entries[k] == e);
        }
    }
}

/// Equal serialized images mean equal stored values: the codec's round trip
/// makes serialization injective.
pub proof fn lemma_image_determines_content<T: Serializable>(a: &Table<T>, b: &Table<T>)
    requires
        a.inv(),
        b.inv(),
        a.image_map() == b.image_map(),
    ensures
        a.content_map() == b.content_map(),
{
    assert forall|id: usize| #[trigger]
        a.content_map().contains_key(id) implies b.content_map().contains_key(id)
        && a.content_map()[id] == b.content_map()[id] by {
        assert(a.image_map().contains_key(id));
        assert(b.image_map().contains_key(id));
        lemma_rows_map_dom(a.rows@, id);
        let ka = choose|k: int| 0 <= k < a.rows@.len() && (#[trigger] a.rows@[k]).id == id;
        lemma_rows_map_index(a.rows@, ka);
        lemma_rows_map_dom(b.rows@, id);
        let kb = choose|k: int| 0 <= k < b.rows@.len() && (#[trigger] b.rows@[k]).id == id;
        lemma_rows_map_index(b.rows@, kb);
        let va = a.rows_map()[id].val@;
        let vb = b.rows_map()[id].val@;
        assert(T::spec_fits(va));
        assert(T::spec_fits(vb));
        assert(a.image_map()[id] == T::spec_serialize(va));
        assert(b.image_map()[id] == T::spec_serialize(vb));
        assert(T::spec_serialize(va) == T::spec_serialize(vb));
        crate::serialize::lemma_deserialize_round_trip::<T>(va);
        crate::serialize::lemma_deserialize_round_trip::<T>(vb);
    }
    assert forall|id: usize| #[trigger]
        b.content_map().contains_key(id) implies a.content_map().contains_key(id) by {
        assert(b.image_map().contains_key(id));
        assert(a.image_map().contains_key(id));
    }
    assert(a.content_map() =~= b.content_map());
}

/// Entity ids are strictly increasing and never reused over the life of
/// the process, rollbacks included: `add` returns the table's id counter
/// and advances it, every other table operation — rollback included —
/// leaves the counter unchanged, so an id handed out later is strictly
/// greater than any handed out before.
pub proof fn lemma_entity_ids_increase(id1: usize, counter_between: usize, id2: usize)
    requires
        id1 < counter_between,
        id2 >= counter_between,
    ensures
        id2 > id1,
{
}

/// One undo snapshot per entity per transaction: an entity whose snapshot
/// marker carries the running transaction's id — every entity the
/// transaction has mutated or created — has exactly one undo entry in the
/// log.
pub proof fn lemma_one_undo_entry_per_entity<T: Serializable>(
    t: &Table<T>,
    log: TransactionLog,
    k: int,
)
    requires
        t.coherent_with(log),
        log.running,
        0 <= k < t.rows@.len(),
        t.rows@[k].last_modified_transaction_id == log.transaction_id,
    ensures
        crate::transaction::log_count(log.entries, t.id, t.rows@[k].id) == 1,
{
    let id = t.rows@[k].id;
    assert(log_covers(log.entries, t.id, id));
    let k1 = choose|k1: int|
        0 <= k1 < log.entries.len() && (#[trigger] log.entries[k1]).targets(t.id, id);
    assert forall|i: int, j: int|
        0 <= i < j < log.entries.len() implies !((#[trigger] log.entries[i]).targets(t.id, id) && (
    #[trigger] log.entries[j]).targets(t.id, id)) by {}
    crate::transaction::lemma_log_count_one(log.entries, t.id, id, k1);
}

} // verus!
