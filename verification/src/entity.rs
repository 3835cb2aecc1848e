//! An entity: one row of a table, carrying the identity the table assigned
//! to it and the snapshot marker that limits undo capture to one snapshot
//! per entity per transaction.

use vstd::prelude::*;

verus! {

/// A stored row.  `last_modified_transaction_id` is the id of the
/// transaction that last captured an undo snapshot of this entity; it is 0
/// for an entity no transaction has touched, and it is what keeps a
/// transaction from snapshotting the same entity twice.
pub struct Entity<T> {
    /// The identity of the entity within its table, assigned at insertion.
    pub id: usize,
    /// The id of the owning table.
    pub table_id: u64,
    /// The stored value.
    pub val: T,
    /// The transaction id at which the current undo snapshot was taken.
    pub last_modified_transaction_id: usize,
}

impl<T> Entity<T> {
    /// A fresh entity, untouched by any transaction.
    pub fn new(id: usize, table_id: u64, val: T) -> (r: Self)
        ensures
            r.id == id,
            r.table_id == table_id,
            r.val == val,
            r.last_modified_transaction_id == 0,
    {
        Entity { id, table_id, val, last_modified_transaction_id: 0 }
    }

    /// The identity of the entity within its table.
    pub fn get_id(&self) -> (r: usize)
        ensures
            r == self.id,
    {
        self.id
    }

    /// The stored value, for reading.
    pub fn value(&self) -> (r: &T)
        ensures
            *r == self.val,
    {
        &self.val
    }
}

} // verus!
