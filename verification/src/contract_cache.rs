//! A cache of compiled contracts.

use vstd::prelude::*;

use crate::columns::DBCol;
use crate::database::{read_result, Database};
use crate::error::Error;
use crate::store::Store;
use crate::transaction::{after_ops, DBOpView};

verus! {

/// A cache of compiled contracts that keeps them in a store, in the column
/// `CachedContractCode`.
///
/// The key has to take the virtual machine and its configuration into account,
/// so that no contract that was compiled for one is used by another.
pub struct StoreCompiledContractCache<D> {
    pub store: Store<D>,
}

impl<D: Database> StoreCompiledContractCache<D> {
    /// Keeps a compiled contract. An error of the database is handed on.
    pub fn put(&mut self, key: &[u8], value: &[u8]) -> (r: Result<(), Error>)
        requires
            old(self).store.valid(),
        ensures
            final(self).store.valid(),
            final(self).store.storage_id() == old(self).store.storage_id(),
            final(self).store.reliable() == old(self).store.reliable(),
            old(self).store.write_outcome(
                seq![
                    DBOpView::Put { col: DBCol::CachedContractCode, key: key@, value: value@ },
                ],
                r,
            ),
            old(self).store.reliable() ==> r is Ok,
            forall|col: DBCol|
                #![trigger final(self).store.column(col)]
                final(self).store.column(col) == (if r is Ok && col == DBCol::CachedContractCode {
                    old(self).store.column(col).insert(key@, value@)
                } else {
                    old(self).store.column(col)
                }),
    {
        let mut store_update = self.store.store_update();
        store_update.set(DBCol::CachedContractCode, key, value);
        let ghost ops = store_update@.ops;
        proof {
            assert(ops =~= seq![
                DBOpView::Put { col: DBCol::CachedContractCode, key: key@, value: value@ },
            ]);
            assert(ops.drop_last() =~= Seq::<DBOpView>::empty());
            assert forall|col: DBCol| #[trigger] after_ops(self.store.column(col), col, ops) == (
            if col == DBCol::CachedContractCode {
                self.store.column(col).insert(key@, value@)
            } else {
                self.store.column(col)
            }) by {
                reveal_with_fuel(after_ops, 2);
            }
        }
        match store_update.commit(&mut self.store) {
            Ok(_) => Ok(()),
            Err(failure) => Err(failure.error),
        }
    }

    /// The compiled contract under a key. An error of the database is handed
    /// on.
    pub fn get(&self, key: &[u8]) -> (r: Result<Option<Vec<u8>>, Error>)
        requires
            self.store.valid(),
        ensures
            self.store.get_outcome(DBCol::CachedContractCode, key@, read_result(r)),
    {
        self.store.get(DBCol::CachedContractCode, key)
    }
}

} // verus!
