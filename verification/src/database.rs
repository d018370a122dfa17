//! The database under the store, and one that lives in memory.

use vstd::prelude::*;

use crate::bytes::{copy_bytes, lex_lt, opt_bytes};
use crate::columns::{DBCol, COLUMN_COUNT};
use crate::error::Error;
use crate::refcount::refcount_merge;
use crate::table::Table;
use crate::transaction::{after_op, after_ops, DBOp, DBOpView, DBTransaction};

verus! {

/// The contents of a list of entries.
pub open spec fn pairs(entries: Seq<(Vec<u8>, Vec<u8>)>) -> Seq<(Seq<u8>, Seq<u8>)> {
    entries.map_values(|e: (Vec<u8>, Vec<u8>)| (e.0@, e.1@))
}

/// `s` lists the entries of `m`: each once, in the order of the keys.
pub open spec fn lists(s: Seq<(Seq<u8>, Seq<u8>)>, m: Map<Seq<u8>, Seq<u8>>) -> bool {
    &&& forall|i: int, j: int|
        0 <= i < j < s.len() ==> lex_lt((#[trigger] s[i]).0, (#[trigger] s[j]).0)
    &&& forall|i: int|
        0 <= i < s.len() ==> m.contains_key((#[trigger] s[i]).0) && m[s[i].0] == s[i].1
    &&& forall|k: Seq<u8>| #[trigger]
        m.contains_key(k) ==> exists|i: int| 0 <= i < s.len() && (#[trigger] s[i]).0 == k
}

/// The content of the result of a read.
pub open spec fn read_result(r: Result<Option<Vec<u8>>, Error>) -> Result<Option<Seq<u8>>, Error> {
    match r {
        Ok(stored) => Ok(opt_bytes(stored)),
        Err(e) => Err(e),
    }
}

/// One figure that a database keeps about itself.
#[derive(Clone, Copy, Debug, PartialEq, Eq, Structural)]
pub enum StatsValue {
    Count(i64),
    Sum(i64),
    ColumnValue(DBCol, i64),
}

/// The figures that a database keeps about itself, by name.
#[derive(Debug)]
pub struct StoreStatistics {
    pub data: Vec<(String, Vec<StatsValue>)>,
}

/// A database: for each column a map from keys to stored values. One that says
/// nothing about itself says that it is empty and keeps no figures, and may fail
/// in any way.
pub trait Database: Sized {
    /// The database is in working order.
    open spec fn valid(&self) -> bool {
        true
    }

    /// What is stored in a column.
    open spec fn column(&self, col: DBCol) -> Map<Seq<u8>, Seq<u8>> {
        Map::empty()
    }

    /// No operation on the database fails.
    open spec fn reliable(&self) -> bool {
        false
    }

    /// The figures that the database keeps about itself, if it keeps any.
    open spec fn statistics(&self) -> Option<StoreStatistics> {
        None
    }

    /// What a read of what is stored under a key can come to.
    open spec fn read_outcome(
        &self,
        col: DBCol,
        key: Seq<u8>,
        r: Result<Option<Seq<u8>>, Error>,
    ) -> bool {
        true
    }

    /// What a write of these changes can come to.
    open spec fn write_outcome(&self, ops: Seq<DBOpView>, r: Result<(), Error>) -> bool {
        true
    }

    /// What a flush of the database can come to.
    open spec fn flush_outcome(&self, r: Result<(), Error>) -> bool {
        true
    }

    /// What is stored under a key, with its reference count where the column
    /// has one.
    fn get_raw_bytes(&self, col: DBCol, key: &[u8]) -> (r: Result<Option<Vec<u8>>, Error>)
        requires
            self.valid(),
        ensures
            r matches Ok(stored) ==> opt_bytes(stored) == self.column(col).get(key@),
            self.read_outcome(col, key@, read_result(r)),
            self.reliable() ==> r is Ok,
    ;

    /// All that is stored in a column, in the order of the keys.
    fn iter_raw_bytes(&self, col: DBCol) -> (r: Vec<(Vec<u8>, Vec<u8>)>)
        requires
            self.valid(),
        ensures
            lists(pairs(r@), self.column(col)),
    ;

    /// Applies all changes of a transaction in turn, or none of them.
    fn write(&mut self, transaction: DBTransaction) -> (r: Result<(), Error>)
        requires
            old(self).valid(),
        ensures
            final(self).valid(),
            final(self).reliable() == old(self).reliable(),
            forall|col: DBCol|
                #![trigger final(self).column(col)]
                final(self).column(col) == (if r is Ok {
                    after_ops(old(self).column(col), col, transaction@)
                } else {
                    old(self).column(col)
                }),
            old(self).write_outcome(transaction@, r),
            old(self).reliable() ==> r is Ok,
    ;

    /// Brings what is held back in memory to where it is kept.
    fn flush(&self) -> (r: Result<(), Error>)
        requires
            self.valid(),
        ensures
            self.flush_outcome(r),
            self.reliable() ==> r is Ok,
    ;

    fn get_store_statistics(&self) -> (r: Option<StoreStatistics>)
        requires
            self.valid(),
        ensures
            r == self.statistics(),
    ;
}

/// A database in memory.
pub struct TestDB {
    columns: Vec<Table<Vec<u8>>>,
}

impl TestDB {
    /// A database with nothing stored in it.
    pub fn new() -> (db: Self)
        ensures
            db.valid(),
            db.reliable(),
            forall|col: DBCol| #[trigger] db.column(col) == Map::<Seq<u8>, Seq<u8>>::empty(),
    {
        let mut columns: Vec<Table<Vec<u8>>> = Vec::new();
        let mut i: usize = 0;
        while i < COLUMN_COUNT
            invariant
                i <= COLUMN_COUNT,
                columns@.len() == i,
                forall|n: int| 0 <= n < i ==> (#[trigger] columns@[n]).valid(),
                forall|n: int|
                    0 <= n < i ==> (#[trigger] columns@[n])@ == Map::<Seq<u8>, Vec<u8>>::empty(),
            decreases COLUMN_COUNT - i,
        {
            columns.push(Table::new());
            i = i + 1;
        }
        let db = TestDB { columns };
        proof {
            assert forall|col: DBCol| #[trigger] db.column(col) == Map::<
                Seq<u8>,
                Seq<u8>,
            >::empty() by {
                col.lemma_position();
                assert(db.columns@[col.position()]@ == Map::<Seq<u8>, Vec<u8>>::empty());
                assert(db.column(col) =~= Map::<Seq<u8>, Seq<u8>>::empty());
            }
        }
        db
    }

    proof fn lemma_other_columns(before: Self, after: Self, at: DBCol)
        requires
            before.valid(),
            after.columns@.len() == before.columns@.len(),
            forall|n: int|
                0 <= n < before.columns@.len() && n != at.position() ==> after.columns@[n]
                    == before.columns@[n],
        ensures
            forall|col: DBCol|
                col != at ==> #[trigger] after.column(col) == before.column(col),
    {
        assert forall|col: DBCol| col != at implies #[trigger] after.column(col) == before.column(
            col,
        ) by {
            col.lemma_position();
            at.lemma_position();
        }
    }

    fn put(&mut self, col: DBCol, key: Vec<u8>, value: Vec<u8>)
        requires
            old(self).valid(),
        ensures
            final(self).valid(),
            forall|c: DBCol| #[trigger]
                final(self).column(c) == (if c == col {
                    old(self).column(c).insert(key@, value@)
                } else {
                    old(self).column(c)
                }),
    {
        let ghost before = *self;
        let i: usize = col.index();
        self.columns[i].insert(key, value);
        proof {
            Self::lemma_other_columns(before, *self, col);
            assert(self.column(col) =~= before.column(col).insert(key@, value@));
        }
    }

    fn take(&mut self, col: DBCol, key: &[u8])
        requires
            old(self).valid(),
        ensures
            final(self).valid(),
            forall|c: DBCol| #[trigger]
                final(self).column(c) == (if c == col {
                    old(self).column(c).remove(key@)
                } else {
                    old(self).column(c)
                }),
    {
        let ghost before = *self;
        let i: usize = col.index();
        self.columns[i].remove(key);
        proof {
            Self::lemma_other_columns(before, *self, col);
            assert(self.column(col) =~= before.column(col).remove(key@));
        }
    }

    fn apply(&mut self, op: &DBOp)
        requires
            old(self).valid(),
        ensures
            final(self).valid(),
            forall|c: DBCol| #[trigger]
                final(self).column(c) == after_op(old(self).column(c), c, op@),
    {
        match op {
            DBOp::Put { col, key, value } => {
                self.put(*col, copy_bytes(key.as_slice()), copy_bytes(value.as_slice()));
            },
            DBOp::Insert { col, key, value } => {
                self.put(*col, copy_bytes(key.as_slice()), copy_bytes(value.as_slice()));
            },
            DBOp::UpdateRefcount { col, key, value } => {
                let i: usize = col.index();
                let stored = {
                    let existing = self.columns[i].get(key.as_slice());
                    refcount_merge(existing, value.as_slice())
                };
                match stored {
                    Some(bytes) => {
                        self.put(*col, copy_bytes(key.as_slice()), bytes);
                    },
                    None => {
                        self.take(*col, key.as_slice());
                    },
                }
            },
            DBOp::Delete { col, key } => {
                self.take(*col, key.as_slice());
            },
            DBOp::DeleteAll { col } => {
                let ghost before = *self;
                let i: usize = col.index();
                self.columns[i].clear();
                proof {
                    Self::lemma_other_columns(before, *self, *col);
                    assert(self.column(*col) =~= Map::<Seq<u8>, Seq<u8>>::empty());
                }
            },
        }
    }
}

impl Database for TestDB {
    closed spec fn valid(&self) -> bool {
        &&& self.columns@.len() == COLUMN_COUNT
        &&& forall|n: int| 0 <= n < COLUMN_COUNT ==> (#[trigger] self.columns@[n]).valid()
    }

    closed spec fn column(&self, col: DBCol) -> Map<Seq<u8>, Seq<u8>> {
        self.columns@[col.position()]@.map_values(|v: Vec<u8>| v@)
    }

    open spec fn reliable(&self) -> bool {
        true
    }

    open spec fn statistics(&self) -> Option<StoreStatistics> {
        None
    }

    open spec fn read_outcome(
        &self,
        col: DBCol,
        key: Seq<u8>,
        r: Result<Option<Seq<u8>>, Error>,
    ) -> bool {
        r is Ok
    }

    open spec fn write_outcome(&self, ops: Seq<DBOpView>, r: Result<(), Error>) -> bool {
        r is Ok
    }

    open spec fn flush_outcome(&self, r: Result<(), Error>) -> bool {
        r is Ok
    }

    fn get_raw_bytes(&self, col: DBCol, key: &[u8]) -> (r: Result<Option<Vec<u8>>, Error>) {
        let i: usize = col.index();
        match self.columns[i].get(key) {
            Some(v) => Ok(Some(copy_bytes(v.as_slice()))),
            None => Ok(None),
        }
    }

    fn iter_raw_bytes(&self, col: DBCol) -> (r: Vec<(Vec<u8>, Vec<u8>)>) {
        let at: usize = col.index();
        let table = &self.columns[at];
        let mut out: Vec<(Vec<u8>, Vec<u8>)> = Vec::new();
        let mut i: usize = 0;
        while i < table.len()
            invariant
                i <= table.size(),
                out@.len() == i,
                forall|n: int|
                    0 <= n < i ==> (#[trigger] out@[n]).0@ == table.key(n) && out@[n].1@
                        == table.value(n)@,
            decreases table.size() - i,
        {
            let key = copy_bytes(table.key_at(i).as_slice());
            let value = copy_bytes(table.value_at(i).as_slice());
            out.push((key, value));
            i = i + 1;
        }
        proof {
            table.lemma_positions();
            let s = pairs(out@);
            let m = self.column(col);
            assert forall|k: Seq<u8>| #[trigger] m.contains_key(k) implies exists|n: int|
                0 <= n < s.len() && (#[trigger] s[n]).0 == k by {
                assert(table@.contains_key(k));
                let n = choose|n: int| 0 <= n < table.size() && #[trigger] table.key(n) == k;
                assert(s[n].0 == k);
            }
            assert forall|n: int| 0 <= n < s.len() implies m.contains_key((#[trigger] s[n]).0)
                && m[s[n].0] == s[n].1 by {
                assert(s[n].0 == table.key(n));
                assert(table@.contains_key(table.key(n)));
            }
        }
        out
    }

    fn write(&mut self, transaction: DBTransaction) -> (r: Result<(), Error>) {
        let ghost before = *self;
        let ghost ops = transaction@;
        let mut i: usize = 0;
        while i < transaction.ops.len()
            invariant
                self.valid(),
                i <= transaction.ops@.len(),
                ops == transaction@,
                forall|col: DBCol| #[trigger]
                    self.column(col) == after_ops(before.column(col), col, ops.take(i as int)),
            decreases transaction.ops@.len() - i,
        {
            self.apply(&transaction.ops[i]);
            proof {
                assert(ops.take(i + 1).drop_last() =~= ops.take(i as int));
                assert(ops.take(i + 1).last() == transaction.ops@[i as int]@);
            }
            i = i + 1;
        }
        proof {
            assert(ops.take(i as int) =~= ops);
        }
        Ok(())
    }

    fn flush(&self) -> (r: Result<(), Error>) {
        Ok(())
    }

    fn get_store_statistics(&self) -> (r: Option<StoreStatistics>) {
        None
    }
}

} // verus!
