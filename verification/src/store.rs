//! The store and updates to it.

use vstd::prelude::*;
use vstd::string::StringExecFns;

use crate::base58::{base58, to_base};
use crate::bytes::{copy_bytes, has_prefix, lex_lt, starts_with};
use crate::codec::Borsh;
use crate::columns::DBCol;
use crate::config::{StoreConfig, StoreOpener};
use crate::database::{lists, pairs, read_result, Database, StoreStatistics, TestDB};
use crate::dump::{decode_dump, dump_decoding, dump_encoding, encode_dump, put_ops};
use crate::error::Error;
use crate::refcount::{
    add_positive_refcount, encode_negative_refcount, get_with_rc_logic, rc_bytes, visible,
};
use crate::transaction::{after_ops, overwrites_itself, DBOp, DBOpView, DBTransaction};
use crate::tries::{cache_after_ops, well_keyed, ShardTries, ShardTriesView};

verus! {

/// The entries whose key starts with `prefix`.
pub open spec fn with_prefix(m: Map<Seq<u8>, Seq<u8>>, prefix: Seq<u8>) -> Map<Seq<u8>, Seq<u8>> {
    Map::new(|k: Seq<u8>| m.contains_key(k) && has_prefix(k, prefix), |k: Seq<u8>| m[k])
}

/// What a read tells of whether there is a value.
pub open spec fn found(read: Result<Option<Seq<u8>>, Error>) -> Result<bool, Error> {
    match read {
        Ok(value) => Ok(value is Some),
        Err(e) => Err(e),
    }
}

/// The record that a read gives.
pub open spec fn record_of<T: Borsh>(read: Result<Option<Seq<u8>>, Error>) -> Result<
    Option<T::Model>,
    Error,
> {
    match read {
        Ok(None) => Ok(None),
        Ok(Some(bytes)) => match T::decoding(bytes) {
            Some(m) => Ok(Some(m)),
            None => Err(Error::Deserialization),
        },
        Err(e) => Err(e),
    }
}

/// The content of the result of a read of a record.
pub open spec fn record_result<T: Borsh>(r: Result<Option<T>, Error>) -> Result<
    Option<T::Model>,
    Error,
> {
    match r {
        Ok(Some(v)) => Ok(Some(v.model())),
        Ok(None) => Ok(None),
        Err(e) => Err(e),
    }
}

/// A store on a database.
pub struct Store<D> {
    id: u64,
    storage: D,
}

impl Store<TestDB> {
    /// A store that is still to be opened, with given home directory and
    /// settings.
    pub fn opener<'a>(home_dir: &str, config: &'a StoreConfig) -> (o: StoreOpener<'a>)
        ensures
            o.home_dir@ == home_dir@,
            o.config == config,
    {
        StoreOpener::new(home_dir, config)
    }
}

impl<D: Database> Store<D> {
    /// The database of the store is in working order.
    pub closed spec fn valid(&self) -> bool {
        self.storage.valid()
    }

    /// Which database the store is on.
    pub closed spec fn storage_id(&self) -> u64 {
        self.id
    }

    /// No operation on the store fails for want of the database.
    pub closed spec fn reliable(&self) -> bool {
        self.storage.reliable()
    }

    /// What is stored in a column.
    pub closed spec fn column(&self, col: DBCol) -> Map<Seq<u8>, Seq<u8>> {
        self.storage.column(col)
    }

    /// What a reader of a column sees: the stored values, without the count
    /// where the column has one.
    pub open spec fn entries(&self, col: DBCol) -> Map<Seq<u8>, Seq<u8>> {
        visible(col, self.column(col))
    }

    /// The figures that the database keeps about itself, if it keeps any.
    pub closed spec fn statistics(&self) -> Option<StoreStatistics> {
        self.storage.statistics()
    }

    /// What a read from the database can come to.
    pub closed spec fn read_outcome(
        &self,
        col: DBCol,
        key: Seq<u8>,
        r: Result<Option<Seq<u8>>, Error>,
    ) -> bool {
        self.storage.read_outcome(col, key, r)
    }

    /// What a write to the database can come to.
    pub closed spec fn write_outcome(&self, ops: Seq<DBOpView>, r: Result<(), Error>) -> bool {
        self.storage.write_outcome(ops, r)
    }

    /// What a reader of a key can be given: what is seen under it, where the
    /// read from the database succeeds, and the error of that read otherwise.
    pub open spec fn get_outcome(
        &self,
        col: DBCol,
        key: Seq<u8>,
        r: Result<Option<Seq<u8>>, Error>,
    ) -> bool {
        match r {
            Ok(value) => self.read_outcome(col, key, Ok(self.column(col).get(key))) && value
                == self.entries(col).get(key),
            Err(e) => self.read_outcome(col, key, Err(e)) && !self.reliable(),
        }
    }

    /// What can be said of whether a key has a value: what some read says.
    pub open spec fn exists_outcome(
        &self,
        col: DBCol,
        key: Seq<u8>,
        r: Result<bool, Error>,
    ) -> bool {
        exists|read: Result<Option<Seq<u8>>, Error>| #[trigger]
            self.get_outcome(col, key, read) && r == found(read)
    }

    /// What a reader of a record can be given: what some read gives.
    pub open spec fn get_ser_outcome<T: Borsh>(
        &self,
        col: DBCol,
        key: Seq<u8>,
        r: Result<Option<T::Model>, Error>,
    ) -> bool {
        exists|read: Result<Option<Seq<u8>>, Error>| #[trigger]
            self.get_outcome(col, key, read) && r == record_of::<T>(read)
    }

    /// What a flush of the database can come to.
    pub closed spec fn flush_outcome(&self, r: Result<(), Error>) -> bool {
        self.storage.flush_outcome(r)
    }

    /// The store on a database. `id` tells the database apart from others: two
    /// databases must not have the same.
    pub fn new(id: u64, storage: D) -> (s: Store<D>)
        requires
            storage.valid(),
        ensures
            s.valid(),
            s.storage_id() == id,
            s.reliable() == storage.reliable(),
            s.statistics() == storage.statistics(),
            forall|col: DBCol, key: Seq<u8>, r: Result<Option<Seq<u8>>, Error>| #[trigger]
                s.read_outcome(col, key, r) == storage.read_outcome(col, key, r),
            forall|ops: Seq<DBOpView>, r: Result<(), Error>| #[trigger]
                s.write_outcome(ops, r) == storage.write_outcome(ops, r),
            forall|r: Result<(), Error>| #[trigger]
                s.flush_outcome(r) == storage.flush_outcome(r),
            forall|col: DBCol| #[trigger] s.column(col) == storage.column(col),
    {
        Store { id, storage }
    }

    /// The value of a key. An error of the database is handed on.
    pub fn get(&self, column: DBCol, key: &[u8]) -> (r: Result<Option<Vec<u8>>, Error>)
        requires
            self.valid(),
        ensures
            self.get_outcome(column, key@, read_result(r)),
    {
        match self.storage.get_raw_bytes(column, key) {
            Ok(stored) => Ok(get_with_rc_logic(column, stored)),
            Err(e) => Err(e),
        }
    }

    /// The record under a key. An error of the database is handed on.
    pub fn get_ser<T: Borsh>(&self, column: DBCol, key: &[u8]) -> (r: Result<Option<T>, Error>)
        requires
            self.valid(),
        ensures
            self.get_ser_outcome::<T>(column, key@, record_result(r)),
    {
        let read = self.get(column, key);
        assert(self.get_outcome(column, key@, read_result(read)));
        match read {
            Ok(Some(bytes)) => match T::try_from_slice(bytes.as_slice()) {
                Ok(v) => Ok(Some(v)),
                Err(e) => Err(e),
            },
            Ok(None) => Ok(None),
            Err(e) => Err(e),
        }
    }

    /// Whether a key has a value. An error of the database is handed on.
    pub fn key_exists(&self, column: DBCol, key: &[u8]) -> (r: Result<bool, Error>)
        requires
            self.valid(),
        ensures
            self.exists_outcome(column, key@, r),
    {
        let read = self.get(column, key);
        assert(self.get_outcome(column, key@, read_result(read)));
        match read {
            Ok(value) => Ok(value.is_some()),
            Err(e) => Err(e),
        }
    }

    /// An update of this store, with no change in it.
    pub fn store_update(&self) -> (u: StoreUpdate)
        ensures
            u@ == (StoreUpdateView { storage: self.storage_id(), ops: Seq::empty(), tries: None }),
    {
        StoreUpdate::new(self.id)
    }

    /// All keys of a column with their values, in the order of the keys.
    pub fn iter(&self, column: DBCol) -> (r: Vec<(Vec<u8>, Vec<u8>)>)
        requires
            self.valid(),
        ensures
            lists(pairs(r@), self.entries(column)),
    {
        let empty: Vec<u8> = Vec::new();
        let r = self.iter_prefix(column, empty.as_slice());
        proof {
            assert forall|k: Seq<u8>| has_prefix(k, empty@) by {
                assert(k.take(0) =~= empty@);
            }
            assert(with_prefix(self.entries(column), empty@) =~= self.entries(column));
        }
        r
    }

    /// All that is stored in a column, in the order of the keys. In a
    /// reference counted column the count stands behind the value.
    ///
    /// This is for auxiliary code that works on the database directly.
    pub fn iter_raw_bytes(&self, column: DBCol) -> (r: Vec<(Vec<u8>, Vec<u8>)>)
        requires
            self.valid(),
        ensures
            lists(pairs(r@), self.column(column)),
    {
        self.storage.iter_raw_bytes(column)
    }

    /// The keys of a column that start with `key_prefix`, with their values, in
    /// the order of the keys.
    pub fn iter_prefix(&self, column: DBCol, key_prefix: &[u8]) -> (r: Vec<(Vec<u8>, Vec<u8>)>)
        requires
            self.valid(),
        ensures
            lists(pairs(r@), with_prefix(self.entries(column), key_prefix@)),
    {
        let stored = self.storage.iter_raw_bytes(column);
        let ghost m = self.column(column);
        let ghost target = with_prefix(self.entries(column), key_prefix@);
        let ghost all = pairs(stored@);
        let mut out: Vec<(Vec<u8>, Vec<u8>)> = Vec::new();
        let mut i: usize = 0;
        while i < stored.len()
            invariant
                i <= stored@.len(),
                all == pairs(stored@),
                lists(all, m),
                target == with_prefix(visible(column, m), key_prefix@),
                forall|a: int, b: int|
                    0 <= a < b < out@.len() ==> lex_lt(
                        (#[trigger] out@[a]).0@,
                        (#[trigger] out@[b]).0@,
                    ),
                forall|a: int, j: int|
                    0 <= a < out@.len() && i <= j < all.len() ==> lex_lt(
                        (#[trigger] out@[a]).0@,
                        (#[trigger] all[j]).0,
                    ),
                forall|a: int|
                    0 <= a < out@.len() ==> target.contains_key((#[trigger] out@[a]).0@)
                        && target[out@[a].0@] == out@[a].1@,
                forall|j: int|
                    0 <= j < i && target.contains_key((#[trigger] all[j]).0) ==> exists|a: int|
                        0 <= a < out@.len() && (#[trigger] out@[a]).0@ == all[j].0,
            decreases stored@.len() - i,
        {
            let ghost before = out@;
            let key = stored[i].0.as_slice();
            let ghost here = all[i as int];
            assert(here == (stored@[i as int].0@, stored@[i as int].1@));
            if starts_with(key, key_prefix) {
                let value = get_with_rc_logic(column, Some(copy_bytes(stored[i].1.as_slice())));
                if let Some(value) = value {
                    out.push((copy_bytes(key), value));
                }
            }
            proof {
                assert(m.contains_key(all[i as int].0));
                assert forall|j: int|
                    0 <= j < i + 1 && target.contains_key((#[trigger] all[j]).0) implies exists|
                    a: int,
                |
                    0 <= a < out@.len() && (#[trigger] out@[a]).0@ == all[j].0 by {
                    if j < i {
                        let a = choose|a: int|
                            0 <= a < before.len() && (#[trigger] before[a]).0@ == all[j].0;
                        assert(out@[a] == before[a]);
                    } else {
                        assert(out@[before.len() as int].0@ == all[j].0);
                    }
                }
            }
            i = i + 1;
        }
        proof {
            let s = pairs(out@);
            assert forall|k: Seq<u8>| #[trigger] target.contains_key(k) implies exists|a: int|
                0 <= a < s.len() && (#[trigger] s[a]).0 == k by {
                assert(m.contains_key(k));
                let j = choose|j: int| 0 <= j < all.len() && (#[trigger] all[j]).0 == k;
                let a = choose|a: int| 0 <= a < out@.len() && (#[trigger] out@[a]).0@ == all[j].0;
                assert(s[a].0 == k);
            }
        }
        out
    }

    /// The keys of a column that start with `key_prefix`, with their records, in
    /// the order of the keys. In place of a value that is no record stands an
    /// error.
    pub fn iter_prefix_ser<T: Borsh>(&self, column: DBCol, key_prefix: &[u8]) -> (r: Vec<
        Result<(Vec<u8>, T), Error>,
    >)
        requires
            self.valid(),
        ensures
            exists|s: Seq<(Seq<u8>, Seq<u8>)>| #[trigger]
                lists(s, with_prefix(self.entries(column), key_prefix@)) && s.len() == r@.len()
                    && forall|i: int|
                    0 <= i < s.len() ==> is_record::<T>(s[i], #[trigger] r@[i]),
    {
        let items = self.iter_prefix(column, key_prefix);
        let ghost s = pairs(items@);
        let mut out: Vec<Result<(Vec<u8>, T), Error>> = Vec::new();
        let mut i: usize = 0;
        while i < items.len()
            invariant
                i <= items@.len(),
                s == pairs(items@),
                out@.len() == i,
                forall|n: int| 0 <= n < i ==> is_record::<T>(s[n], #[trigger] out@[n]),
            decreases items@.len() - i,
        {
            let item = match T::try_from_slice(items[i].1.as_slice()) {
                Ok(v) => Ok((copy_bytes(items[i].0.as_slice()), v)),
                Err(e) => Err(e),
            };
            assert(s[i as int] == (items@[i as int].0@, items@[i as int].1@));
            out.push(item);
            i = i + 1;
        }
        out
    }

    /// The file form of a column, for [`Self::load_from_bytes`].
    pub fn save_to_bytes(&self, column: DBCol) -> (out: Vec<u8>)
        requires
            self.valid(),
        ensures
            exists|s: Seq<(Seq<u8>, Seq<u8>)>| #[trigger]
                lists(s, self.column(column)) && out@ == dump_encoding(s),
    {
        let entries = self.storage.iter_raw_bytes(column);
        assert(lists(pairs(entries@), self.column(column)));
        encode_dump(&entries)
    }

    /// Binds the keys that the file form of a column holds to their values. An
    /// error of the database is handed on.
    pub fn load_from_bytes(&mut self, column: DBCol, bytes: &[u8]) -> (r: Result<(), Error>)
        requires
            old(self).valid(),
        ensures
            final(self).valid(),
            final(self).storage_id() == old(self).storage_id(),
            final(self).reliable() == old(self).reliable(),
            dump_decoding(bytes@) is None ==> r == Err::<(), Error>(Error::UnexpectedEof),
            dump_decoding(bytes@) matches Some(entries) ==> old(self).write_outcome(
                put_ops(column, entries),
                r,
            ),
            dump_decoding(bytes@) is Some && old(self).reliable() ==> r is Ok,
            forall|col: DBCol|
                #![trigger final(self).column(col)]
                final(self).column(col) == (if r is Ok {
                    after_ops(
                        old(self).column(col),
                        col,
                        put_ops(column, dump_decoding(bytes@)->0),
                    )
                } else {
                    old(self).column(col)
                }),
    {
        let entries = match decode_dump(bytes) {
            Ok(entries) => entries,
            Err(e) => return Err(e),
        };
        let mut transaction = DBTransaction::new();
        let ghost s = pairs(entries@);
        let mut i: usize = 0;
        while i < entries.len()
            invariant
                i <= entries@.len(),
                s == pairs(entries@),
                transaction@ == put_ops(column, s).take(i as int),
            decreases entries@.len() - i,
        {
            transaction.set(
                column,
                copy_bytes(entries[i].0.as_slice()),
                copy_bytes(entries[i].1.as_slice()),
            );
            proof {
                assert(s[i as int] == (entries@[i as int].0@, entries@[i as int].1@));
                assert(transaction@ =~= put_ops(column, s).take(i + 1));
            }
            i = i + 1;
        }
        proof {
            assert(transaction@ =~= put_ops(column, s));
        }
        self.storage.write(transaction)
    }

    /// Brings what the database holds back in memory to where it is kept. The
    /// result is what the database makes of it.
    pub fn flush(&self) -> (r: Result<(), Error>)
        requires
            self.valid(),
        ensures
            self.flush_outcome(r),
            self.reliable() ==> r is Ok,
    {
        self.storage.flush()
    }

    /// The figures that the database keeps about itself.
    pub fn get_store_statistics(&self) -> (r: Option<StoreStatistics>)
        requires
            self.valid(),
        ensures
            r == self.statistics(),
    {
        self.storage.get_store_statistics()
    }
}

/// `r` is what is read from one entry: the key with its record, or the error
/// that the value is none.
pub open spec fn is_record<T: Borsh>(
    entry: (Seq<u8>, Seq<u8>),
    r: Result<(Vec<u8>, T), Error>,
) -> bool {
    match r {
        Ok((key, v)) => key@ == entry.0 && T::decoding(entry.1) == Some(v.model()),
        Err(e) => T::decoding(entry.1) is None && e == Error::Deserialization,
    }
}

/// A store on a database in memory, with nothing in it. `id` tells the database
/// apart from others: two stores must not have the same.
pub fn create_test_store(id: u64) -> (s: Store<TestDB>)
    ensures
        s.valid(),
        s.reliable(),
        s.statistics() is None,
        s.storage_id() == id,
        forall|col: DBCol| #[trigger] s.column(col) == Map::<Seq<u8>, Seq<u8>>::empty(),
{
    Store::new(id, TestDB::new())
}

/// What an update says.
pub struct StoreUpdateView {
    /// Which database it is for.
    pub storage: u64,
    /// The changes, in the order in which they are applied.
    pub ops: Seq<DBOpView>,
    /// The tries whose nodes in memory follow the changes.
    pub tries: Option<ShardTriesView>,
}

impl StoreUpdateView {
    /// The update with one more change.
    pub open spec fn push(self, op: DBOpView) -> StoreUpdateView {
        StoreUpdateView { ops: self.ops.push(op), ..self }
    }

    /// The update with another merged into it.
    pub open spec fn merge(self, other: StoreUpdateView) -> StoreUpdateView {
        StoreUpdateView {
            storage: self.storage,
            ops: self.ops + other.ops,
            tries: if self.tries is Some {
                self.tries
            } else {
                other.tries
            },
        }
    }

    /// The update may be committed to the database `storage`: it is for that
    /// database, its tries are on that database, and it does not overwrite
    /// itself.
    pub open spec fn committable(self, storage: u64) -> bool {
        &&& self.storage == storage
        &&& self.tries matches Some(t) ==> t.storage == self.storage
        &&& !overwrites_itself(self.ops)
    }

    /// The tries cannot follow the changes, so that a commit stops before
    /// anything is written.
    pub open spec fn stops(self) -> bool {
        self.tries is Some && !well_keyed(self.ops)
    }
}

/// Why a commit failed, with the tries of the update.
#[derive(Debug)]
pub struct CommitError {
    pub error: Error,
    pub tries: Option<ShardTries>,
}

/// The result of a commit without the tries.
pub open spec fn commit_result(r: Result<Option<ShardTries>, CommitError>) -> Result<(), Error> {
    match r {
        Ok(_) => Ok(()),
        Err(failure) => Err(failure.error),
    }
}

/// The tries that a commit hands back.
pub open spec fn returned_tries(r: Result<Option<ShardTries>, CommitError>) -> Option<
    ShardTriesView,
> {
    match r {
        Ok(tries) => opt_tries(tries),
        Err(failure) => opt_tries(failure.tries),
    }
}

/// Keeps track of changes to the store and can commit all of them.
pub struct StoreUpdate {
    storage: u64,
    transaction: DBTransaction,
    /// The tries whose nodes in memory follow the changes.
    tries: Option<ShardTries>,
}

impl View for StoreUpdate {
    type V = StoreUpdateView;

    closed spec fn view(&self) -> StoreUpdateView {
        StoreUpdateView {
            storage: self.storage,
            ops: self.transaction@,
            tries: match self.tries {
                Some(t) => Some(t@),
                None => None,
            },
        }
    }
}

/// What is committed to tries: the tries with the nodes in memory brought up
/// to the changes.
pub open spec fn committed_tries(u: StoreUpdateView) -> Option<ShardTriesView> {
    match u.tries {
        Some(t) => Some(
            ShardTriesView { cache: cache_after_ops(t.cache, u.ops), ..t },
        ),
        None => None,
    }
}

pub open spec fn opt_tries(t: Option<ShardTries>) -> Option<ShardTriesView> {
    match t {
        Some(t) => Some(t@),
        None => None,
    }
}

/// The name and the key of a change, for people to read.
pub open spec fn keyed_line(mark: Seq<char>, col: DBCol, key: Seq<u8>) -> Seq<char> {
    mark + col.name()@ + " "@ + base58(key) + "\n"@
}

/// One change, for people to read.
pub open spec fn op_line(op: DBOpView) -> Seq<char> {
    match op {
        DBOpView::Insert { col, key, .. } => keyed_line("  + "@, col, key),
        DBOpView::Put { col, key, .. } => keyed_line("  * "@, col, key),
        DBOpView::UpdateRefcount { col, key, .. } => keyed_line("  +- "@, col, key),
        DBOpView::Delete { col, key } => keyed_line("  - "@, col, key),
        DBOpView::DeleteAll { col } => "  delete all "@ + col.name()@ + "\n"@,
    }
}

pub open spec fn op_lines(ops: Seq<DBOpView>) -> Seq<char>
    decreases ops.len(),
{
    if ops.len() == 0 {
        Seq::empty()
    } else {
        op_lines(ops.drop_last()) + op_line(ops.last())
    }
}

impl StoreUpdate {
    /// An update of the database `storage`, with no change in it.
    pub fn new(storage: u64) -> (u: StoreUpdate)
        ensures
            u@ == (StoreUpdateView { storage, ops: Seq::empty(), tries: None }),
    {
        StoreUpdate { storage, transaction: DBTransaction::new(), tries: None }
    }

    /// An update of the database of some tries, whose nodes in memory follow
    /// the changes.
    pub fn new_with_tries(tries: ShardTries) -> (u: StoreUpdate)
        ensures
            u@ == (StoreUpdateView {
                storage: tries@.storage,
                ops: Seq::empty(),
                tries: Some(tries@),
            }),
    {
        StoreUpdate {
            storage: tries.storage_id(),
            transaction: DBTransaction::new(),
            tries: Some(tries),
        }
    }

    /// Inserts a new value into the database.
    ///
    /// It is a programming error if this overwrites an existing, different
    /// value. It is for insert-only columns.
    pub fn insert(&mut self, column: DBCol, key: &[u8], value: &[u8])
        requires
            column.is_insert_only(),
        ensures
            final(self)@ == old(self)@.push(
                DBOpView::Insert { col: column, key: key@, value: value@ },
            ),
    {
        self.transaction.insert(column, copy_bytes(key), copy_bytes(value));
    }

    /// Inserts a new record into the database, as [`Self::insert`] does.
    pub fn insert_ser<T: Borsh>(&mut self, column: DBCol, key: &[u8], value: &T) -> (r: Result<
        (),
        Error,
    >)
        requires
            column.is_insert_only(),
        ensures
            r == (if T::encodable(value.model()) {
                Ok::<(), Error>(())
            } else {
                Err(Error::Serialization)
            }),
            final(self)@ == (if r is Ok {
                old(self)@.push(
                    DBOpView::Insert { col: column, key: key@, value: T::encoding(value.model()) },
                )
            } else {
                old(self)@
            }),
    {
        match value.try_to_vec() {
            Ok(data) => {
                self.insert(column, key, data.as_slice());
                Ok(())
            },
            Err(e) => Err(e),
        }
    }

    /// Inserts a new reference counted value or increases its count if it is
    /// already there.
    ///
    /// It is a programming error to give another value than the one stored in
    /// the database.
    pub fn increment_refcount_by(&mut self, column: DBCol, key: &[u8], data: &[u8], increase: u32)
        requires
            column.is_rc(),
            increase > 0,
        ensures
            final(self)@ == old(self)@.push(
                DBOpView::UpdateRefcount {
                    col: column,
                    key: key@,
                    value: data@ + rc_bytes(increase as i64),
                },
            ),
    {
        let value = add_positive_refcount(data, increase);
        self.transaction.update_refcount(column, copy_bytes(key), value);
    }

    /// Same as `self.increment_refcount_by(column, key, data, 1)`.
    pub fn increment_refcount(&mut self, column: DBCol, key: &[u8], data: &[u8])
        requires
            column.is_rc(),
        ensures
            final(self)@ == old(self)@.push(
                DBOpView::UpdateRefcount { col: column, key: key@, value: data@ + rc_bytes(1) },
            ),
    {
        self.increment_refcount_by(column, key, data, 1);
    }

    /// Decreases the count of an existing reference counted value.
    ///
    /// A decrease is written without the data, so only the key and the amount
    /// are needed.
    pub fn decrement_refcount_by(&mut self, column: DBCol, key: &[u8], decrease: u32)
        requires
            column.is_rc(),
            decrease > 0,
        ensures
            final(self)@ == old(self)@.push(
                DBOpView::UpdateRefcount {
                    col: column,
                    key: key@,
                    value: rc_bytes((-decrease) as i64),
                },
            ),
    {
        let value = encode_negative_refcount(decrease);
        self.transaction.update_refcount(column, copy_bytes(key), value);
    }

    /// Same as `self.decrement_refcount_by(column, key, 1)`.
    pub fn decrement_refcount(&mut self, column: DBCol, key: &[u8])
        requires
            column.is_rc(),
        ensures
            final(self)@ == old(self)@.push(
                DBOpView::UpdateRefcount { col: column, key: key@, value: rc_bytes(-1i64) },
            ),
    {
        self.decrement_refcount_by(column, key, 1);
    }

    /// Modifies a value in the database.
    ///
    /// Must not be used for reference counted columns, whose counts
    /// [`Self::increment_refcount`] and [`Self::decrement_refcount`] change, nor
    /// for insert-only columns.
    pub fn set(&mut self, column: DBCol, key: &[u8], value: &[u8])
        requires
            !column.is_rc(),
            !column.is_insert_only(),
        ensures
            final(self)@ == old(self)@.push(
                DBOpView::Put { col: column, key: key@, value: value@ },
            ),
    {
        self.transaction.set(column, copy_bytes(key), copy_bytes(value));
    }

    /// Saves a record, as [`Self::set`] saves a value.
    pub fn set_ser<T: Borsh>(&mut self, column: DBCol, key: &[u8], value: &T) -> (r: Result<
        (),
        Error,
    >)
        requires
            !column.is_rc(),
            !column.is_insert_only(),
        ensures
            r == (if T::encodable(value.model()) {
                Ok::<(), Error>(())
            } else {
                Err(Error::Serialization)
            }),
            final(self)@ == (if r is Ok {
                old(self)@.push(
                    DBOpView::Put { col: column, key: key@, value: T::encoding(value.model()) },
                )
            } else {
                old(self)@
            }),
    {
        match value.try_to_vec() {
            Ok(data) => {
                self.set(column, key, data.as_slice());
                Ok(())
            },
            Err(e) => Err(e),
        }
    }

    /// Modifies what is stored in the database, without regard to reference
    /// counts.
    ///
    /// This is for auxiliary code that works on the database directly.
    pub fn set_raw_bytes(&mut self, column: DBCol, key: &[u8], value: &[u8])
        ensures
            final(self)@ == old(self)@.push(
                DBOpView::Put { col: column, key: key@, value: value@ },
            ),
    {
        self.transaction.set(column, copy_bytes(key), copy_bytes(value));
    }

    /// Deletes the given key from the database.
    ///
    /// Must not be used for reference counted columns.
    pub fn delete(&mut self, column: DBCol, key: &[u8])
        requires
            !column.is_rc(),
        ensures
            final(self)@ == old(self)@.push(DBOpView::Delete { col: column, key: key@ }),
    {
        self.transaction.delete(column, copy_bytes(key));
    }

    /// Deletes all keys of a column.
    pub fn delete_all(&mut self, column: DBCol)
        ensures
            final(self)@ == old(self)@.push(DBOpView::DeleteAll { col: column }),
    {
        self.transaction.delete_all(column);
    }

    /// Merges another update into this one: its changes come behind these. The
    /// tries of this update stay; an update without tries takes the other's.
    pub fn merge(&mut self, other: StoreUpdate)
        ensures
            final(self)@ == old(self)@.merge(other@),
            final(self)@.ops == old(self)@.ops + other@.ops,
    {
        let StoreUpdate { storage: _, transaction, tries } = other;
        if self.tries.is_none() {
            self.tries = tries;
        }
        self.transaction.merge(transaction);
    }

    /// Whether the tries of two updates are the same, where both have tries.
    /// Updates with different tries are not meant to be merged.
    pub fn tries_match(&self, other: &StoreUpdate) -> (r: bool)
        ensures
            r == (match (self@.tries, other@.tries) {
                (Some(mine), Some(theirs)) => mine.id == theirs.id,
                _ => true,
            }),
    {
        match (&self.tries, &other.tries) {
            (Some(mine), Some(theirs)) => mine.is_same(theirs),
            _ => true,
        }
    }

    /// Whether two changes of this update write the same key.
    pub fn overwrites_itself(&self) -> (r: bool)
        ensures
            r == overwrites_itself(self@.ops),
    {
        self.transaction.overwrites_itself()
    }

    /// The database that the update is for.
    pub fn storage_id(&self) -> (id: u64)
        ensures
            id == self@.storage,
    {
        self.storage
    }

    /// Whether the update has no tries, or tries on the database that it is for.
    pub fn tries_agree(&self) -> (r: bool)
        ensures
            r == (self@.tries matches Some(t) ==> t.storage == self@.storage),
    {
        match &self.tries {
            Some(t) => t.storage_id() == self.storage,
            None => true,
        }
    }

    /// Commits the changes to the store: all of them or none. The nodes that
    /// the tries keep in memory are brought up to the changes first, and the
    /// tries are handed back, also with an error. An error of the database is
    /// handed on.
    ///
    /// An update must not overwrite itself, and its tries have to be on the
    /// database that it is for.
    pub fn commit<D: Database>(self, store: &mut Store<D>) -> (r: Result<
        Option<ShardTries>,
        CommitError,
    >)
        requires
            old(store).valid(),
            self@.committable(old(store).storage_id()),
        ensures
            final(store).valid(),
            final(store).storage_id() == old(store).storage_id(),
            final(store).reliable() == old(store).reliable(),
            forall|col: DBCol|
                #![trigger final(store).column(col)]
                final(store).column(col) == (if r is Ok {
                    after_ops(old(store).column(col), col, self@.ops)
                } else {
                    old(store).column(col)
                }),
            self@.stops() ==> commit_result(r) == Err::<(), Error>(Error::MalformedStateKey)
                && returned_tries(r) == self@.tries,
            !self@.stops() ==> old(store).write_outcome(self@.ops, commit_result(r))
                && returned_tries(r) == committed_tries(self@),
            !self@.stops() && old(store).reliable() ==> r is Ok,
    {
        let StoreUpdate { storage: _, transaction, tries } = self;
        let tries = match tries {
            Some(t) => match t.update_cache(&transaction) {
                (t, Ok(())) => Some(t),
                (t, Err(error)) => return Err(CommitError { error, tries: Some(t) }),
            },
            None => None,
        };
        match store.storage.write(transaction) {
            Ok(done) => {
                assert(done == ());
                Ok(tries)
            },
            Err(error) => Err(CommitError { error, tries }),
        }
    }

    /// The changes of the update, for people to read: one line for each.
    pub fn to_text(&self) -> (text: String)
        ensures
            text@ == "Store Update {\n"@ + op_lines(self@.ops) + "}\n"@,
    {
        let mut text = String::new();
        text.append("Store Update {\n");
        let ghost head = "Store Update {\n"@;
        let ghost ops = self@.ops;
        let mut i: usize = 0;
        proof {
            assert(text@ =~= head + op_lines(ops.take(0)));
        }
        while i < self.transaction.ops.len()
            invariant
                i <= self.transaction.ops@.len(),
                ops == self.transaction@,
                text@ == head + op_lines(ops.take(i as int)),
            decreases self.transaction.ops@.len() - i,
        {
            let ghost before = text@;
            match &self.transaction.ops[i] {
                DBOp::Insert { col, key, .. } => {
                    append_keyed_line(&mut text, "  + ", *col, key.as_slice());
                },
                DBOp::Put { col, key, .. } => {
                    append_keyed_line(&mut text, "  * ", *col, key.as_slice());
                },
                DBOp::UpdateRefcount { col, key, .. } => {
                    append_keyed_line(&mut text, "  +- ", *col, key.as_slice());
                },
                DBOp::Delete { col, key } => {
                    append_keyed_line(&mut text, "  - ", *col, key.as_slice());
                },
                DBOp::DeleteAll { col } => {
                    text.append("  delete all ");
                    text.append(col.name());
                    text.append("\n");
                },
            }
            proof {
                let op = self.transaction.ops@[i as int]@;
                assert(text@ =~= before + op_line(op));
                assert(ops.take(i + 1).drop_last() =~= ops.take(i as int));
                assert(ops.take(i + 1).last() == op);
                assert(text@ =~= head + op_lines(ops.take(i + 1)));
            }
            i = i + 1;
        }
        proof {
            assert(ops.take(i as int) =~= ops);
        }
        text.append("}\n");
        text
    }
}

fn append_keyed_line(text: &mut String, mark: &str, col: DBCol, key: &[u8])
    ensures
        final(text)@ == old(text)@ + keyed_line(mark@, col, key@),
{
    text.append(mark);
    text.append(col.name());
    text.append(" ");
    let shown = to_base(key);
    text.append(shown.as_str());
    text.append("\n");
    proof {
        assert(text@ =~= old(text)@ + keyed_line(mark@, col, key@));
    }
}

} // verus!
