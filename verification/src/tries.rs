//! The tries of the shards, as far as a write to the store concerns them: the
//! nodes that they keep in memory.

use vstd::prelude::*;

use crate::bytes::copy_bytes;
use crate::columns::DBCol;
use crate::error::Error;
use crate::refcount::{decode_value_with_rc, decoded};
use crate::table::Table;
use crate::transaction::{DBOp, DBOpView, DBTransaction};

verus! {

/// A trie node of this size or more is not kept in memory.
pub const TRIE_LIMIT_CACHED_VALUE_SIZE: usize = 1000;

/// The length of a key of the state column: a shard identifier of eight bytes
/// and a hash of 32 bytes.
pub const STATE_KEY_LEN: usize = 40;

/// The nodes in memory after one change.
pub open spec fn cache_after_op(cache: Map<Seq<u8>, Seq<u8>>, op: DBOpView) -> Map<
    Seq<u8>,
    Seq<u8>,
> {
    if op.column() != DBCol::State {
        cache
    } else {
        match op {
            DBOpView::UpdateRefcount { key, value, .. } => match decoded(value).0 {
                Some(data) => if data.len() < TRIE_LIMIT_CACHED_VALUE_SIZE {
                    cache.insert(key, data)
                } else {
                    cache
                },
                None => cache.remove(key),
            },
            DBOpView::Put { key, .. } => cache.remove(key),
            DBOpView::Insert { key, .. } => cache.remove(key),
            DBOpView::Delete { key, .. } => cache.remove(key),
            DBOpView::DeleteAll { .. } => Map::empty(),
        }
    }
}

/// The nodes in memory after all changes in turn.
pub open spec fn cache_after_ops(cache: Map<Seq<u8>, Seq<u8>>, ops: Seq<DBOpView>) -> Map<
    Seq<u8>,
    Seq<u8>,
>
    decreases ops.len(),
{
    if ops.len() == 0 {
        cache
    } else {
        cache_after_op(cache_after_ops(cache, ops.drop_last()), ops.last())
    }
}

/// The change is to the count of a node whose key is none of the state column.
pub open spec fn is_malformed(op: DBOpView) -> bool {
    op matches DBOpView::UpdateRefcount { col, key, .. } && col == DBCol::State && key.len()
        != STATE_KEY_LEN
}

/// No change is to a node whose key is none of the state column.
pub open spec fn well_keyed(ops: Seq<DBOpView>) -> bool {
    forall|i: int| 0 <= i < ops.len() ==> !is_malformed(#[trigger] ops[i])
}

/// What can be told of some tries.
pub struct ShardTriesView {
    /// Which tries they are.
    pub id: u64,
    /// Which database they are read from.
    pub storage: u64,
    /// The nodes in memory.
    pub cache: Map<Seq<u8>, Seq<u8>>,
}

/// The tries of the shards.
#[derive(Debug)]
pub struct ShardTries {
    id: u64,
    storage: u64,
    cache: Table<Vec<u8>>,
}

impl View for ShardTries {
    type V = ShardTriesView;

    closed spec fn view(&self) -> ShardTriesView {
        ShardTriesView {
            id: self.id,
            storage: self.storage,
            cache: self.cache@.map_values(|v: Vec<u8>| v@),
        }
    }
}

impl ShardTries {
    #[verifier::type_invariant]
    spec fn ordered(self) -> bool {
        self.cache.valid()
    }

    /// Tries on the database `storage`, with no node in memory.
    pub fn new(id: u64, storage: u64) -> (t: ShardTries)
        ensures
            t@ == (ShardTriesView { id, storage, cache: Map::empty() }),
    {
        let t = ShardTries { id, storage, cache: Table::new() };
        proof {
            assert(t@.cache =~= Map::<Seq<u8>, Seq<u8>>::empty());
        }
        t
    }

    /// The database that the tries are read from.
    pub fn storage_id(&self) -> (id: u64)
        ensures
            id == self@.storage,
    {
        self.storage
    }

    /// Whether these are the same tries.
    pub fn is_same(&self, other: &ShardTries) -> (r: bool)
        ensures
            r == (self@.id == other@.id),
    {
        self.id == other.id
    }

    /// The node under a key of the state column, if it is in memory.
    pub fn cached(&self, key: &[u8]) -> (r: Option<Vec<u8>>)
        ensures
            crate::bytes::opt_bytes(r) == self@.cache.get(key@),
    {
        proof {
            use_type_invariant(self);
        }
        match self.cache.get(key) {
            Some(v) => Some(copy_bytes(v.as_slice())),
            None => None,
        }
    }

    fn check_keys(transaction: &DBTransaction) -> (r: bool)
        ensures
            r == well_keyed(transaction@),
    {
        let mut i: usize = 0;
        while i < transaction.ops.len()
            invariant
                i <= transaction.ops@.len(),
                forall|n: int| 0 <= n < i ==> !is_malformed(#[trigger] transaction@[n]),
            decreases transaction.ops@.len() - i,
        {
            if let DBOp::UpdateRefcount { col, key, .. } = &transaction.ops[i] {
                if *col == DBCol::State && key.len() != STATE_KEY_LEN {
                    proof {
                        assert(is_malformed(transaction@[i as int]));
                    }
                    return false;
                }
            }
            i = i + 1;
        }
        true
    }

    /// Brings the nodes in memory up to the changes of a transaction. On an error
    /// the tries come back as they were.
    pub fn update_cache(self, transaction: &DBTransaction) -> (r: (ShardTries, Result<(), Error>))
        ensures
            match r.1 {
                Ok(()) => well_keyed(transaction@) && r.0@ == (ShardTriesView {
                    cache: cache_after_ops(self@.cache, transaction@),
                    ..self@
                }),
                Err(e) => !well_keyed(transaction@) && e == Error::MalformedStateKey && r.0@
                    == self@,
            },
    {
        if !Self::check_keys(transaction) {
            return (self, Err(Error::MalformedStateKey));
        }
        proof {
            use_type_invariant(&self);
        }
        let ghost start = self@.cache;
        let ghost ops = transaction@;
        let ShardTries { id, storage, mut cache } = self;
        let mut i: usize = 0;
        while i < transaction.ops.len()
            invariant
                i <= transaction.ops@.len(),
                ops == transaction@,
                cache.valid(),
                cache@.map_values(|v: Vec<u8>| v@) == cache_after_ops(start, ops.take(i as int)),
            decreases transaction.ops@.len() - i,
        {
            let ghost before = cache@.map_values(|v: Vec<u8>| v@);
            match &transaction.ops[i] {
                DBOp::UpdateRefcount { col, key, value } => {
                    if *col == DBCol::State {
                        match decode_value_with_rc(value.as_slice()).0 {
                            Some(data) => {
                                if data.len() < TRIE_LIMIT_CACHED_VALUE_SIZE {
                                    cache.insert(copy_bytes(key.as_slice()), data);
                                }
                            },
                            None => {
                                cache.remove(key.as_slice());
                            },
                        }
                    }
                },
                DBOp::Put { col, key, .. } => {
                    if *col == DBCol::State {
                        cache.remove(key.as_slice());
                    }
                },
                DBOp::Insert { col, key, .. } => {
                    if *col == DBCol::State {
                        cache.remove(key.as_slice());
                    }
                },
                DBOp::Delete { col, key } => {
                    if *col == DBCol::State {
                        cache.remove(key.as_slice());
                    }
                },
                DBOp::DeleteAll { col } => {
                    if *col == DBCol::State {
                        cache.clear();
                    }
                },
            }
            proof {
                let op = transaction.ops@[i as int]@;
                assert(ops.take(i + 1).drop_last() =~= ops.take(i as int));
                assert(ops.take(i + 1).last() == op);
                assert(cache@.map_values(|v: Vec<u8>| v@) =~= cache_after_op(before, op));
            }
            i = i + 1;
        }
        proof {
            assert(ops.take(i as int) =~= ops);
        }
        (ShardTries { id, storage, cache }, Ok(()))
    }
}

} // verus!
