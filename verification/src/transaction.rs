//! Changes to the database, kept in the order in which they are applied.

use vstd::prelude::*;

use crate::bytes::copy_bytes;
use crate::columns::DBCol;
use crate::refcount::merged;
use crate::table::Table;

verus! {

/// One change to the database.
#[derive(Debug)]
pub enum DBOp {
    /// Binds a key to a value.
    Put { col: DBCol, key: Vec<u8>, value: Vec<u8> },
    /// Binds a key that is bound to nothing, or to the same value already.
    Insert { col: DBCol, key: Vec<u8>, value: Vec<u8> },
    /// Changes the count of a reference counted value.
    UpdateRefcount { col: DBCol, key: Vec<u8>, value: Vec<u8> },
    /// Takes a key out.
    Delete { col: DBCol, key: Vec<u8> },
    /// Takes all keys of a column out.
    DeleteAll { col: DBCol },
}

/// The content of a [`DBOp`].
pub enum DBOpView {
    Put { col: DBCol, key: Seq<u8>, value: Seq<u8> },
    Insert { col: DBCol, key: Seq<u8>, value: Seq<u8> },
    UpdateRefcount { col: DBCol, key: Seq<u8>, value: Seq<u8> },
    Delete { col: DBCol, key: Seq<u8> },
    DeleteAll { col: DBCol },
}

impl View for DBOp {
    type V = DBOpView;

    open spec fn view(&self) -> DBOpView {
        match self {
            DBOp::Put { col, key, value } => DBOpView::Put { col: *col, key: key@, value: value@ },
            DBOp::Insert { col, key, value } => DBOpView::Insert {
                col: *col,
                key: key@,
                value: value@,
            },
            DBOp::UpdateRefcount { col, key, value } => DBOpView::UpdateRefcount {
                col: *col,
                key: key@,
                value: value@,
            },
            DBOp::Delete { col, key } => DBOpView::Delete { col: *col, key: key@ },
            DBOp::DeleteAll { col } => DBOpView::DeleteAll { col: *col },
        }
    }
}

impl DBOpView {
    /// The column that the change is about.
    pub open spec fn column(self) -> DBCol {
        match self {
            DBOpView::Put { col, .. } => col,
            DBOpView::Insert { col, .. } => col,
            DBOpView::UpdateRefcount { col, .. } => col,
            DBOpView::Delete { col, .. } => col,
            DBOpView::DeleteAll { col } => col,
        }
    }

    /// The key that the change writes without regard to what was there:
    /// every key but that of a change of a reference count.
    pub open spec fn non_refcount_key(self) -> Option<(DBCol, Seq<u8>)> {
        match self {
            DBOpView::Put { col, key, .. } => Some((col, key)),
            DBOpView::Insert { col, key, .. } => Some((col, key)),
            DBOpView::Delete { col, key } => Some((col, key)),
            DBOpView::UpdateRefcount { .. } => None,
            DBOpView::DeleteAll { .. } => None,
        }
    }
}

/// What is stored in `col` after one change, where `m` was stored before.
pub open spec fn after_op(m: Map<Seq<u8>, Seq<u8>>, col: DBCol, op: DBOpView) -> Map<
    Seq<u8>,
    Seq<u8>,
> {
    if op.column() != col {
        m
    } else {
        match op {
            DBOpView::Put { key, value, .. } => m.insert(key, value),
            DBOpView::Insert { key, value, .. } => m.insert(key, value),
            DBOpView::UpdateRefcount { key, value, .. } => {
                let existing = if m.contains_key(key) {
                    Some(m[key])
                } else {
                    None
                };
                match merged(existing, value) {
                    Some(stored) => m.insert(key, stored),
                    None => m.remove(key),
                }
            },
            DBOpView::Delete { key, .. } => m.remove(key),
            DBOpView::DeleteAll { .. } => Map::empty(),
        }
    }
}

/// What is stored in `col` after all changes in turn.
pub open spec fn after_ops(m: Map<Seq<u8>, Seq<u8>>, col: DBCol, ops: Seq<DBOpView>) -> Map<
    Seq<u8>,
    Seq<u8>,
>
    decreases ops.len(),
{
    if ops.len() == 0 {
        m
    } else {
        after_op(after_ops(m, col, ops.drop_last()), col, ops.last())
    }
}

/// Two of the changes write the same key: the later one overwrites the
/// earlier.
pub open spec fn overwrites_itself(ops: Seq<DBOpView>) -> bool {
    exists|i: int, j: int|
        0 <= i < j < ops.len() && (#[trigger] ops[i].non_refcount_key()) is Some
            && ops[i].non_refcount_key() == #[trigger] ops[j].non_refcount_key()
}

/// The changes of one transaction.
#[derive(Debug)]
pub struct DBTransaction {
    pub ops: Vec<DBOp>,
}

impl View for DBTransaction {
    type V = Seq<DBOpView>;

    open spec fn view(&self) -> Seq<DBOpView> {
        self.ops@.map_values(|op: DBOp| op@)
    }
}

impl DBTransaction {
    pub fn new() -> (t: Self)
        ensures
            t@ == Seq::<DBOpView>::empty(),
    {
        let t = DBTransaction { ops: Vec::new() };
        proof {
            assert(t@ =~= Seq::<DBOpView>::empty());
        }
        t
    }

    fn push(&mut self, op: DBOp)
        ensures
            final(self)@ == old(self)@.push(op@),
    {
        self.ops.push(op);
        proof {
            assert(self@ =~= old(self)@.push(op@));
        }
    }

    pub fn set(&mut self, col: DBCol, key: Vec<u8>, value: Vec<u8>)
        ensures
            final(self)@ == old(self)@.push(DBOpView::Put { col, key: key@, value: value@ }),
    {
        self.push(DBOp::Put { col, key, value });
    }

    pub fn insert(&mut self, col: DBCol, key: Vec<u8>, value: Vec<u8>)
        ensures
            final(self)@ == old(self)@.push(DBOpView::Insert { col, key: key@, value: value@ }),
    {
        self.push(DBOp::Insert { col, key, value });
    }

    pub fn update_refcount(&mut self, col: DBCol, key: Vec<u8>, value: Vec<u8>)
        ensures
            final(self)@ == old(self)@.push(
                DBOpView::UpdateRefcount { col, key: key@, value: value@ },
            ),
    {
        self.push(DBOp::UpdateRefcount { col, key, value });
    }

    pub fn delete(&mut self, col: DBCol, key: Vec<u8>)
        ensures
            final(self)@ == old(self)@.push(DBOpView::Delete { col, key: key@ }),
    {
        self.push(DBOp::Delete { col, key });
    }

    pub fn delete_all(&mut self, col: DBCol)
        ensures
            final(self)@ == old(self)@.push(DBOpView::DeleteAll { col }),
    {
        self.push(DBOp::DeleteAll { col });
    }

    /// Puts the changes of `other` behind these.
    pub fn merge(&mut self, other: DBTransaction)
        ensures
            final(self)@ == old(self)@ + other@,
    {
        let mut other = other;
        let ghost theirs = other@;
        self.ops.append(&mut other.ops);
        proof {
            assert(self@ =~= old(self)@ + theirs);
        }
    }

    /// Whether two changes write the same key. Changes of reference counts add
    /// up instead, and do not count.
    pub fn overwrites_itself(&self) -> (r: bool)
        ensures
            r == overwrites_itself(self@),
    {
        let mut seen: Table<()> = Table::new();
        let mut i: usize = 0;
        while i < self.ops.len()
            invariant
                i <= self.ops@.len(),
                seen.valid(),
                forall|k: Seq<u8>| #[trigger]
                    seen@.contains_key(k) <==> exists|n: int|
                        0 <= n < i && #[trigger] seen_key(self@[n]) == Some(k),
                !overwrites_itself(self@.take(i as int)),
            decreases self.ops@.len() - i,
        {
            let ghost now = self@[i as int];
            let ghost before = seen@;
            let keyed: Option<Vec<u8>> = match &self.ops[i] {
                DBOp::Put { col, key, .. } => Some(column_key(*col, key.as_slice())),
                DBOp::Insert { col, key, .. } => Some(column_key(*col, key.as_slice())),
                DBOp::Delete { col, key } => Some(column_key(*col, key.as_slice())),
                DBOp::UpdateRefcount { .. } => None,
                DBOp::DeleteAll { .. } => None,
            };
            proof {
                assert(crate::bytes::opt_bytes(keyed) == seen_key(now));
                assert(self@.take(i + 1).drop_last() =~= self@.take(i as int));
            }
            if let Some(k) = keyed {
                if seen.contains(k.as_slice()) {
                    proof {
                        let n = choose|n: int|
                            0 <= n < i && #[trigger] seen_key(self@[n]) == Some(k@);
                        lemma_seen_key_injective(self@[n], now);
                        assert(self@[n].non_refcount_key() is Some);
                        assert(self@[n].non_refcount_key() == self@[i as int].non_refcount_key());
                    }
                    return true;
                }
                let ghost kv = k@;
                seen.insert(k, ());
                proof {
                    assert forall|q: Seq<u8>| #[trigger]
                        seen@.contains_key(q) <==> exists|n: int|
                            0 <= n < i + 1 && #[trigger] seen_key(self@[n]) == Some(q) by {
                        if q == kv {
                            assert(seen_key(self@[i as int]) == Some(q));
                        } else if before.contains_key(q) {
                            let n = choose|n: int|
                                0 <= n < i && #[trigger] seen_key(self@[n]) == Some(q);
                            assert(0 <= n < i + 1 && seen_key(self@[n]) == Some(q));
                        }
                    }
                }
            }
            proof {
                let upto = self@.take(i + 1);
                if overwrites_itself(upto) {
                    let (a, b) = choose|a: int, b: int|
                        0 <= a < b < upto.len() && (#[trigger] upto[a].non_refcount_key()) is Some
                            && upto[a].non_refcount_key() == #[trigger] upto[b].non_refcount_key();
                    let prev = self@.take(i as int);
                    if b < i {
                        assert(prev[a].non_refcount_key() is Some);
                        assert(prev[a].non_refcount_key() == prev[b].non_refcount_key());
                        assert(overwrites_itself(prev));
                    } else {
                        assert(upto[b] == now);
                        assert(seen_key(self@[a]) == seen_key(now));
                        assert(before.contains_key(seen_key(now)->0));
                    }
                }
            }
            i = i + 1;
        }
        proof {
            assert(self@.take(i as int) =~= self@);
        }
        false
    }
}

/// A key with its column in front, so that keys of different columns differ.
spec fn with_column(col: DBCol, key: Seq<u8>) -> Seq<u8> {
    seq![col.position() as u8] + key
}

spec fn seen_key(op: DBOpView) -> Option<Seq<u8>> {
    match op.non_refcount_key() {
        Some((col, key)) => Some(with_column(col, key)),
        None => None,
    }
}

proof fn lemma_seen_key_injective(a: DBOpView, b: DBOpView)
    requires
        seen_key(a) is Some,
        seen_key(a) == seen_key(b),
    ensures
        a.non_refcount_key() == b.non_refcount_key(),
{
    let (ca, ka) = a.non_refcount_key()->0;
    let (cb, kb) = b.non_refcount_key()->0;
    ca.lemma_position();
    cb.lemma_position();
    assert(with_column(ca, ka)[0] == with_column(cb, kb)[0]);
    assert(ka =~= with_column(ca, ka).skip(1));
    assert(kb =~= with_column(cb, kb).skip(1));
}

fn column_key(col: DBCol, key: &[u8]) -> (out: Vec<u8>)
    ensures
        out@ == with_column(col, key@),
{
    let mut out: Vec<u8> = Vec::new();
    out.push(col.index() as u8);
    let mut rest = copy_bytes(key);
    out.append(&mut rest);
    proof {
        assert(out@ =~= with_column(col, key@));
    }
    out
}

} // verus!
