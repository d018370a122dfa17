//! What the operations of the store are for, each said of its inputs and
//! results alone.

use vstd::prelude::*;

use crate::bytes::{has_prefix, lex_lt, opt_bytes};
use crate::codec::Borsh;
use crate::columns::DBCol;
use crate::database::{lists, pairs, read_result, Database};
use crate::error::Error;
use crate::laws::{law_merge_is_in_turn, law_one_listing};
use crate::refcount::{
    decoded, lemma_decoded_counted, merged, rc_bytes, visible, visible_value,
};
use crate::store::{
    commit_result, committed_tries, is_record, opt_tries, record_result, returned_tries,
    with_prefix, CommitError, Store, StoreUpdateView,
};
use crate::transaction::{after_ops, overwrites_itself, DBOp, DBOpView, DBTransaction};
use crate::tries::{cache_after_ops, ShardTries, ShardTriesView};

verus! {

proof fn lemma_one_more(m: Map<Seq<u8>, Seq<u8>>, col: DBCol, ops: Seq<DBOpView>, op: DBOpView)
    ensures
        after_ops(m, col, ops.push(op)) == crate::transaction::after_op(
            after_ops(m, col, ops),
            col,
            op,
        ),
{
    assert(ops.push(op).drop_last() =~= ops);
}

/// Without a change everything stays.
pub proof fn law_no_change(m: Map<Seq<u8>, Seq<u8>>, col: DBCol)
    ensures
        after_ops(m, col, Seq::empty()) == m,
{
}

/// A change to one column leaves every other as it is.
pub proof fn law_columns_are_apart(
    m: Map<Seq<u8>, Seq<u8>>,
    col: DBCol,
    other: DBCol,
    ops: Seq<DBOpView>,
    key: Seq<u8>,
    value: Seq<u8>,
)
    requires
        other != col,
    ensures
        after_ops(m, col, ops.push(DBOpView::Put { col: other, key, value })) == after_ops(
            m,
            col,
            ops,
        ),
        after_ops(m, col, ops.push(DBOpView::Insert { col: other, key, value })) == after_ops(
            m,
            col,
            ops,
        ),
        after_ops(m, col, ops.push(DBOpView::UpdateRefcount { col: other, key, value }))
            == after_ops(m, col, ops),
        after_ops(m, col, ops.push(DBOpView::Delete { col: other, key })) == after_ops(
            m,
            col,
            ops,
        ),
        after_ops(m, col, ops.push(DBOpView::DeleteAll { col: other })) == after_ops(m, col, ops),
{
    lemma_one_more(m, col, ops, DBOpView::Put { col: other, key, value });
    lemma_one_more(m, col, ops, DBOpView::Insert { col: other, key, value });
    lemma_one_more(m, col, ops, DBOpView::UpdateRefcount { col: other, key, value });
    lemma_one_more(m, col, ops, DBOpView::Delete { col: other, key });
    lemma_one_more(m, col, ops, DBOpView::DeleteAll { col: other });
}

/// One more change binds or frees its key, and leaves the other keys as they
/// are. Only the deletion of the column frees all keys.
pub proof fn law_one_more_change(
    m: Map<Seq<u8>, Seq<u8>>,
    col: DBCol,
    ops: Seq<DBOpView>,
    key: Seq<u8>,
    value: Seq<u8>,
)
    ensures
        after_ops(m, col, ops.push(DBOpView::Put { col, key, value })) == after_ops(
            m,
            col,
            ops,
        ).insert(key, value),
        after_ops(m, col, ops.push(DBOpView::Insert { col, key, value })) == after_ops(
            m,
            col,
            ops,
        ).insert(key, value),
        after_ops(m, col, ops.push(DBOpView::Delete { col, key })) == after_ops(
            m,
            col,
            ops,
        ).remove(key),
        after_ops(m, col, ops.push(DBOpView::DeleteAll { col })) == Map::<
            Seq<u8>,
            Seq<u8>,
        >::empty(),
        forall|k: Seq<u8>|
            k != key ==> #[trigger] after_ops(
                m,
                col,
                ops.push(DBOpView::UpdateRefcount { col, key, value }),
            ).get(k) == after_ops(m, col, ops).get(k),
        after_ops(m, col, ops.push(DBOpView::UpdateRefcount { col, key, value })).get(key)
            == merged(after_ops(m, col, ops).get(key), value),
{
    lemma_one_more(m, col, ops, DBOpView::Put { col, key, value });
    lemma_one_more(m, col, ops, DBOpView::Insert { col, key, value });
    lemma_one_more(m, col, ops, DBOpView::UpdateRefcount { col, key, value });
    lemma_one_more(m, col, ops, DBOpView::Delete { col, key });
    lemma_one_more(m, col, ops, DBOpView::DeleteAll { col });
}

/// What is stored under a counted key after one more change of the count: the
/// sum of both counts, with the data that was there or else with that of the
/// change; without data where the sum is negative, and nothing where it is zero.
pub proof fn law_one_more_count(
    m: Map<Seq<u8>, Seq<u8>>,
    col: DBCol,
    ops: Seq<DBOpView>,
    key: Seq<u8>,
    held: Seq<u8>,
    count: i64,
    data: Seq<u8>,
    n: i64,
)
    requires
        i64::MIN <= count + n <= i64::MAX,
        count > 0 ==> after_ops(m, col, ops).get(key) == Some(held + rc_bytes(count)),
        count == 0 ==> after_ops(m, col, ops).get(key) is None,
        count < 0 ==> after_ops(m, col, ops).get(key) == Some(rc_bytes(count)),
    ensures
        ({
            let sum = (count + n) as i64;
            let up = after_ops(
                m,
                col,
                ops.push(DBOpView::UpdateRefcount { col, key, value: data + rc_bytes(n) }),
            ).get(key);
            let down = after_ops(
                m,
                col,
                ops.push(DBOpView::UpdateRefcount { col, key, value: rc_bytes(n) }),
            ).get(key);
            &&& n > 0 && count > 0 ==> up == Some(held + rc_bytes(sum))
            &&& n > 0 && count <= 0 && sum > 0 ==> up == Some(data + rc_bytes(sum))
            &&& n > 0 && sum == 0 ==> up is None
            &&& n > 0 && sum < 0 ==> up == Some(rc_bytes(sum))
            &&& n < 0 && sum > 0 ==> down == Some(held + rc_bytes(sum))
            &&& n < 0 && sum == 0 ==> down is None
            &&& n < 0 && sum < 0 ==> down == Some(rc_bytes(sum))
        }),
{
    lemma_one_more(m, col, ops, DBOpView::UpdateRefcount { col, key, value: data + rc_bytes(n) });
    lemma_one_more(m, col, ops, DBOpView::UpdateRefcount { col, key, value: rc_bytes(n) });
    lemma_decoded_counted(held, count);
    lemma_decoded_counted(data, n);
    assert(count.wrapping_add(n) == count + n);
    let before = after_ops(m, col, ops);
    let rc = match before.get(key) {
        Some(bytes) => decoded(bytes).1,
        None => 0,
    };
    assert(rc == count);
}

/// A reader of a column sees what is stored where the column has no counts.
/// Where it has, the reader sees the data of a positive count, and nothing of
/// a count that is not positive or of fewer bytes than a count has.
pub proof fn law_what_a_reader_sees(
    m: Map<Seq<u8>, Seq<u8>>,
    col: DBCol,
    key: Seq<u8>,
    data: Seq<u8>,
    count: i64,
)
    ensures
        !col.is_rc() ==> visible(col, m) == m,
        m.get(key) is None ==> visible(col, m).get(key) is None,
        col.is_rc() && m.get(key) == Some(data + rc_bytes(count)) ==> visible(col, m).get(key) == (
        if count > 0 {
            Some(data)
        } else {
            None
        }),
        col.is_rc() && (m.get(key) matches Some(bytes) && bytes.len() < 8) ==> visible(
            col,
            m,
        ).get(key) is None,
{
    if !col.is_rc() {
        assert(visible(col, m) =~= m);
    }
    lemma_decoded_counted(data, count);
    crate::refcount::lemma_rc_round_trip(count);
    let b = data + rc_bytes(count);
    assert(b.skip(b.len() - 8) =~= rc_bytes(count));
}

/// Any eight bytes are those of a count, so that every stored value of eight
/// bytes or more is data and a count.
pub proof fn law_every_count_is_read(bytes: Seq<u8>)
    requires
        bytes.len() >= 8,
    ensures
        exists|count: i64|
            bytes == bytes.take(bytes.len() - 8) + #[trigger] rc_bytes(count),
{
    let tail = bytes.skip(bytes.len() - 8);
    crate::bytes::lemma_le_bytes_of_value(tail);
    crate::bytes::lemma_le_limits();
    let count = crate::refcount::rc_value(tail);
    assert(rc_bytes(count) == tail);
    assert(bytes =~= bytes.take(bytes.len() - 8) + rc_bytes(count));
}

/// What a reader sees of one stored value, and how a stored value is taken
/// apart.
pub proof fn law_stored_value(col: DBCol, bytes: Seq<u8>, data: Seq<u8>, count: i64)
    ensures
        !col.is_rc() ==> visible_value(col, bytes) == Some(bytes),
        col.is_rc() && count > 0 ==> visible_value(col, data + rc_bytes(count)) == Some(data),
        col.is_rc() && count <= 0 ==> visible_value(col, data + rc_bytes(count)) is None,
        col.is_rc() && bytes.len() < 8 ==> visible_value(col, bytes) is None,
        count > 0 ==> decoded(data + rc_bytes(count)) == (Some(data), count),
        count <= 0 ==> decoded(data + rc_bytes(count)) == (None::<Seq<u8>>, count),
        bytes.len() < 8 ==> decoded(bytes) == (None::<Seq<u8>>, 0i64),
{
    lemma_decoded_counted(data, count);
    crate::refcount::lemma_rc_round_trip(count);
    let b = data + rc_bytes(count);
    assert(b.skip(b.len() - 8) =~= rc_bytes(count));
}

/// The entries that are listed are those that a reader sees.
pub proof fn law_entries<D: Database>(store: Store<D>, col: DBCol)
    ensures
        store.entries(col) == visible(col, store.column(col)),
{
}

/// A read gives what the reader sees, or the error of the read from the
/// database. A database that does not fail gives no error.
pub proof fn law_get<D: Database>(
    store: Store<D>,
    col: DBCol,
    key: Seq<u8>,
    r: Result<Option<Seq<u8>>, Error>,
)
    ensures
        store.get_outcome(col, key, r) ==> match r {
            Ok(value) => value == visible(col, store.column(col)).get(key),
            Err(e) => store.read_outcome(col, key, Err(e)) && !store.reliable(),
        },
        r == Ok::<Option<Seq<u8>>, Error>(visible(col, store.column(col)).get(key))
            && store.read_outcome(col, key, Ok(store.column(col).get(key))) ==> store.get_outcome(
            col,
            key,
            r,
        ),
{
}

/// A key exists where a reader sees a value under it, and nowhere else. Errors
/// are those of the read from the database.
pub proof fn law_exists<D: Database>(
    store: Store<D>,
    col: DBCol,
    key: Seq<u8>,
    r: Result<bool, Error>,
)
    requires
        store.exists_outcome(col, key, r),
    ensures
        match r {
            Ok(there) => there <==> visible(col, store.column(col)).contains_key(key),
            Err(e) => store.read_outcome(col, key, Err(e)) && !store.reliable(),
        },
{
}

/// A record that is read is the one that the bytes under the key are decoded
/// to. None is read only where the key has no value, and an error comes only
/// from bytes that are no record or from the database.
pub proof fn law_get_ser<T: Borsh, D: Database>(
    store: Store<D>,
    col: DBCol,
    key: Seq<u8>,
    r: Result<Option<T::Model>, Error>,
)
    requires
        store.get_ser_outcome::<T>(col, key, r),
    ensures
        match (r, visible(col, store.column(col)).get(key)) {
            (Ok(None), seen) => seen is None,
            (Ok(Some(m)), seen) => seen matches Some(bytes) && T::decoding(bytes) == Some(m),
            (Err(e), seen) => {
                ||| seen matches Some(bytes) && T::decoding(bytes) is None && e
                    == Error::Deserialization
                ||| store.read_outcome(col, key, Err(e)) && !store.reliable()
            },
        },
        visible(col, store.column(col)).get(key) matches Some(bytes) && T::decoding(
            bytes,
        ) is Some && r is Ok ==> r->Ok_0 is Some,
{
}

/// A record that the last change of a commit sets or inserts under a key is
/// what a read of the record gives afterwards.
pub proof fn law_set_ser_then_get_ser<T: Borsh, D: Database>(
    before: Map<Seq<u8>, Seq<u8>>,
    store: Store<D>,
    col: DBCol,
    ops: Seq<DBOpView>,
    key: Seq<u8>,
    m: T::Model,
    r: Result<Option<T::Model>, Error>,
)
    requires
        T::encodable(m),
        !col.is_rc(),
        store.column(col) == after_ops(
            before,
            col,
            ops.push(DBOpView::Put { col, key, value: T::encoding(m) }),
        ) || store.column(col) == after_ops(
            before,
            col,
            ops.push(DBOpView::Insert { col, key, value: T::encoding(m) }),
        ),
        store.get_ser_outcome::<T>(col, key, r),
    ensures
        match r {
            Ok(x) => x == Some(m),
            Err(e) => store.read_outcome(col, key, Err(e)) && !store.reliable(),
        },
{
    T::law_round_trip(m);
    law_one_more_change(before, col, ops, key, T::encoding(m));
    law_what_a_reader_sees(store.column(col), col, key, T::encoding(m), 1);
    law_get_ser::<T, D>(store, col, key, r);
}

/// To commit a merged update is to commit the one and then the other, both for
/// what is stored and for the nodes in memory. The merged update is for the
/// database of the first and has its tries, or else those of the other.
pub proof fn law_merge(
    u: StoreUpdateView,
    v: StoreUpdateView,
    m: Map<Seq<u8>, Seq<u8>>,
    cache: Map<Seq<u8>, Seq<u8>>,
    col: DBCol,
)
    ensures
        after_ops(m, col, u.merge(v).ops) == after_ops(after_ops(m, col, u.ops), col, v.ops),
        cache_after_ops(cache, u.merge(v).ops) == cache_after_ops(
            cache_after_ops(cache, u.ops),
            v.ops,
        ),
        u.merge(v).ops.len() == u.ops.len() + v.ops.len(),
        forall|i: int| 0 <= i < u.ops.len() ==> #[trigger] u.merge(v).ops[i] == u.ops[i],
        forall|i: int|
            0 <= i < v.ops.len() ==> u.merge(v).ops[u.ops.len() + i] == #[trigger] v.ops[i],
        u.merge(v).storage == u.storage,
        u.tries is Some ==> u.merge(v).tries == u.tries,
        u.tries is None ==> u.merge(v).tries == v.tries,
{
    law_merge_is_in_turn(m, cache, col, u.ops, v.ops);
}

/// A further change stands behind all others, and nothing else of the update
/// changes.
pub proof fn law_push(u: StoreUpdateView, op: DBOpView)
    ensures
        u.push(op).ops == u.ops.push(op),
        u.push(op).storage == u.storage,
        u.push(op).tries == u.tries,
{
}

/// An update overwrites itself if and only if two of its changes set, insert or
/// delete the same key of the same column. Changes of counts and deletions of
/// columns do not matter.
pub proof fn law_overwrites_itself(ops: Seq<DBOpView>)
    ensures
        ({
            let written = |op: DBOpView|
                match op {
                    DBOpView::Put { col, key, .. } => Some((col, key)),
                    DBOpView::Insert { col, key, .. } => Some((col, key)),
                    DBOpView::Delete { col, key } => Some((col, key)),
                    DBOpView::UpdateRefcount { .. } => None,
                    DBOpView::DeleteAll { .. } => None,
                };
            overwrites_itself(ops) <==> exists|i: int, j: int|
                #![trigger ops[i], ops[j]]
                0 <= i < j < ops.len() && written(ops[i]) is Some && written(ops[i]) == written(
                    ops[j],
                )
        }),
{
    let written = |op: DBOpView|
        match op {
            DBOpView::Put { col, key, .. } => Some((col, key)),
            DBOpView::Insert { col, key, .. } => Some((col, key)),
            DBOpView::Delete { col, key } => Some((col, key)),
            DBOpView::UpdateRefcount { .. } => None,
            DBOpView::DeleteAll { .. } => None,
        };
    assert forall|op: DBOpView| written(op) == #[trigger] op.non_refcount_key() by {}
    if overwrites_itself(ops) {
        let (i, j) = choose|i: int, j: int|
            0 <= i < j < ops.len() && (#[trigger] ops[i].non_refcount_key()) is Some
                && ops[i].non_refcount_key() == #[trigger] ops[j].non_refcount_key();
        assert(written(ops[i]) == written(ops[j]));
    }
    if exists|i: int, j: int|
        #![trigger ops[i], ops[j]]
        0 <= i < j < ops.len() && written(ops[i]) is Some && written(ops[i]) == written(ops[j]) {
        let (i, j) = choose|i: int, j: int|
            #![trigger ops[i], ops[j]]
            0 <= i < j < ops.len() && written(ops[i]) is Some && written(ops[i]) == written(
                ops[j],
            );
        assert(ops[i].non_refcount_key() is Some);
        assert(ops[i].non_refcount_key() == ops[j].non_refcount_key());
    }
}

/// Which updates may be committed to a database: those for it that do not
/// overwrite themselves and whose tries, if any, are on it.
pub proof fn law_committable(u: StoreUpdateView, storage: u64)
    ensures
        u.committable(storage) <==> (u.storage == storage && !overwrites_itself(u.ops) && (
        u.tries is None || u.tries->0.storage == storage)),
{
}

/// A commit is stopped by its tries if and only if it changes the count of a
/// node of the state column whose key has not 40 bytes.
pub proof fn law_stops(u: StoreUpdateView)
    ensures
        u.tries is None ==> !u.stops(),
        u.tries is Some ==> (u.stops() <==> exists|i: int|
            #![trigger u.ops[i]]
            0 <= i < u.ops.len() && (u.ops[i] matches DBOpView::UpdateRefcount { col, key, .. }
                && col == DBCol::State && key.len() != 40)),
{
    if u.stops() {
        let i = choose|i: int|
            0 <= i < u.ops.len() && crate::tries::is_malformed(#[trigger] u.ops[i]);
        assert(u.ops[i] is UpdateRefcount);
    }
}

/// The tries that a commit brings up to its changes are the same tries on the
/// same database.
pub proof fn law_committed_tries(u: StoreUpdateView)
    ensures
        u.tries is None ==> committed_tries(u) is None,
        u.tries matches Some(t) ==> committed_tries(u) == Some(
            ShardTriesView {
                id: t.id,
                storage: t.storage,
                cache: cache_after_ops(t.cache, u.ops),
            },
        ),
{
}

/// What the nodes in memory are after one more change: a node whose count is
/// raised is kept if it has fewer than 1000 bytes, one whose count is lowered is
/// dropped, the state column deleted drops all, and other nodes stay.
pub proof fn law_one_more_node(
    cache: Map<Seq<u8>, Seq<u8>>,
    ops: Seq<DBOpView>,
    key: Seq<u8>,
    data: Seq<u8>,
    n: i64,
    other: DBCol,
    bytes: Seq<u8>,
)
    requires
        other != DBCol::State,
    ensures
        ({
            let before = cache_after_ops(cache, ops);
            let col = DBCol::State;
            let raised = cache_after_ops(
                cache,
                ops.push(DBOpView::UpdateRefcount { col, key, value: data + rc_bytes(n) }),
            );
            let lowered = cache_after_ops(
                cache,
                ops.push(DBOpView::UpdateRefcount { col, key, value: rc_bytes(n) }),
            );
            &&& n > 0 && data.len() < 1000 ==> raised == before.insert(key, data)
            &&& n > 0 && data.len() >= 1000 ==> raised == before
            &&& n <= 0 ==> lowered == before.remove(key)
            &&& cache_after_ops(cache, ops.push(DBOpView::Put { col, key, value: bytes }))
                == before.remove(key)
            &&& cache_after_ops(cache, ops.push(DBOpView::Insert { col, key, value: bytes }))
                == before.remove(key)
            &&& cache_after_ops(cache, ops.push(DBOpView::Delete { col, key })) == before.remove(
                key,
            )
            &&& cache_after_ops(cache, ops.push(DBOpView::DeleteAll { col })) == Map::<
                Seq<u8>,
                Seq<u8>,
            >::empty()
            &&& cache_after_ops(
                cache,
                ops.push(DBOpView::UpdateRefcount { col: other, key, value: bytes }),
            ) == before
            &&& cache_after_ops(cache, ops.push(DBOpView::Put { col: other, key, value: bytes }))
                == before
            &&& cache_after_ops(cache, ops.push(DBOpView::Insert { col: other, key, value: bytes }))
                == before
            &&& cache_after_ops(cache, ops.push(DBOpView::Delete { col: other, key })) == before
            &&& cache_after_ops(cache, ops.push(DBOpView::DeleteAll { col: other })) == before
        }),
        cache_after_ops(cache, Seq::empty()) == cache,
{
    lemma_decoded_counted(data, n);
    assert forall|op: DBOpView| #[trigger]
        cache_after_ops(cache, ops.push(op)) == crate::tries::cache_after_op(
            cache_after_ops(cache, ops),
            op,
        ) by {
        assert(ops.push(op).drop_last() =~= ops);
    }
}

/// A listing gives every entry once, in the order of the keys, and nothing
/// else; and what gives every entry once and in order is the listing.
pub proof fn law_listing(s: Seq<(Seq<u8>, Seq<u8>)>, m: Map<Seq<u8>, Seq<u8>>, key: Seq<u8>)
    requires
        lists(s, m),
    ensures
        m.get(key) matches Some(value) ==> s.contains((key, value)),
        forall|i: int|
            0 <= i < s.len() ==> m.contains_key((#[trigger] s[i]).0) && m[s[i].0] == s[i].1,
        forall|i: int, j: int|
            0 <= i < j < s.len() ==> lex_lt((#[trigger] s[i]).0, (#[trigger] s[j]).0),
        forall|t: Seq<(Seq<u8>, Seq<u8>)>| #[trigger] lists(t, m) ==> t == s,
{
    if m.contains_key(key) {
        let i = choose|i: int| 0 <= i < s.len() && (#[trigger] s[i]).0 == key;
        assert(s[i] == (key, m[key]));
    }
    assert forall|t: Seq<(Seq<u8>, Seq<u8>)>| #[trigger] lists(t, m) implies t == s by {
        law_one_listing(t, s, m);
    }
}

/// The entries with a prefix are those whose key is the prefix and a rest.
pub proof fn law_entries_with_prefix(
    m: Map<Seq<u8>, Seq<u8>>,
    prefix: Seq<u8>,
    rest: Seq<u8>,
    key: Seq<u8>,
)
    ensures
        with_prefix(m, prefix).get(prefix + rest) == m.get(prefix + rest),
        with_prefix(m, prefix).contains_key(key) ==> m.contains_key(key) && key == prefix
            + key.skip(prefix.len() as int),
{
    assert((prefix + rest).take(prefix.len() as int) =~= prefix);
    if has_prefix(key, prefix) {
        assert(key =~= prefix + key.skip(prefix.len() as int));
    }
}

/// What a list of entries says is the keys and the values that it holds.
pub proof fn law_pairs(entries: Seq<(Vec<u8>, Vec<u8>)>, i: int)
    ensures
        pairs(entries).len() == entries.len(),
        0 <= i < entries.len() ==> pairs(entries)[i] == (entries[i].0@, entries[i].1@),
{
}

/// An item of a listing of records is the key with the record that its value is
/// decoded to, or an error where the value is no record.
pub proof fn law_listed_record<T: Borsh>(
    entry: (Seq<u8>, Seq<u8>),
    r: Result<(Vec<u8>, T), Error>,
)
    ensures
        is_record::<T>(entry, r) <==> match r {
            Ok(item) => item.0@ == entry.0 && T::decoding(entry.1) == Some(item.1.model()),
            Err(e) => e == Error::Deserialization && T::decoding(entry.1) is None,
        },
{
}

/// What the contracts say of a result is what the result holds.
pub proof fn law_results<T: Borsh>(
    bytes: Vec<u8>,
    record: T,
    tries: ShardTries,
    e: Error,
    none: Option<ShardTries>,
)
    ensures
        opt_bytes(Some(bytes)) == Some(bytes@),
        opt_bytes(None) is None,
        read_result(Ok(Some(bytes))) == Ok::<Option<Seq<u8>>, Error>(Some(bytes@)),
        read_result(Ok(None)) == Ok::<Option<Seq<u8>>, Error>(None),
        read_result(Err(e)) == Err::<Option<Seq<u8>>, Error>(e),
        record_result(Ok(Some(record))) == Ok::<Option<T::Model>, Error>(Some(record.model())),
        record_result::<T>(Ok(None)) == Ok::<Option<T::Model>, Error>(None),
        record_result::<T>(Err(e)) == Err::<Option<T::Model>, Error>(e),
        opt_tries(Some(tries)) == Some(tries@),
        opt_tries(None) is None,
        commit_result(Ok(none)) == Ok::<(), Error>(()),
        commit_result(Err(CommitError { error: e, tries: none })) == Err::<(), Error>(e),
        returned_tries(Ok(Some(tries))) == Some(tries@),
        returned_tries(Ok(None)) is None,
        returned_tries(Err(CommitError { error: e, tries: Some(tries) })) == Some(tries@),
        returned_tries(Err(CommitError { error: e, tries: None })) is None,
{
}

/// What the contracts say of a change is all that the change holds, and of a
/// transaction all its changes in their order.
pub proof fn law_changes_are_told_in_full(op: DBOp, t: DBTransaction, i: int)
    ensures
        match op {
            DBOp::Put { col, key, value } => op@ == (DBOpView::Put {
                col,
                key: key@,
                value: value@,
            }),
            DBOp::Insert { col, key, value } => op@ == (DBOpView::Insert {
                col,
                key: key@,
                value: value@,
            }),
            DBOp::UpdateRefcount { col, key, value } => op@ == (DBOpView::UpdateRefcount {
                col,
                key: key@,
                value: value@,
            }),
            DBOp::Delete { col, key } => op@ == (DBOpView::Delete { col, key: key@ }),
            DBOp::DeleteAll { col } => op@ == (DBOpView::DeleteAll { col }),
        },
        t@.len() == t.ops@.len(),
        0 <= i < t.ops@.len() ==> t@[i] == t.ops@[i]@,
{
}

} // verus!
