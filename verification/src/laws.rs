//! What holds of the store as a whole.

use vstd::prelude::*;

use crate::bytes::{has_prefix, lemma_lex_irreflexive, lemma_lex_transitive, lex_lt};
use crate::codec::Borsh;
use crate::columns::DBCol;
use crate::database::{lists, Database};
use crate::error::Error;
use crate::refcount::{
    counted, decoded, lemma_decoded_counted, merged, rc_bytes, visible, visible_value,
};
use crate::store::{found, with_prefix, Store, StoreUpdateView};
use crate::transaction::{after_op, after_ops, overwrites_itself, DBOpView};
use crate::tries::{cache_after_op, cache_after_ops, ShardTriesView};

verus! {

/// The change can have an effect on this key of this column.
pub open spec fn touches(op: DBOpView, col: DBCol, key: Seq<u8>) -> bool {
    op.column() == col && match op {
        DBOpView::Put { key: k, .. } => k == key,
        DBOpView::Insert { key: k, .. } => k == key,
        DBOpView::UpdateRefcount { key: k, .. } => k == key,
        DBOpView::Delete { key: k, .. } => k == key,
        DBOpView::DeleteAll { .. } => true,
    }
}

/// No change from position `from` on has an effect on this key.
pub open spec fn untouched_from(ops: Seq<DBOpView>, from: int, col: DBCol, key: Seq<u8>) -> bool {
    forall|i: int| from <= i < ops.len() ==> !touches(#[trigger] ops[i], col, key)
}

/// To apply merged changes is to apply the ones and then the others, both to
/// what is stored and to the nodes in memory.
pub proof fn law_merge_is_in_turn(
    m: Map<Seq<u8>, Seq<u8>>,
    cache: Map<Seq<u8>, Seq<u8>>,
    col: DBCol,
    first: Seq<DBOpView>,
    second: Seq<DBOpView>,
)
    ensures
        after_ops(m, col, first + second) == after_ops(after_ops(m, col, first), col, second),
        cache_after_ops(cache, first + second) == cache_after_ops(
            cache_after_ops(cache, first),
            second,
        ),
    decreases second.len(),
{
    if second.len() == 0 {
        assert(first + second =~= first);
    } else {
        assert((first + second).drop_last() =~= first + second.drop_last());
        assert((first + second).last() == second.last());
        law_merge_is_in_turn(m, cache, col, first, second.drop_last());
    }
}

/// A key that no change has an effect on keeps its value. In particular the
/// changes to one column leave the others alone.
pub proof fn law_untouched_keys_stay(
    m: Map<Seq<u8>, Seq<u8>>,
    col: DBCol,
    ops: Seq<DBOpView>,
    key: Seq<u8>,
)
    requires
        untouched_from(ops, 0, col, key),
    ensures
        after_ops(m, col, ops).get(key) == m.get(key),
    decreases ops.len(),
{
    if ops.len() > 0 {
        let init = ops.drop_last();
        assert(untouched_from(init, 0, col, key)) by {
            assert forall|i: int| 0 <= i < init.len() implies !touches(
                #[trigger] init[i],
                col,
                key,
            ) by {
                assert(init[i] == ops[i]);
            }
        }
        law_untouched_keys_stay(m, col, init, key);
        assert(!touches(ops[ops.len() - 1], col, key));
    }
}

/// The last change that has an effect on a key decides: after it was set or
/// inserted the key has that value, after it was deleted, alone or with the
/// column, it has none.
pub proof fn law_last_change_decides(
    m: Map<Seq<u8>, Seq<u8>>,
    col: DBCol,
    ops: Seq<DBOpView>,
    key: Seq<u8>,
    at: int,
)
    requires
        0 <= at < ops.len(),
        touches(ops[at], col, key),
        untouched_from(ops, at + 1, col, key),
    ensures
        match ops[at] {
            DBOpView::Put { value, .. } => after_ops(m, col, ops).get(key) == Some(value),
            DBOpView::Insert { value, .. } => after_ops(m, col, ops).get(key) == Some(value),
            DBOpView::UpdateRefcount { value, .. } => after_ops(m, col, ops).get(key) == merged(
                after_ops(m, col, ops.take(at)).get(key),
                value,
            ),
            DBOpView::Delete { .. } => after_ops(m, col, ops).get(key) is None,
            DBOpView::DeleteAll { .. } => after_ops(m, col, ops).get(key) is None,
        },
{
    let first = ops.take(at + 1);
    let second = ops.skip(at + 1);
    assert(ops =~= first + second);
    law_merge_is_in_turn(m, m, col, first, second);
    assert(untouched_from(second, 0, col, key)) by {
        assert forall|i: int| 0 <= i < second.len() implies !touches(
            #[trigger] second[i],
            col,
            key,
        ) by {
            assert(second[i] == ops[i + at + 1]);
        }
    }
    law_untouched_keys_stay(after_ops(m, col, first), col, second, key);
    assert(first.drop_last() =~= ops.take(at));
    assert(first.last() == ops[at]);
}

/// In an update that does not overwrite itself, what is set or inserted is
/// read afterwards and what is deleted is gone, wherever in the update it
/// stands, as long as no count is changed under that key and the column is not
/// deleted behind it.
pub proof fn law_each_change_counts(
    m: Map<Seq<u8>, Seq<u8>>,
    col: DBCol,
    ops: Seq<DBOpView>,
    key: Seq<u8>,
    at: int,
)
    requires
        !overwrites_itself(ops),
        0 <= at < ops.len(),
        ops[at].non_refcount_key() == Some((col, key)),
        forall|i: int|
            at < i < ops.len() ==> !(touches(#[trigger] ops[i], col, key) && (ops[i] is DeleteAll
                || ops[i] is UpdateRefcount)),
    ensures
        match ops[at] {
            DBOpView::Put { value, .. } => after_ops(m, col, ops).get(key) == Some(value),
            DBOpView::Insert { value, .. } => after_ops(m, col, ops).get(key) == Some(value),
            _ => after_ops(m, col, ops).get(key) is None,
        },
{
    assert(untouched_from(ops, at + 1, col, key)) by {
        assert forall|i: int| at + 1 <= i < ops.len() implies !touches(
            #[trigger] ops[i],
            col,
            key,
        ) by {
            if touches(ops[i], col, key) {
                assert(ops[at].non_refcount_key() == ops[i].non_refcount_key());
            }
        }
    }
    law_last_change_decides(m, col, ops, key, at);
}

proof fn lemma_same_value(
    m: Map<Seq<u8>, Seq<u8>>,
    col: DBCol,
    a: Seq<DBOpView>,
    b: Seq<DBOpView>,
    key: Seq<u8>,
)
    requires
        !overwrites_itself(a),
        !overwrites_itself(b),
        forall|op: DBOpView| #[trigger] a.contains(op) <==> b.contains(op),
        forall|op: DBOpView| #[trigger] a.contains(op) ==> op.non_refcount_key() is Some,
    ensures
        after_ops(m, col, a).get(key) == after_ops(m, col, b).get(key),
{
    assert forall|i: int| 0 <= i < a.len() implies (#[trigger] a[i]).non_refcount_key() is Some by {
        assert(a.contains(a[i]));
    }
    assert forall|i: int| 0 <= i < b.len() implies (#[trigger] b[i]).non_refcount_key() is Some by {
        assert(b.contains(b[i]));
        assert(a.contains(b[i]));
    }
    if untouched_from(a, 0, col, key) {
        assert forall|j: int| 0 <= j < b.len() implies !touches(#[trigger] b[j], col, key) by {
            assert(b.contains(b[j]));
            assert(a.contains(b[j]));
            let i = choose|i: int| 0 <= i < a.len() && a[i] == b[j];
            assert(!touches(a[i], col, key));
        }
        law_untouched_keys_stay(m, col, a, key);
        law_untouched_keys_stay(m, col, b, key);
    } else {
        let i = choose|i: int| 0 <= i < a.len() && touches(#[trigger] a[i], col, key);
        assert(a.contains(a[i]));
        assert(b.contains(a[i]));
        let j = choose|j: int| 0 <= j < b.len() && b[j] == a[i];
        law_each_change_counts(m, col, a, key, i);
        law_each_change_counts(m, col, b, key, j);
    }
}

/// In what order the changes of an update stand makes no difference, where it
/// sets, inserts and deletes single keys and does not overwrite itself.
pub proof fn law_order_makes_no_difference(
    m: Map<Seq<u8>, Seq<u8>>,
    col: DBCol,
    a: Seq<DBOpView>,
    b: Seq<DBOpView>,
)
    requires
        !overwrites_itself(a),
        !overwrites_itself(b),
        forall|op: DBOpView| #[trigger] a.contains(op) <==> b.contains(op),
        forall|op: DBOpView| #[trigger] a.contains(op) ==> op.non_refcount_key() is Some,
    ensures
        after_ops(m, col, a) == after_ops(m, col, b),
{
    let x = after_ops(m, col, a);
    let y = after_ops(m, col, b);
    assert forall|key: Seq<u8>| #[trigger] x.contains_key(key) == y.contains_key(key) by {
        lemma_same_value(m, col, a, b, key);
    }
    assert forall|key: Seq<u8>| #[trigger] x.contains_key(key) implies x[key] == y[key] by {
        lemma_same_value(m, col, a, b, key);
    }
    assert(x =~= y);
}

/// After a column was deleted and no key of it set again, it is empty.
pub proof fn law_deleted_column_is_empty(
    m: Map<Seq<u8>, Seq<u8>>,
    col: DBCol,
    ops: Seq<DBOpView>,
    at: int,
)
    requires
        0 <= at < ops.len(),
        ops[at] == (DBOpView::DeleteAll { col }),
        forall|i: int| at < i < ops.len() ==> (#[trigger] ops[i]).column() != col,
    ensures
        after_ops(m, col, ops) == Map::<Seq<u8>, Seq<u8>>::empty(),
        visible(col, after_ops(m, col, ops)) == Map::<Seq<u8>, Seq<u8>>::empty(),
{
    let after = after_ops(m, col, ops);
    assert forall|key: Seq<u8>| !#[trigger] after.contains_key(key) by {
        assert(untouched_from(ops, at + 1, col, key));
        law_last_change_decides(m, col, ops, key, at);
        assert(after.get(key) is None);
    }
    assert(after =~= Map::<Seq<u8>, Seq<u8>>::empty());
    assert(visible(col, after) =~= Map::<Seq<u8>, Seq<u8>>::empty());
}

/// To insert what is there already changes nothing.
pub proof fn law_insert_again(
    m: Map<Seq<u8>, Seq<u8>>,
    col: DBCol,
    key: Seq<u8>,
    value: Seq<u8>,
)
    requires
        m.get(key) == Some(value),
    ensures
        after_op(m, col, DBOpView::Insert { col, key, value }) == m,
{
    assert(m.insert(key, value) =~= m);
}

/// A record that was set is read back, where the last change to its key set it.
pub proof fn law_record_is_read_back<T: Borsh>(
    m: Map<Seq<u8>, Seq<u8>>,
    col: DBCol,
    ops: Seq<DBOpView>,
    key: Seq<u8>,
    at: int,
    value: T::Model,
)
    requires
        T::encodable(value),
        !col.is_rc(),
        0 <= at < ops.len(),
        ops[at] == (DBOpView::Put { col, key, value: T::encoding(value) }) || ops[at] == (
        DBOpView::Insert { col, key, value: T::encoding(value) }),
        untouched_from(ops, at + 1, col, key),
    ensures
        visible(col, after_ops(m, col, ops)).contains_key(key),
        T::decoding(visible(col, after_ops(m, col, ops))[key]) == Some(value),
{
    law_last_change_decides(m, col, ops, key, at);
    T::law_round_trip(value);
    let after = after_ops(m, col, ops);
    assert(after.get(key) == Some(T::encoding(value)));
    assert(visible_value(col, after[key]) == Some(T::encoding(value)));
}

/// The change that adds `n` to the count of some data.
pub open spec fn count_change(data: Seq<u8>, n: i64) -> Seq<u8> {
    if n > 0 {
        data + rc_bytes(n)
    } else {
        rc_bytes(n)
    }
}

/// Changes of the count of a value add up.
pub proof fn law_counts_add(data: Seq<u8>, count: i64, n: i64)
    requires
        i64::MIN <= count + n <= i64::MAX,
    ensures
        merged(counted(data, count), count_change(data, n)) == counted(data, (count + n) as i64),
{
    lemma_decoded_counted(data, count);
    lemma_decoded_counted(data, n);
    let existing = counted(data, count);
    let (held, rc) = match existing {
        Some(bytes) => decoded(bytes),
        None => (None, 0),
    };
    assert(rc == count);
    assert(decoded(count_change(data, n)).1 == n);
    assert(rc.wrapping_add(n) == count + n);
}

/// The changes that add the numbers `ns` to the count of some data in turn.
pub open spec fn count_changes(
    col: DBCol,
    key: Seq<u8>,
    data: Seq<u8>,
    ns: Seq<i64>,
) -> Seq<DBOpView> {
    ns.map_values(
        |n: i64| DBOpView::UpdateRefcount { col, key, value: count_change(data, n) },
    )
}

/// The number that a change adds to the count under a key.
pub open spec fn added(op: DBOpView, col: DBCol, key: Seq<u8>) -> int {
    match op {
        DBOpView::UpdateRefcount { value, .. } => if touches(op, col, key) {
            decoded(value).1 as int
        } else {
            0
        },
        _ => 0,
    }
}

/// What some changes add to the count under a key in all.
pub open spec fn net(ops: Seq<DBOpView>, col: DBCol, key: Seq<u8>) -> int
    decreases ops.len(),
{
    if ops.len() == 0 {
        0
    } else {
        net(ops.drop_last(), col, key) + added(ops.last(), col, key)
    }
}

/// Where the change has an effect on this key, it changes the count of this
/// data.
pub open spec fn only_counts(op: DBOpView, col: DBCol, key: Seq<u8>, data: Seq<u8>) -> bool {
    touches(op, col, key) ==> match op {
        DBOpView::UpdateRefcount { value, .. } => exists|n: i64|
            value == #[trigger] count_change(data, n),
        _ => false,
    }
}

/// A count that starts at `count` stays within 64 bits through all changes.
pub open spec fn count_fits(ops: Seq<DBOpView>, col: DBCol, key: Seq<u8>, count: i64) -> bool {
    forall|i: int|
        0 <= i <= ops.len() ==> i64::MIN <= count + net(#[trigger] ops.take(i), col, key)
            <= i64::MAX
}

/// However often the count of a value is raised and lowered, and whatever else
/// is changed in between, what is stored in the end is the value with the count
/// that comes out, or nothing where that is zero.
pub proof fn law_counts_add_up(
    m: Map<Seq<u8>, Seq<u8>>,
    col: DBCol,
    key: Seq<u8>,
    data: Seq<u8>,
    count: i64,
    ops: Seq<DBOpView>,
)
    requires
        m.get(key) == counted(data, count),
        forall|i: int| 0 <= i < ops.len() ==> only_counts(#[trigger] ops[i], col, key, data),
        count_fits(ops, col, key, count),
    ensures
        after_ops(m, col, ops).get(key) == counted(data, (count + net(ops, col, key)) as i64),
    decreases ops.len(),
{
    assert(ops.take(ops.len() as int) =~= ops);
    if ops.len() > 0 {
        let init = ops.drop_last();
        let last = ops.last();
        assert forall|i: int| 0 <= i < init.len() implies only_counts(
            #[trigger] init[i],
            col,
            key,
            data,
        ) by {
            assert(init[i] == ops[i]);
        }
        assert forall|i: int| 0 <= i <= init.len() implies i64::MIN <= count + net(
            #[trigger] init.take(i),
            col,
            key,
        ) <= i64::MAX by {
            assert(init.take(i) =~= ops.take(i));
        }
        law_counts_add_up(m, col, key, data, count, init);
        assert(ops.take(ops.len() - 1) =~= init);
        assert(only_counts(ops[ops.len() - 1], col, key, data));
        if touches(last, col, key) {
            if let DBOpView::UpdateRefcount { value, .. } = last {
                let n = choose|n: i64| value == #[trigger] count_change(data, n);
                lemma_decoded_counted(data, n);
                assert(added(last, col, key) == n);
                law_counts_add(data, (count + net(init, col, key)) as i64, n);
            }
        } else {
            assert(untouched_from(seq![last], 0, col, key));
            law_untouched_keys_stay(after_ops(m, col, init), col, seq![last], key);
            assert(added(last, col, key) == 0);
        }
    }
}

/// What is stored in `col` after some updates were committed in turn.
pub open spec fn after_commits(
    m: Map<Seq<u8>, Seq<u8>>,
    col: DBCol,
    commits: Seq<Seq<DBOpView>>,
) -> Map<Seq<u8>, Seq<u8>>
    decreases commits.len(),
{
    if commits.len() == 0 {
        m
    } else {
        after_ops(after_commits(m, col, commits.drop_last()), col, commits.last())
    }
}

/// The changes of some updates in one list.
pub open spec fn all_changes(commits: Seq<Seq<DBOpView>>) -> Seq<DBOpView>
    decreases commits.len(),
{
    if commits.len() == 0 {
        Seq::empty()
    } else {
        all_changes(commits.drop_last()) + commits.last()
    }
}

/// To commit updates in turn is to apply all their changes in turn.
pub proof fn law_commits_are_one_list(
    m: Map<Seq<u8>, Seq<u8>>,
    col: DBCol,
    commits: Seq<Seq<DBOpView>>,
)
    ensures
        after_commits(m, col, commits) == after_ops(m, col, all_changes(commits)),
    decreases commits.len(),
{
    if commits.len() > 0 {
        law_commits_are_one_list(m, col, commits.drop_last());
        law_merge_is_in_turn(m, m, col, all_changes(commits.drop_last()), commits.last());
    }
}

/// The changes of the count of a value add up over any number of commits.
pub proof fn law_counts_add_up_over_commits(
    m: Map<Seq<u8>, Seq<u8>>,
    col: DBCol,
    key: Seq<u8>,
    data: Seq<u8>,
    count: i64,
    commits: Seq<Seq<DBOpView>>,
)
    requires
        m.get(key) == counted(data, count),
        forall|i: int|
            0 <= i < all_changes(commits).len() ==> only_counts(
                #[trigger] all_changes(commits)[i],
                col,
                key,
                data,
            ),
        count_fits(all_changes(commits), col, key, count),
    ensures
        after_commits(m, col, commits).get(key) == counted(
            data,
            (count + net(all_changes(commits), col, key)) as i64,
        ),
{
    law_commits_are_one_list(m, col, commits);
    law_counts_add_up(m, col, key, data, count, all_changes(commits));
}

/// A value whose count is raised and lowered by the same amount is as before.
pub proof fn law_raise_then_lower(
    m: Map<Seq<u8>, Seq<u8>>,
    col: DBCol,
    key: Seq<u8>,
    data: Seq<u8>,
    count: i64,
    n: i64,
)
    requires
        m.get(key) == counted(data, count),
        0 < n,
        count + n <= i64::MAX,
    ensures
        after_ops(m, col, count_changes(col, key, data, seq![n, (-n) as i64])) == m,
{
    let ns = seq![n, (-n) as i64];
    let ops = count_changes(col, key, data, ns);
    law_counts_add(data, count, n);
    law_counts_add(data, (count + n) as i64, (-n) as i64);
    let once = after_op(m, col, ops[0]);
    assert(ops.drop_last().drop_last() =~= Seq::<DBOpView>::empty());
    reveal_with_fuel(after_ops, 3);
    assert(after_ops(m, col, ops) == after_op(once, col, ops[1]));
    assert(once.get(key) == counted(data, (count + n) as i64));
    assert(after_op(once, col, ops[1]) =~= m);
}

/// A reader of a reference counted column sees the values whose count is
/// positive, and no others.
pub proof fn law_seen_while_counted(
    m: Map<Seq<u8>, Seq<u8>>,
    col: DBCol,
    key: Seq<u8>,
    data: Seq<u8>,
    count: i64,
)
    requires
        col.is_rc(),
        m.get(key) == counted(data, count),
    ensures
        visible(col, m).get(key) == (if count > 0 {
            Some(data)
        } else {
            None
        }),
{
    lemma_decoded_counted(data, count);
}

/// There is one way to list the entries of a column.
pub proof fn law_one_listing(
    s: Seq<(Seq<u8>, Seq<u8>)>,
    t: Seq<(Seq<u8>, Seq<u8>)>,
    m: Map<Seq<u8>, Seq<u8>>,
)
    requires
        lists(s, m),
        lists(t, m),
    ensures
        s == t,
{
    let n = if s.len() <= t.len() {
        s.len()
    } else {
        t.len()
    };
    lemma_same_start(s, t, m, n);
    if s.len() <= t.len() {
        lemma_nothing_behind(t, s, m);
    } else {
        lemma_nothing_behind(s, t, m);
    }
    assert(s =~= t);
}

proof fn lemma_same_start(
    s: Seq<(Seq<u8>, Seq<u8>)>,
    t: Seq<(Seq<u8>, Seq<u8>)>,
    m: Map<Seq<u8>, Seq<u8>>,
    n: nat,
)
    requires
        lists(s, m),
        lists(t, m),
        n <= s.len(),
        n <= t.len(),
    ensures
        forall|i: int| 0 <= i < n ==> #[trigger] s[i] == t[i],
    decreases n,
{
    if n > 0 {
        let l = n - 1;
        lemma_same_start(s, t, m, l as nat);
        lemma_not_before(s, t, m, l);
        lemma_not_before(t, s, m, l);
        crate::bytes::lemma_lex_total(s[l].0, t[l].0);
        assert(m.contains_key(s[l].0));
        assert(m[t[l].0] == t[l].1);
    }
}

proof fn lemma_not_before(
    s: Seq<(Seq<u8>, Seq<u8>)>,
    t: Seq<(Seq<u8>, Seq<u8>)>,
    m: Map<Seq<u8>, Seq<u8>>,
    l: int,
)
    requires
        lists(s, m),
        lists(t, m),
        0 <= l < s.len(),
        l < t.len(),
        forall|i: int| 0 <= i < l ==> #[trigger] s[i] == t[i],
    ensures
        !lex_lt(s[l].0, t[l].0),
{
    if lex_lt(s[l].0, t[l].0) {
        assert(m.contains_key(s[l].0));
        let j = choose|j: int| 0 <= j < t.len() && (#[trigger] t[j]).0 == s[l].0;
        lemma_lex_irreflexive(s[l].0);
        if j < l {
            assert(s[j] == t[j]);
            assert(lex_lt(s[j].0, s[l].0));
        } else if j > l {
            assert(lex_lt(t[l].0, t[j].0));
            lemma_lex_transitive(s[l].0, t[l].0, t[j].0);
        }
    }
}

proof fn lemma_nothing_behind(
    s: Seq<(Seq<u8>, Seq<u8>)>,
    t: Seq<(Seq<u8>, Seq<u8>)>,
    m: Map<Seq<u8>, Seq<u8>>,
)
    requires
        lists(s, m),
        lists(t, m),
        s.len() >= t.len(),
        forall|i: int| 0 <= i < t.len() ==> s[i] == #[trigger] t[i],
    ensures
        s.len() == t.len(),
{
    if s.len() > t.len() {
        let l = t.len() as int;
        assert(m.contains_key(s[l].0));
        let j = choose|j: int| 0 <= j < t.len() && (#[trigger] t[j]).0 == s[l].0;
        assert(s[j] == t[j]);
        assert(lex_lt(s[j].0, s[l].0));
        lemma_lex_irreflexive(s[l].0);
    }
}

/// The entries of `s` whose key starts with `prefix`, in their order.
pub open spec fn pick(s: Seq<(Seq<u8>, Seq<u8>)>, prefix: Seq<u8>) -> Seq<(Seq<u8>, Seq<u8>)>
    decreases s.len(),
{
    if s.len() == 0 {
        Seq::empty()
    } else if has_prefix(s.last().0, prefix) {
        pick(s.drop_last(), prefix).push(s.last())
    } else {
        pick(s.drop_last(), prefix)
    }
}

spec fn rising(s: Seq<(Seq<u8>, Seq<u8>)>) -> bool {
    forall|i: int, j: int|
        0 <= i < j < s.len() ==> lex_lt((#[trigger] s[i]).0, (#[trigger] s[j]).0)
}

proof fn lemma_pick(s: Seq<(Seq<u8>, Seq<u8>)>, prefix: Seq<u8>)
    requires
        rising(s),
    ensures
        rising(pick(s, prefix)),
        forall|e: (Seq<u8>, Seq<u8>)| #[trigger]
            pick(s, prefix).contains(e) <==> s.contains(e) && has_prefix(e.0, prefix),
    decreases s.len(),
{
    if s.len() > 0 {
        let init = s.drop_last();
        let last = s.last();
        assert forall|i: int, j: int| 0 <= i < j < init.len() implies lex_lt(
            (#[trigger] init[i]).0,
            (#[trigger] init[j]).0,
        ) by {
            assert(init[i] == s[i] && init[j] == s[j]);
        }
        lemma_pick(init, prefix);
        let before = pick(init, prefix);
        let now = pick(s, prefix);
        assert forall|e: (Seq<u8>, Seq<u8>)| #[trigger] s.contains(e) <==> init.contains(e) || e
            == last by {
            if s.contains(e) && e != last {
                let i = choose|i: int| 0 <= i < s.len() && s[i] == e;
                assert(init[i] == e);
            }
            if init.contains(e) {
                let i = choose|i: int| 0 <= i < init.len() && init[i] == e;
                assert(s[i] == e);
            }
            if e == last {
                assert(s[s.len() - 1] == e);
            }
        }
        if has_prefix(last.0, prefix) {
            assert forall|e: (Seq<u8>, Seq<u8>)| #[trigger] now.contains(e) <==> before.contains(e)
                || e == last by {
                if now.contains(e) && e != last {
                    let i = choose|i: int| 0 <= i < now.len() && now[i] == e;
                    assert(before[i] == e);
                }
                if before.contains(e) {
                    let i = choose|i: int| 0 <= i < before.len() && before[i] == e;
                    assert(now[i] == e);
                }
                if e == last {
                    assert(now[now.len() - 1] == e);
                }
            }
            assert forall|i: int, j: int| 0 <= i < j < now.len() implies lex_lt(
                (#[trigger] now[i]).0,
                (#[trigger] now[j]).0,
            ) by {
                if j == now.len() - 1 {
                    assert(before.contains(now[i]));
                    assert(init.contains(now[i]));
                    let l = choose|l: int| 0 <= l < init.len() && init[l] == now[i];
                    assert(s[l] == now[i]);
                    assert(lex_lt(s[l].0, s[s.len() - 1].0));
                } else {
                    assert(now[i] == before[i] && now[j] == before[j]);
                }
            }
        }
    }
}

/// A listing by prefix is the part of the whole listing that has the prefix.
pub proof fn law_prefix_listing(
    whole: Seq<(Seq<u8>, Seq<u8>)>,
    part: Seq<(Seq<u8>, Seq<u8>)>,
    m: Map<Seq<u8>, Seq<u8>>,
    prefix: Seq<u8>,
)
    requires
        lists(whole, m),
        lists(part, with_prefix(m, prefix)),
    ensures
        part == pick(whole, prefix),
{
    let picked = pick(whole, prefix);
    let target = with_prefix(m, prefix);
    lemma_pick(whole, prefix);
    assert forall|i: int| 0 <= i < picked.len() implies target.contains_key(
        (#[trigger] picked[i]).0,
    ) && target[picked[i].0] == picked[i].1 by {
        assert(picked.contains(picked[i]));
        let j = choose|j: int| 0 <= j < whole.len() && whole[j] == picked[i];
        assert(m.contains_key(whole[j].0));
    }
    assert forall|k: Seq<u8>| #[trigger] target.contains_key(k) implies exists|i: int|
        0 <= i < picked.len() && (#[trigger] picked[i]).0 == k by {
        assert(m.contains_key(k));
        let j = choose|j: int| 0 <= j < whole.len() && (#[trigger] whole[j]).0 == k;
        assert(whole.contains(whole[j]));
        assert(picked.contains(whole[j]));
        let i = choose|i: int| 0 <= i < picked.len() && picked[i] == whole[j];
        assert(picked[i].0 == k);
    }
    law_one_listing(part, picked, target);
}

/// Whether a key exists agrees with what is read under it: it exists where a
/// read finds a value, it does not where a read finds none, and the errors of
/// the one are those of the other.
pub proof fn law_exists_agrees_with_get<D: Database>(
    store: Store<D>,
    col: DBCol,
    key: Seq<u8>,
    read: Result<Option<Seq<u8>>, Error>,
    answer: Result<bool, Error>,
)
    ensures
        store.get_outcome(col, key, read) ==> store.exists_outcome(col, key, found(read)),
        store.exists_outcome(col, key, answer) ==> (match answer {
            Ok(true) => store.get_outcome(col, key, Ok(store.entries(col).get(key)))
                && store.entries(col).contains_key(key),
            Ok(false) => store.get_outcome(col, key, Ok(None)),
            Err(e) => store.get_outcome(col, key, Err(e)),
        }),
        store.get_outcome(col, key, read) && store.exists_outcome(col, key, answer) && read is Ok
            && answer is Ok ==> answer == found(read),
{
}

/// Tries on one database never get into an update of another that may be
/// committed.
pub proof fn law_foreign_tries_are_refused(
    update: StoreUpdateView,
    other: StoreUpdateView,
    tries: ShardTriesView,
    storage: u64,
)
    requires
        update.tries is None,
        other.tries == Some(tries),
        tries.storage != update.storage,
    ensures
        !update.merge(other).committable(storage),
{
}

/// The node is what the state column shows under its key.
pub open spec fn agrees(cache: Map<Seq<u8>, Seq<u8>>, state: Map<Seq<u8>, Seq<u8>>) -> bool {
    forall|k: Seq<u8>| #[trigger]
        cache.contains_key(k) ==> visible(DBCol::State, state).get(k) == Some(cache[k])
}

/// A change that raises a count in the state column brings the data that is
/// seen under its key then: the data that is stored there already, or that is
/// new.
pub open spec fn brings_what_is_seen(state: Map<Seq<u8>, Seq<u8>>, op: DBOpView) -> bool {
    match op {
        DBOpView::UpdateRefcount { col, key, value } => col == DBCol::State && decoded(
            value,
        ).0 is Some ==> visible(DBCol::State, after_op(state, DBCol::State, op)).get(key)
            == decoded(value).0,
        _ => true,
    }
}

/// The nodes that the tries keep in memory are those of the state column, and
/// stay so when an update is committed that raises no count with other data
/// than the stored.
pub proof fn law_nodes_in_memory_follow(
    cache: Map<Seq<u8>, Seq<u8>>,
    state: Map<Seq<u8>, Seq<u8>>,
    ops: Seq<DBOpView>,
)
    requires
        agrees(cache, state),
        forall|i: int|
            0 <= i < ops.len() ==> brings_what_is_seen(
                after_ops(state, DBCol::State, ops.take(i)),
                #[trigger] ops[i],
            ),
    ensures
        agrees(cache_after_ops(cache, ops), after_ops(state, DBCol::State, ops)),
    decreases ops.len(),
{
    if ops.len() > 0 {
        let init = ops.drop_last();
        assert forall|i: int| 0 <= i < init.len() implies brings_what_is_seen(
            after_ops(state, DBCol::State, init.take(i)),
            #[trigger] init[i],
        ) by {
            assert(init.take(i) =~= ops.take(i));
            assert(init[i] == ops[i]);
        }
        law_nodes_in_memory_follow(cache, state, init);
        let l = ops.len() - 1;
        assert(ops.take(l) =~= init);
        assert(brings_what_is_seen(after_ops(state, DBCol::State, ops.take(l)), ops[l]));
        let c = cache_after_ops(cache, init);
        let s = after_ops(state, DBCol::State, init);
        let op = ops.last();
        let c2 = cache_after_op(c, op);
        let s2 = after_op(s, DBCol::State, op);
        assert forall|k: Seq<u8>| #[trigger] c2.contains_key(k) implies visible(
            DBCol::State,
            s2,
        ).get(k) == Some(c2[k]) by {
            if !touches(op, DBCol::State, k) {
                assert(c.contains_key(k) && c2[k] == c[k]);
                assert(visible(DBCol::State, s).get(k) == Some(c[k]));
                assert(s2.get(k) == s.get(k));
                assert(visible(DBCol::State, s2).contains_key(k));
            } else if let DBOpView::UpdateRefcount { key, value, .. } = op {
                if c.contains_key(k) {
                    assert(visible(DBCol::State, s).get(k) == Some(c[k]));
                    let rc = decoded(s[k]).1.wrapping_add(decoded(value).1);
                    lemma_decoded_counted(c[k], rc);
                    assert(s2.get(k) == counted(c[k], rc));
                }
            }
        }
    }
}

} // verus!
