//! What holds of the records of the state.

use vstd::prelude::*;

use crate::borsh_format::KeyBytes;
use crate::bytes::{has_prefix, lex_lt};
use crate::codec::Borsh;
use crate::error::{StorageError, StorageErrorView};
use crate::state::{
    access_keys_parse, account_removal, ends_in_public_key, outcome, record, record_at,
    without_access_keys, without_account, without_contract_data, written,
};
use crate::trie_key::{
    access_keys_prefix, contract_data_prefix, law_raw_keys_differ, lemma_under_access_prefix,
    lemma_under_data_prefix, TrieKeyView,
};
use crate::trie_update::{items_view, lemma_walk_reaches_all, TrieUpdateView};
use crate::types::valid_account_name;

verus! {

/// A record that was written is read back.
pub proof fn law_written_is_read<T: Borsh>(s: TrieUpdateView, key: TrieKeyView, value: T::Model)
    requires
        T::encodable(value),
    ensures
        record::<T>(written::<T>(s, key, value), key) == Ok::<
            Option<T::Model>,
            StorageErrorView,
        >(Some(value)),
{
    T::law_round_trip(value);
}

/// Bytes that were set, such as the code of a contract, are read back, and
/// what was removed is not there.
pub proof fn law_set_is_read(s: TrieUpdateView, key: TrieKeyView, bytes: Seq<u8>)
    ensures
        s.set(key.raw(), bytes).read(key.raw()) == Ok::<Option<Seq<u8>>, StorageErrorView>(
            Some(bytes),
        ),
        s.remove(key.raw()).read(key.raw()) == Ok::<Option<Seq<u8>>, StorageErrorView>(None),
{
}

/// To set or to remove one key leaves the others as they are.
pub proof fn law_others_stay(
    s: TrieUpdateView,
    key: TrieKeyView,
    other: TrieKeyView,
    bytes: Seq<u8>,
)
    requires
        key.valid(),
        other.valid(),
        key != other,
    ensures
        s.set(key.raw(), bytes).read(other.raw()) == s.read(other.raw()),
        s.remove(key.raw()).read(other.raw()) == s.read(other.raw()),
{
    if key.raw() == other.raw() {
        law_raw_keys_differ(key, other);
    }
}

/// The key is one that the removal of an account takes out: that of the account
/// itself, of its code, of an access key or of contract data.
pub open spec fn goes_with_account(k: TrieKeyView, account_id: Seq<u8>) -> bool {
    match k {
        TrieKeyView::Account { account_id: a } => a == account_id,
        TrieKeyView::ContractCode { account_id: a } => a == account_id,
        TrieKeyView::AccessKey { account_id: a, .. } => a == account_id,
        TrieKeyView::ContractData { account_id: a, .. } => a == account_id,
        _ => false,
    }
}

/// After an account was removed, nothing of it is left: no read of the account,
/// of its code, of an access key or of contract data finds anything, and none
/// fails. The account itself and its code are gone even where the removal
/// stopped with an error.
pub proof fn law_removed_account_is_gone(s: TrieUpdateView, account_id: Seq<u8>, k: TrieKeyView)
    requires
        k.valid(),
        goes_with_account(k, account_id),
        account_removal(s, account_id).1 is Ok || k is Account || k is ContractCode,
    ensures
        account_removal(s, account_id).0.read(k.raw()) == Ok::<
            Option<Seq<u8>>,
            StorageErrorView,
        >(None),
{
    lemma_gone(s, account_id, k);
}

proof fn lemma_gone(s: TrieUpdateView, account_id: Seq<u8>, k: TrieKeyView)
    requires
        goes_with_account(k, account_id),
        account_removal(s, account_id).1 is Ok || k is Account || k is ContractCode,
    ensures
        account_removal(s, account_id).0.read(k.raw()) == Ok::<
            Option<Seq<u8>>,
            StorageErrorView,
        >(None),
{
    let s1 = without_account(s, account_id);
    let s2 = without_access_keys(s1, account_id);
    let s3 = without_contract_data(s2, account_id);
    let p = access_keys_prefix(account_id);
    let q = contract_data_prefix(account_id);
    match k {
        TrieKeyView::AccessKey { .. } => {
            assert(k.raw().take(p.len() as int) =~= p);
            lemma_readable(s1, k.raw(), p);
            assert(s2.value(k.raw()) is None) by {
                if s1.value(k.raw()) is Some {
                    assert(s1.live_keys(p).contains(k.raw()));
                }
            }
            assert(s3.value(k.raw()) is None);
        },
        TrieKeyView::ContractData { .. } => {
            assert(k.raw().take(q.len() as int) =~= q);
            lemma_readable(s2, k.raw(), q);
            assert(s3.value(k.raw()) is None) by {
                if s2.value(k.raw()) is Some {
                    assert(s2.live_keys(q).contains(k.raw()));
                }
            }
        },
        _ => {
            assert(s1.pending.contains_key(k.raw()) && s1.pending[k.raw()] is None);
            assert(s2.pending.contains_key(k.raw()) && s2.pending[k.raw()] is None);
        },
    }
}

/// Where all keys under a prefix can be walked, each of them can be read.
proof fn lemma_readable(s: TrieUpdateView, key: Seq<u8>, prefix: Seq<u8>)
    requires
        !s.unwalkable(prefix),
        has_prefix(key, prefix),
    ensures
        !s.unreadable(key),
{
    if s.unreadable(key) {
        let i = choose|i: int| 0 <= i < s.absent.len() && has_prefix(key, #[trigger] s.absent[i]);
        let gap = s.absent[i];
        if gap.len() <= prefix.len() {
            assert(prefix.take(gap.len() as int) =~= gap);
        } else {
            assert(gap.take(prefix.len() as int) =~= prefix);
        }
    }
}

/// The removal of an account leaves everything else as it is, whether it
/// succeeds or not: other accounts, and the data and receipts that the account
/// received.
pub proof fn law_removal_spares_others(s: TrieUpdateView, account_id: Seq<u8>, k: TrieKeyView)
    requires
        valid_account_name(account_id),
        k.valid(),
        !goes_with_account(k, account_id),
    ensures
        account_removal(s, account_id).0.read(k.raw()) == s.read(k.raw()),
{
    let s1 = without_account(s, account_id);
    let s2 = without_access_keys(s1, account_id);
    let p = access_keys_prefix(account_id);
    let q = contract_data_prefix(account_id);
    let bytes = Seq::<u8>::empty();
    let account = TrieKeyView::Account { account_id };
    law_others_stay(s, account, k, bytes);
    law_others_stay(
        s.remove(account.raw()),
        TrieKeyView::ContractCode { account_id },
        k,
        bytes,
    );
    assert(!s1.live_keys(p).contains(k.raw())) by {
        if has_prefix(k.raw(), p) {
            lemma_under_access_prefix(k, account_id);
        }
    }
    assert(!s2.live_keys(q).contains(k.raw())) by {
        if has_prefix(k.raw(), q) {
            lemma_under_data_prefix(k, account_id);
        }
    }
}

/// A read of a key that was not changed gives what the trie holds, unless the
/// key lies under an absent part: then the read fails. A read of a key that was
/// changed gives the change.
pub proof fn law_read(s: TrieUpdateView, key: Seq<u8>)
    ensures
        !s.pending.contains_key(key) && (forall|i: int|
            0 <= i < s.absent.len() ==> !has_prefix(key, #[trigger] s.absent[i])) ==> s.read(key)
            == Ok::<Option<Seq<u8>>, StorageErrorView>(s.base.get(key)),
        !s.pending.contains_key(key) && (exists|i: int|
            0 <= i < s.absent.len() && has_prefix(key, #[trigger] s.absent[i])) ==> s.read(key)
            == Err::<Option<Seq<u8>>, StorageErrorView>(StorageErrorView::TrieNodeMissing),
        s.pending.contains_key(key) ==> s.read(key) == Ok::<Option<Seq<u8>>, StorageErrorView>(
            s.pending[key],
        ),
{
}

/// An update of a trie without changes and without absent parts reads exactly
/// what the trie holds.
pub proof fn law_fresh_update_reads_the_trie(base: Map<Seq<u8>, Seq<u8>>, key: Seq<u8>)
    ensures
        (TrieUpdateView { base, absent: Seq::empty(), pending: Map::empty() }).read(key) == Ok::<
            Option<Seq<u8>>,
            StorageErrorView,
        >(base.get(key)),
{
    law_read(TrieUpdateView { base, absent: Seq::empty(), pending: Map::empty() }, key);
}

/// To set or to remove a key adds one change and leaves the trie as it is.
pub proof fn law_one_more_change_of_state(s: TrieUpdateView, key: Seq<u8>, bytes: Seq<u8>)
    ensures
        s.set(key, bytes).base == s.base,
        s.set(key, bytes).absent == s.absent,
        s.set(key, bytes).pending == s.pending.insert(key, Some(bytes)),
        s.remove(key).base == s.base,
        s.remove(key).absent == s.absent,
        s.remove(key).pending == s.pending.insert(key, None),
{
}

/// A walk where no absent part meets the prefix gives all keys that start with
/// the prefix and have a value after the changes, each once and in order, and
/// no error.
pub proof fn law_walk(
    s: TrieUpdateView,
    prefix: Seq<u8>,
    items: Seq<Result<Seq<u8>, StorageErrorView>>,
    rest: Seq<u8>,
)
    requires
        s.is_walk(prefix, items),
        forall|i: int|
            0 <= i < s.absent.len() ==> !has_prefix(prefix, #[trigger] s.absent[i]) && !has_prefix(
                s.absent[i],
                prefix,
            ),
    ensures
        ({
            let after = if s.pending.contains_key(prefix + rest) {
                s.pending[prefix + rest]
            } else {
                s.base.get(prefix + rest)
            };
            items.contains(Ok(prefix + rest)) <==> after is Some
        }),
        forall|i: int|
            0 <= i < items.len() ==> (#[trigger] items[i] matches Ok(k) && has_prefix(k, prefix)),
        forall|i: int, j: int|
            0 <= i < j < items.len() ==> lex_lt(
                (#[trigger] items[i])->Ok_0,
                (#[trigger] items[j])->Ok_0,
            ),
{
    lemma_walk_reaches_all(s, prefix);
    let keys = Seq::new(items.len(), |i: int| items[i]->Ok_0);
    let key = prefix + rest;
    assert(key.take(prefix.len() as int) =~= prefix);
    if s.live_keys(prefix).contains(key) {
        let i = choose|i: int| 0 <= i < keys.len() && #[trigger] keys[i] == key;
        assert(items[i] == Ok::<Seq<u8>, StorageErrorView>(key));
    }
    if items.contains(Ok(key)) {
        let i = choose|i: int|
            0 <= i < items.len() && items[i] == Ok::<Seq<u8>, StorageErrorView>(key);
        assert(keys[i] == key);
    }
    assert forall|i: int| 0 <= i < items.len() implies (#[trigger] items[i] matches Ok(k)
        && has_prefix(k, prefix)) by {
        assert(s.live_keys(prefix).contains(keys[i]));
    }
    assert forall|i: int, j: int| 0 <= i < j < items.len() implies lex_lt(
        (#[trigger] items[i])->Ok_0,
        (#[trigger] items[j])->Ok_0,
    ) by {
        assert(lex_lt(keys[i], keys[j]));
    }
}

/// A walk that an absent part meets ends with an error. Before the error come
/// the keys that have a value and stand before every such part, and no others.
pub proof fn law_walk_ends_at_absent_part(
    s: TrieUpdateView,
    prefix: Seq<u8>,
    items: Seq<Result<Seq<u8>, StorageErrorView>>,
    at: int,
    rest: Seq<u8>,
)
    requires
        s.is_walk(prefix, items),
        0 <= at < s.absent.len(),
        has_prefix(prefix, s.absent[at]) || has_prefix(s.absent[at], prefix),
    ensures
        items.len() > 0,
        items.last() == Err::<Seq<u8>, StorageErrorView>(StorageErrorView::TrieNodeMissing),
        forall|i: int|
            0 <= i < items.len() - 1 ==> (#[trigger] items[i] matches Ok(k) && has_prefix(k, prefix)
                && lex_lt(k, s.absent[at])),
        forall|i: int, j: int|
            0 <= i < j < items.len() - 1 ==> lex_lt(
                (#[trigger] items[i])->Ok_0,
                (#[trigger] items[j])->Ok_0,
            ),
        ({
            let key = prefix + rest;
            let after = if s.pending.contains_key(key) {
                s.pending[key]
            } else {
                s.base.get(key)
            };
            after is Some && (forall|i: int|
                0 <= i < s.absent.len() && (has_prefix(prefix, #[trigger] s.absent[i])
                    || has_prefix(s.absent[i], prefix)) ==> lex_lt(key, s.absent[i]))
                ==> items.contains(Ok(key))
        }),
{
    assert(s.unwalkable(prefix));
    let n = items.len() - 1;
    let keys = Seq::new(n as nat, |i: int| items[i]->Ok_0);
    let key = prefix + rest;
    assert(key.take(prefix.len() as int) =~= prefix);
    if s.reachable_keys(prefix).contains(key) {
        let i = choose|i: int| 0 <= i < keys.len() && #[trigger] keys[i] == key;
        assert(items[i] == Ok::<Seq<u8>, StorageErrorView>(key));
    }
    assert forall|i: int| 0 <= i < items.len() - 1 implies (#[trigger] items[i] matches Ok(k)
        && has_prefix(k, prefix) && lex_lt(k, s.absent[at])) by {
        assert(s.reachable_keys(prefix).contains(keys[i]));
    }
    assert forall|i: int, j: int| 0 <= i < j < items.len() - 1 implies lex_lt(
        (#[trigger] items[i])->Ok_0,
        (#[trigger] items[j])->Ok_0,
    ) by {
        assert(lex_lt(keys[i], keys[j]));
    }
}

/// What a read of a record gives follows from the read of its bytes: the record
/// that they are decoded to, none where there are none, an inconsistency where
/// they are no record, and the error of the read.
pub proof fn law_record<T: Borsh>(s: TrieUpdateView, key: TrieKeyView)
    ensures
        record::<T>(s, key) == record_at::<T>(s, key.raw()),
        match s.read(key.raw()) {
            Ok(Some(bytes)) => match T::decoding(bytes) {
                Some(m) => record::<T>(s, key) matches Ok(Some(x)) && x == m,
                None => record::<T>(s, key) matches Err(e) && e
                    == StorageErrorView::StorageInconsistentState("Failed to deserialize"@),
            },
            Ok(None) => record::<T>(s, key) matches Ok(None),
            Err(e) => record::<T>(s, key) matches Err(x) && x == e,
        },
{
}

/// To write a record is to set its key to its encoding.
pub proof fn law_written<T: Borsh>(s: TrieUpdateView, key: TrieKeyView, value: T::Model)
    ensures
        written::<T>(s, key, value).pending == s.pending.insert(
            key.raw(),
            Some(T::encoding(value)),
        ),
        written::<T>(s, key, value).base == s.base,
        written::<T>(s, key, value).absent == s.absent,
{
}

/// A record that the trie holds is read, and one that was written is read in its
/// place.
pub proof fn law_record_of_trie<T: Borsh>(
    s: TrieUpdateView,
    key: TrieKeyView,
    held: T::Model,
    new: T::Model,
)
    requires
        T::encodable(held),
        T::encodable(new),
        s.base.get(key.raw()) == Some(T::encoding(held)),
        !s.pending.contains_key(key.raw()),
        forall|i: int|
            0 <= i < s.absent.len() ==> !has_prefix(key.raw(), #[trigger] s.absent[i]),
    ensures
        record::<T>(s, key) matches Ok(Some(m)) && m == held,
        record::<T>(written::<T>(s, key, new), key) matches Ok(Some(m)) && m == new,
{
    T::law_round_trip(held);
    T::law_round_trip(new);
    law_read(s, key.raw());
}

/// What the contracts say of the result of a read is what the result holds.
pub proof fn law_state_results<T: Borsh>(
    v: T,
    e: StorageError,
    text: String,
    items: Seq<Result<Vec<u8>, StorageError>>,
    i: int,
)
    ensures
        outcome(Ok(Some(v))) == Ok::<Option<T::Model>, StorageErrorView>(Some(v.model())),
        outcome::<T>(Ok(None)) == Ok::<Option<T::Model>, StorageErrorView>(None),
        outcome::<T>(Err(e)) == Err::<Option<T::Model>, StorageErrorView>(e@),
        StorageError::TrieNodeMissing@ == StorageErrorView::TrieNodeMissing,
        StorageError::StorageInternalError@ == StorageErrorView::StorageInternalError,
        StorageError::StorageInconsistentState(text)@
            == StorageErrorView::StorageInconsistentState(text@),
        items_view(items).len() == items.len(),
        0 <= i < items.len() ==> match items[i] {
            Ok(key) => items_view(items)[i] == Ok::<Seq<u8>, StorageErrorView>(key@),
            Err(x) => items_view(items)[i] == Err::<Seq<u8>, StorageErrorView>(x@),
        },
{
}

/// The value of a key after the removal of the account itself and of its code
/// is that from before, under the prefix of the access keys and under that of
/// the contract data.
proof fn lemma_prefixes_stay(s: TrieUpdateView, account_id: Seq<u8>, key: Seq<u8>)
    requires
        has_prefix(key, access_keys_prefix(account_id)) || has_prefix(
            key,
            contract_data_prefix(account_id),
        ),
    ensures
        without_account(s, account_id).value(key) == s.value(key),
        without_account(s, account_id).absent == s.absent,
{
    let p = access_keys_prefix(account_id);
    let q = contract_data_prefix(account_id);
    let account = (TrieKeyView::Account { account_id }).raw();
    let code = (TrieKeyView::ContractCode { account_id }).raw();
    assert(account[0] == 0 && code[0] == 1 && p[0] == 2 && q[0] == 9);
    if has_prefix(key, p) {
        assert(key.take(p.len() as int)[0] == key[0]);
    } else {
        assert(key.take(q.len() as int)[0] == key[0]);
    }
}

/// The removal of an account succeeds if and only if no absent part of the trie
/// meets the keys of its access keys or of its contract data, and every key with
/// a value that starts like an access key of the account is one.
pub proof fn law_removal_succeeds(s: TrieUpdateView, account_id: Seq<u8>)
    ensures
        account_removal(s, account_id).1 is Ok <==> {
            let p = seq![2u8] + account_id + seq![2u8];
            let q = seq![9u8] + account_id + seq![44u8];
            let after = |k: Seq<u8>|
                if s.pending.contains_key(k) {
                    s.pending[k]
                } else {
                    s.base.get(k)
                };
            &&& forall|i: int|
                0 <= i < s.absent.len() ==> !has_prefix(p, #[trigger] s.absent[i]) && !has_prefix(
                    s.absent[i],
                    p,
                ) && !has_prefix(q, s.absent[i]) && !has_prefix(s.absent[i], q)
            &&& forall|rest: Seq<u8>|
                after(#[trigger] (p + rest)) is Some ==> (rest.len() == 33 && rest[0] == 0) || (
                rest.len() == 65 && rest[0] == 1)
        },
{
    let p = access_keys_prefix(account_id);
    let q = contract_data_prefix(account_id);
    assert(p =~= seq![2u8] + account_id + seq![2u8]);
    assert(q =~= seq![9u8] + account_id + seq![44u8]);
    let after = |k: Seq<u8>|
        if s.pending.contains_key(k) {
            s.pending[k]
        } else {
            s.base.get(k)
        };
    let s1 = without_account(s, account_id);
    let s2 = without_access_keys(s1, account_id);
    if account_removal(s, account_id).1 is Ok {
        assert(!s1.unwalkable(p));
        assert(!s2.unwalkable(q));
        lemma_walk_reaches_all(s1, p);
        assert forall|rest: Seq<u8>| after(#[trigger] (p + rest)) is Some implies (rest.len() == 33
            && rest[0] == 0) || (rest.len() == 65 && rest[0] == 1) by {
            let k = p + rest;
            assert(k.take(p.len() as int) =~= p);
            lemma_prefixes_stay(s, account_id, k);
            assert(s1.live_keys(p).contains(k));
            assert(k.skip(p.len() as int) =~= rest);
        }
        assert forall|i: int| 0 <= i < s.absent.len() implies !has_prefix(p, #[trigger] s.absent[i])
            && !has_prefix(s.absent[i], p) && !has_prefix(q, s.absent[i]) && !has_prefix(
            s.absent[i],
            q,
        ) by {
            assert(s1.absent[i] == s.absent[i]);
            assert(s2.absent[i] == s.absent[i]);
        }
    }
    if (forall|i: int|
        0 <= i < s.absent.len() ==> !has_prefix(p, #[trigger] s.absent[i]) && !has_prefix(
            s.absent[i],
            p,
        ) && !has_prefix(q, s.absent[i]) && !has_prefix(s.absent[i], q)) && (forall|rest: Seq<u8>|
        after(#[trigger] (p + rest)) is Some ==> (rest.len() == 33 && rest[0] == 0) || (rest.len()
            == 65 && rest[0] == 1)) {
        assert(!s1.unwalkable(p));
        assert(!s2.unwalkable(q));
        assert forall|k: Seq<u8>| #[trigger] s1.reachable_keys(p).contains(
            k,
        ) implies ends_in_public_key(k, account_id) by {
            lemma_prefixes_stay(s, account_id, k);
            let rest = k.skip(p.len() as int);
            assert(k =~= p + rest);
            assert(after(p + rest) is Some);
        }
        assert(access_keys_parse(s1, account_id));
    }
}

/// Where the removal of an account fails for want of a node, an absent part
/// meets the keys of its access keys or of its contract data. Where it fails on
/// an inconsistency, some key with a value starts like an access key of the
/// account and is none. There is no other error.
pub proof fn law_removal_fails(s: TrieUpdateView, account_id: Seq<u8>)
    ensures
        account_removal(s, account_id).1 matches Err(e) ==> {
            let p = seq![2u8] + account_id + seq![2u8];
            let q = seq![9u8] + account_id + seq![44u8];
            let after = |k: Seq<u8>|
                if s.pending.contains_key(k) {
                    s.pending[k]
                } else {
                    s.base.get(k)
                };
            match e {
                StorageErrorView::TrieNodeMissing => exists|i: int|
                    0 <= i < s.absent.len() && (has_prefix(p, #[trigger] s.absent[i]) || has_prefix(
                        s.absent[i],
                        p,
                    ) || has_prefix(q, s.absent[i]) || has_prefix(s.absent[i], q)),
                StorageErrorView::StorageInconsistentState(text) => text
                    == "Can't parse public key from raw key for AccessKey"@ && exists|
                    rest: Seq<u8>,
                |
                    after(#[trigger] (p + rest)) is Some && !(rest.len() == 33 && rest[0] == 0) && !(
                    rest.len() == 65 && rest[0] == 1),
                StorageErrorView::StorageInternalError => false,
            }
        },
{
    let p = access_keys_prefix(account_id);
    let q = contract_data_prefix(account_id);
    assert(p =~= seq![2u8] + account_id + seq![2u8]);
    assert(q =~= seq![9u8] + account_id + seq![44u8]);
    let s1 = without_account(s, account_id);
    let s2 = without_access_keys(s1, account_id);
    assert(s1.absent == s.absent && s2.absent == s.absent);
    if !access_keys_parse(s1, account_id) {
        let k = choose|k: Seq<u8>| #[trigger]
            s1.reachable_keys(p).contains(k) && !ends_in_public_key(k, account_id);
        lemma_prefixes_stay(s, account_id, k);
        let rest = k.skip(p.len() as int);
        assert(k =~= p + rest);
        assert(s.value(p + rest) is Some);
    }
}

/// After an account was removed, reads of the account, of its code, of each of
/// its access keys and of all its contract data find nothing.
pub proof fn law_nothing_is_left_of_account(
    s: TrieUpdateView,
    account_id: Seq<u8>,
    public_key: KeyBytes,
    key: Seq<u8>,
)
    requires
        account_removal(s, account_id).1 is Ok,
    ensures
        ({
            let after = account_removal(s, account_id).0;
            let none = Ok::<Option<Seq<u8>>, StorageErrorView>(None);
            &&& after.read((TrieKeyView::Account { account_id }).raw()) == none
            &&& after.read((TrieKeyView::ContractCode { account_id }).raw()) == none
            &&& after.read((TrieKeyView::AccessKey { account_id, public_key }).raw()) == none
            &&& after.read((TrieKeyView::ContractData { account_id, key }).raw()) == none
        }),
{
    lemma_gone(s, account_id, TrieKeyView::Account { account_id });
    lemma_gone(s, account_id, TrieKeyView::ContractCode { account_id });
    lemma_gone(s, account_id, TrieKeyView::AccessKey { account_id, public_key });
    lemma_gone(s, account_id, TrieKeyView::ContractData { account_id, key });
}

/// The removal of an account leaves all keys of other accounts as they are, and
/// of the account itself the data and the receipts that it received; and the
/// indices of the delayed receipts.
pub proof fn law_removal_leaves_the_rest(
    s: TrieUpdateView,
    account_id: Seq<u8>,
    other: Seq<u8>,
    public_key: KeyBytes,
    key: Seq<u8>,
    id: Seq<u8>,
)
    requires
        valid_account_name(account_id),
        valid_account_name(other),
        public_key.valid(),
        id.len() == 32,
    ensures
        ({
            let after = account_removal(s, account_id).0;
            let same = |k: TrieKeyView| after.read(k.raw()) == s.read(k.raw());
            &&& other != account_id ==> same(TrieKeyView::Account { account_id: other })
            &&& other != account_id ==> same(TrieKeyView::ContractCode { account_id: other })
            &&& other != account_id ==> same(
                TrieKeyView::AccessKey { account_id: other, public_key },
            )
            &&& other != account_id ==> same(TrieKeyView::ContractData { account_id: other, key })
            &&& same(TrieKeyView::ReceivedData { receiver_id: other, data_id: id })
            &&& same(TrieKeyView::PostponedReceipt { receiver_id: other, receipt_id: id })
            &&& same(TrieKeyView::DelayedReceiptIndices)
        }),
{
    if other != account_id {
        law_removal_spares_others(s, account_id, TrieKeyView::Account { account_id: other });
        law_removal_spares_others(s, account_id, TrieKeyView::ContractCode { account_id: other });
        law_removal_spares_others(
            s,
            account_id,
            TrieKeyView::AccessKey { account_id: other, public_key },
        );
        law_removal_spares_others(
            s,
            account_id,
            TrieKeyView::ContractData { account_id: other, key },
        );
    }
    law_removal_spares_others(
        s,
        account_id,
        TrieKeyView::ReceivedData { receiver_id: other, data_id: id },
    );
    law_removal_spares_others(
        s,
        account_id,
        TrieKeyView::PostponedReceipt { receiver_id: other, receipt_id: id },
    );
    law_removal_spares_others(s, account_id, TrieKeyView::DelayedReceiptIndices);
}

/// The removal of an account takes out the account and its code in any case.
/// Where it stops at the access keys, all access keys and all contract data
/// stay; where it stops at the contract data, the access keys are gone and all
/// contract data stays.
pub proof fn law_stopped_removal(
    s: TrieUpdateView,
    account_id: Seq<u8>,
    public_key: KeyBytes,
    key: Seq<u8>,
)
    ensures
        ({
            let (after, r) = account_removal(s, account_id);
            let none = Ok::<Option<Seq<u8>>, StorageErrorView>(None);
            let p = seq![2u8] + account_id + seq![2u8];
            let access = (TrieKeyView::AccessKey { account_id, public_key }).raw();
            let data = (TrieKeyView::ContractData { account_id, key }).raw();
            let met = exists|i: int|
                0 <= i < s.absent.len() && (has_prefix(p, #[trigger] s.absent[i]) || has_prefix(
                    s.absent[i],
                    p,
                ));
            &&& after.read((TrieKeyView::Account { account_id }).raw()) == none
            &&& after.read((TrieKeyView::ContractCode { account_id }).raw()) == none
            &&& r is Err ==> after.read(data) == s.read(data)
            &&& r is Err && (met || r->Err_0 is StorageInconsistentState) ==> after.read(access)
                == s.read(access)
            &&& r is Err && !met && !(r->Err_0 is StorageInconsistentState) ==> after.read(access)
                == none
        }),
{
    let s1 = without_account(s, account_id);
    let s2 = without_access_keys(s1, account_id);
    let p = access_keys_prefix(account_id);
    let q = contract_data_prefix(account_id);
    assert(p =~= seq![2u8] + account_id + seq![2u8]);
    lemma_gone(s, account_id, TrieKeyView::Account { account_id });
    lemma_gone(s, account_id, TrieKeyView::ContractCode { account_id });
    let access = (TrieKeyView::AccessKey { account_id, public_key }).raw();
    let data = (TrieKeyView::ContractData { account_id, key }).raw();
    assert(access.take(p.len() as int) =~= p);
    assert(data.take(q.len() as int) =~= q);
    assert(access[0] == 2 && data[0] == 9 && p[0] == 2);
    assert((TrieKeyView::Account { account_id }).raw()[0] == 0);
    assert((TrieKeyView::ContractCode { account_id }).raw()[0] == 1);
    assert(s1.read(access) == s.read(access));
    assert(s1.read(data) == s.read(data));
    assert(!has_prefix(data, p)) by {
        if has_prefix(data, p) {
            assert(data.take(p.len() as int)[0] == data[0]);
        }
    }
    assert(s2.read(data) == s1.read(data)) by {
        assert(!s1.live_keys(p).contains(data));
    }
    if !s1.unwalkable(p) {
        lemma_readable(s1, access, p);
        if s1.value(access) is Some {
            assert(s1.live_keys(p).contains(access));
        }
        assert(s2.read(access) == Ok::<Option<Seq<u8>>, StorageErrorView>(None));
    }
}

} // verus!
