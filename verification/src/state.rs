//! Reading and writing the records of the state.

use vstd::prelude::*;

use crate::borsh_format::{key_decoding, key_encoding, lemma_key_decoding_canonical};
use crate::bytes::copy_bytes;
use crate::codec::Borsh;
use crate::error::{StorageError, StorageErrorView};
use crate::trie_key::{
    access_keys_prefix, contract_data_prefix, get_raw_prefix_for_access_keys,
    get_raw_prefix_for_contract_data, is_raw_access_key, parse_data_key_from_contract_data_key,
    parse_public_key_from_access_key_key, parse_trie_key_access_key_from_raw_key, TrieKey,
    TrieKeyView,
};
use crate::trie_update::{
    items_view, lemma_walk_reaches_all, lists_keys, TrieUpdate, TrieUpdateView,
};
use crate::types::{
    sha256_digest, AccessKey, Account, AccountId, ContractCode, CryptoHash, DelayedReceiptIndices,
    PublicKey, Receipt, ReceivedData,
};

verus! {

/// What a read of a record gives, by its key in bytes.
pub open spec fn record_at<T: Borsh>(s: TrieUpdateView, raw_key: Seq<u8>) -> Result<
    Option<T::Model>,
    StorageErrorView,
> {
    match s.read(raw_key) {
        Err(e) => Err(e),
        Ok(None) => Ok(None),
        Ok(Some(data)) => match T::decoding(data) {
            Some(m) => Ok(Some(m)),
            None => Err(StorageErrorView::StorageInconsistentState("Failed to deserialize"@)),
        },
    }
}

/// What a read of a record gives.
pub open spec fn record<T: Borsh>(s: TrieUpdateView, key: TrieKeyView) -> Result<
    Option<T::Model>,
    StorageErrorView,
> {
    record_at::<T>(s, key.raw())
}

/// What the result of a read of a record says.
pub open spec fn outcome<T: Borsh>(r: Result<Option<T>, StorageError>) -> Result<
    Option<T::Model>,
    StorageErrorView,
> {
    match r {
        Ok(Some(v)) => Ok(Some(v.model())),
        Ok(None) => Ok(None),
        Err(e) => Err(e@),
    }
}

/// The state after a record has been written.
pub open spec fn written<T: Borsh>(
    s: TrieUpdateView,
    key: TrieKeyView,
    value: T::Model,
) -> TrieUpdateView {
    s.set(key.raw(), T::encoding(value))
}

/// Reads a record.
pub fn get<T: Borsh>(state_update: &TrieUpdate, key: &TrieKey) -> (r: Result<
    Option<T>,
    StorageError,
>)
    requires
        state_update.valid(),
    ensures
        outcome(r) == record::<T>(state_update@, key@),
{
    match state_update.get(key) {
        Err(e) => Err(e),
        Ok(None) => Ok(None),
        Ok(Some(data)) => match T::try_from_slice(data.as_slice()) {
            Err(_) => Err(
                StorageError::StorageInconsistentState("Failed to deserialize".to_owned()),
            ),
            Ok(value) => Ok(Some(value)),
        },
    }
}

/// Writes a record.
pub fn set<T: Borsh>(state_update: &mut TrieUpdate, key: TrieKey, value: &T)
    requires
        old(state_update).valid(),
        T::encodable(value.model()),
    ensures
        final(state_update).valid(),
        final(state_update)@ == written::<T>(old(state_update)@, key@, value.model()),
{
    if let Ok(data) = value.try_to_vec() {
        state_update.set(key, data);
    }
}

/// Writes an account.
pub fn set_account(state_update: &mut TrieUpdate, account_id: AccountId, account: &Account)
    requires
        old(state_update).valid(),
    ensures
        final(state_update).valid(),
        final(state_update)@ == written::<Account>(
            old(state_update)@,
            TrieKeyView::Account { account_id: account_id@ },
            account@,
        ),
{
    set(state_update, TrieKey::Account { account_id }, account)
}

/// Reads an account.
pub fn get_account(state_update: &TrieUpdate, account_id: &AccountId) -> (r: Result<
    Option<Account>,
    StorageError,
>)
    requires
        state_update.valid(),
    ensures
        outcome(r) == record::<Account>(
            state_update@,
            TrieKeyView::Account { account_id: account_id@ },
        ),
{
    get(state_update, &TrieKey::Account { account_id: account_id.clone() })
}

/// Writes data that an account received.
pub fn set_received_data(
    state_update: &mut TrieUpdate,
    receiver_id: AccountId,
    data_id: CryptoHash,
    data: &ReceivedData,
)
    requires
        old(state_update).valid(),
        ReceivedData::encodable(data@),
    ensures
        final(state_update).valid(),
        final(state_update)@ == written::<ReceivedData>(
            old(state_update)@,
            TrieKeyView::ReceivedData { receiver_id: receiver_id@, data_id: data_id@ },
            data@,
        ),
{
    set(state_update, TrieKey::ReceivedData { receiver_id, data_id }, data);
}

/// Reads data that an account received.
pub fn get_received_data(
    state_update: &TrieUpdate,
    receiver_id: &AccountId,
    data_id: CryptoHash,
) -> (r: Result<Option<ReceivedData>, StorageError>)
    requires
        state_update.valid(),
    ensures
        outcome(r) == record::<ReceivedData>(
            state_update@,
            TrieKeyView::ReceivedData { receiver_id: receiver_id@, data_id: data_id@ },
        ),
{
    get(state_update, &TrieKey::ReceivedData { receiver_id: receiver_id.clone(), data_id })
}

/// Writes a receipt that waits for data.
pub fn set_postponed_receipt<B: Borsh>(state_update: &mut TrieUpdate, receipt: &Receipt<B>)
    requires
        old(state_update).valid(),
        B::encodable(receipt.receipt.model()),
    ensures
        final(state_update).valid(),
        final(state_update)@ == written::<Receipt<B>>(
            old(state_update)@,
            TrieKeyView::PostponedReceipt {
                receiver_id: receipt.receiver_id@,
                receipt_id: receipt.receipt_id@,
            },
            receipt.model(),
        ),
{
    let key = TrieKey::PostponedReceipt {
        receiver_id: receipt.receiver_id.clone(),
        receipt_id: receipt.receipt_id,
    };
    // The names of accounts are valid, so the receipt can be written.
    let _ = (receipt.predecessor_id.as_bytes(), receipt.receiver_id.as_bytes());
    set(state_update, key, receipt);
}

/// Takes out a receipt that waits for data.
pub fn remove_postponed_receipt(
    state_update: &mut TrieUpdate,
    receiver_id: &AccountId,
    receipt_id: CryptoHash,
)
    requires
        old(state_update).valid(),
    ensures
        final(state_update).valid(),
        final(state_update)@ == old(state_update)@.remove(
            (TrieKeyView::PostponedReceipt {
                receiver_id: receiver_id@,
                receipt_id: receipt_id@,
            }).raw(),
        ),
{
    state_update.remove(TrieKey::PostponedReceipt { receiver_id: receiver_id.clone(), receipt_id });
}

/// Reads a receipt that waits for data.
pub fn get_postponed_receipt<B: Borsh>(
    state_update: &TrieUpdate,
    receiver_id: &AccountId,
    receipt_id: CryptoHash,
) -> (r: Result<Option<Receipt<B>>, StorageError>)
    requires
        state_update.valid(),
    ensures
        outcome(r) == record::<Receipt<B>>(
            state_update@,
            TrieKeyView::PostponedReceipt { receiver_id: receiver_id@, receipt_id: receipt_id@ },
        ),
{
    get(state_update, &TrieKey::PostponedReceipt { receiver_id: receiver_id.clone(), receipt_id })
}

/// Reads where the queue of delayed receipts starts and ends. Without a record
/// the queue is empty and starts at 0.
pub fn get_delayed_receipt_indices(state_update: &TrieUpdate) -> (r: Result<
    DelayedReceiptIndices,
    StorageError,
>)
    requires
        state_update.valid(),
    ensures
        (match r {
            Ok(indices) => Ok(indices@),
            Err(e) => Err(e@),
        }) == (match record::<DelayedReceiptIndices>(
            state_update@,
            TrieKeyView::DelayedReceiptIndices,
        ) {
            Ok(Some(m)) => Ok(m),
            Ok(None) => Ok((0u64, 0u64)),
            Err(e) => Err(e),
        }),
{
    match get::<DelayedReceiptIndices>(state_update, &TrieKey::DelayedReceiptIndices) {
        Ok(Some(indices)) => Ok(indices),
        Ok(None) => Ok(DelayedReceiptIndices::default()),
        Err(e) => Err(e),
    }
}

/// Writes an access key.
pub fn set_access_key(
    state_update: &mut TrieUpdate,
    account_id: AccountId,
    public_key: PublicKey,
    access_key: &AccessKey,
)
    requires
        old(state_update).valid(),
        AccessKey::encodable(access_key@),
    ensures
        final(state_update).valid(),
        final(state_update)@ == written::<AccessKey>(
            old(state_update)@,
            TrieKeyView::AccessKey { account_id: account_id@, public_key: public_key@ },
            access_key@,
        ),
{
    set(state_update, TrieKey::AccessKey { account_id, public_key }, access_key);
}

/// Takes out an access key.
pub fn remove_access_key(
    state_update: &mut TrieUpdate,
    account_id: AccountId,
    public_key: PublicKey,
)
    requires
        old(state_update).valid(),
    ensures
        final(state_update).valid(),
        final(state_update)@ == old(state_update)@.remove(
            (TrieKeyView::AccessKey { account_id: account_id@, public_key: public_key@ }).raw(),
        ),
{
    state_update.remove(TrieKey::AccessKey { account_id, public_key });
}

/// Reads an access key.
pub fn get_access_key(
    state_update: &TrieUpdate,
    account_id: &AccountId,
    public_key: &PublicKey,
) -> (r: Result<Option<AccessKey>, StorageError>)
    requires
        state_update.valid(),
    ensures
        outcome(r) == record::<AccessKey>(
            state_update@,
            TrieKeyView::AccessKey { account_id: account_id@, public_key: public_key@ },
        ),
{
    get(
        state_update,
        &TrieKey::AccessKey { account_id: account_id.clone(), public_key: *public_key },
    )
}

/// Reads the access key whose key in bytes is given.
pub fn get_access_key_raw(state_update: &TrieUpdate, raw_key: &[u8]) -> (r: Result<
    Option<AccessKey>,
    StorageError,
>)
    requires
        state_update.valid(),
        is_raw_access_key(raw_key@),
    ensures
        outcome(r) == record_at::<AccessKey>(state_update@, raw_key@),
{
    match parse_trie_key_access_key_from_raw_key(raw_key) {
        Ok(key) => get(state_update, &key),
        Err(_) => Ok(None),
    }
}

/// Writes the code of a contract.
pub fn set_code(state_update: &mut TrieUpdate, account_id: AccountId, code: &ContractCode)
    requires
        old(state_update).valid(),
    ensures
        final(state_update).valid(),
        final(state_update)@ == old(state_update)@.set(
            (TrieKeyView::ContractCode { account_id: account_id@ }).raw(),
            code.bytes(),
        ),
{
    state_update.set(TrieKey::ContractCode { account_id }, copy_bytes(code.code()));
}

/// Reads the code of a contract. Its hash is computed where it is not given.
pub fn get_code(
    state_update: &TrieUpdate,
    account_id: &AccountId,
    code_hash: Option<CryptoHash>,
) -> (r: Result<Option<ContractCode>, StorageError>)
    requires
        state_update.valid(),
    ensures
        match state_update@.read((TrieKeyView::ContractCode { account_id: account_id@ }).raw()) {
            Err(e) => r matches Err(x) && x@ == e,
            Ok(None) => r matches Ok(None),
            Ok(Some(bytes)) => r matches Ok(Some(code)) && code.bytes() == bytes && code.digest()
                == (match code_hash {
                Some(h) => h@,
                None => sha256_digest(bytes),
            }),
        },
{
    match state_update.get(&TrieKey::ContractCode { account_id: account_id.clone() }) {
        Ok(Some(code)) => Ok(Some(ContractCode::new(code, code_hash))),
        Ok(None) => Ok(None),
        Err(e) => Err(e),
    }
}

/// The state without the account itself and without its code.
pub open spec fn without_account(s: TrieUpdateView, account_id: Seq<u8>) -> TrieUpdateView {
    s.remove((TrieKeyView::Account { account_id }).raw()).remove(
        (TrieKeyView::ContractCode { account_id }).raw(),
    )
}

/// The state without the access keys of an account.
pub open spec fn without_access_keys(s: TrieUpdateView, account_id: Seq<u8>) -> TrieUpdateView {
    s.remove_all(s.live_keys(access_keys_prefix(account_id)))
}

/// The state without the contract data of an account.
pub open spec fn without_contract_data(s: TrieUpdateView, account_id: Seq<u8>) -> TrieUpdateView {
    s.remove_all(s.live_keys(contract_data_prefix(account_id)))
}

/// What stands behind the prefix of the access keys in this key is a public key.
pub open spec fn ends_in_public_key(raw_key: Seq<u8>, account_id: Seq<u8>) -> bool {
    key_decoding(raw_key.skip(access_keys_prefix(account_id).len() as int)) is Some
}

/// All keys that a walk over the access keys of the account comes to are access
/// keys.
pub open spec fn access_keys_parse(s: TrieUpdateView, account_id: Seq<u8>) -> bool {
    forall|k: Seq<u8>| #[trigger]
        s.reachable_keys(access_keys_prefix(account_id)).contains(k) ==> ends_in_public_key(
            k,
            account_id,
        )
}

/// What the removal of an account leads to: the state after it and the result.
/// The account and its code go first, then the access keys, then the contract
/// data. Where a step fails, the steps before it stay done. Of two errors in
/// the walk over the access keys the first counts: a key that is no access key
/// comes before the part of the state that cannot be read, which ends the walk.
pub open spec fn account_removal(s: TrieUpdateView, account_id: Seq<u8>) -> (
    TrieUpdateView,
    Result<(), StorageErrorView>,
) {
    let s1 = without_account(s, account_id);
    let s2 = without_access_keys(s1, account_id);
    if !access_keys_parse(s1, account_id) {
        (
            s1,
            Err(
                StorageErrorView::StorageInconsistentState(
                    "Can't parse public key from raw key for AccessKey"@,
                ),
            ),
        )
    } else if s1.unwalkable(access_keys_prefix(account_id)) {
        (s1, Err(StorageErrorView::TrieNodeMissing))
    } else if s2.unwalkable(contract_data_prefix(account_id)) {
        (s2, Err(StorageErrorView::TrieNodeMissing))
    } else {
        (without_contract_data(s2, account_id), Ok(()))
    }
}

/// The keys at the positions below `n`.
spec fn first_keys(s: Seq<Seq<u8>>, n: int) -> Set<Seq<u8>> {
    Set::new(|k: Seq<u8>| exists|i: int| 0 <= i < n && #[trigger] s[i] == k)
}

proof fn lemma_remove_first_keys(v: TrieUpdateView, s: Seq<Seq<u8>>, n: int)
    requires
        0 <= n < s.len(),
    ensures
        v.remove_all(first_keys(s, 0)) == v,
        v.remove_all(first_keys(s, n)).remove(s[n]) == v.remove_all(first_keys(s, n + 1)),
{
    let a = v.remove_all(first_keys(s, n)).remove(s[n]).pending;
    let b = v.remove_all(first_keys(s, n + 1)).pending;
    assert forall|k: Seq<u8>| first_keys(s, n + 1).contains(k) <==> (first_keys(s, n).contains(k)
        || k == s[n]) by {
        if k == s[n] {
            assert(s[n] == k);
        }
    }
    assert(a =~= b);
    assert(v.remove_all(first_keys(s, 0)).pending =~= v.pending);
}

proof fn lemma_all_keys(s: Seq<Seq<u8>>, keys: Set<Seq<u8>>)
    requires
        lists_keys(s, keys),
    ensures
        first_keys(s, s.len() as int) == keys,
{
    assert(first_keys(s, s.len() as int) =~= keys);
}

/// The keys of a walk, without the error that may stand at its end.
spec fn walked_keys(
    s: TrieUpdateView,
    prefix: Seq<u8>,
    walk: Seq<Result<Seq<u8>, StorageErrorView>>,
) -> Seq<Seq<u8>> {
    let n = if s.unwalkable(prefix) {
        walk.len() - 1
    } else {
        walk.len() as int
    };
    Seq::new(n as nat, |i: int| walk[i]->Ok_0)
}

proof fn lemma_all_parse(s: TrieUpdateView, account_id: Seq<u8>, keys: Seq<Seq<u8>>)
    requires
        lists_keys(keys, s.reachable_keys(access_keys_prefix(account_id))),
        forall|n: int| 0 <= n < keys.len() ==> ends_in_public_key(#[trigger] keys[n], account_id),
    ensures
        access_keys_parse(s, account_id),
{
    assert forall|k: Seq<u8>| #[trigger]
        s.reachable_keys(access_keys_prefix(account_id)).contains(k) implies ends_in_public_key(
        k,
        account_id,
    ) by {
        let n = choose|n: int| 0 <= n < keys.len() && #[trigger] keys[n] == k;
        assert(keys[n] == k);
    }
}

/// Removes an account, its code, its access keys and its contract data.
pub fn remove_account(state_update: &mut TrieUpdate, account_id: &AccountId) -> (r: Result<
    (),
    StorageError,
>)
    requires
        old(state_update).valid(),
    ensures
        final(state_update).valid(),
        (
            final(state_update)@,
            (match r {
                Ok(()) => Ok(()),
                Err(e) => Err(e@),
            }),
        ) == account_removal(old(state_update)@, account_id@),
{
    let ghost account = account_id@;
    state_update.remove(TrieKey::Account { account_id: account_id.clone() });
    state_update.remove(TrieKey::ContractCode { account_id: account_id.clone() });
    let ghost s1 = without_account(old(state_update)@, account);

    // The access keys.
    let prefix = get_raw_prefix_for_access_keys(account_id);
    let items = state_update.iter(prefix.as_slice());
    let ghost walk = items_view(items@);
    let ghost raws = walked_keys(s1, prefix@, walk);
    let ghost live = s1.reachable_keys(prefix@);
    let mut public_keys: Vec<PublicKey> = Vec::new();
    let mut i: usize = 0;
    while i < items.len()
        invariant
            i <= items@.len(),
            i <= raws.len(),
            account == account_id@,
            prefix@ == access_keys_prefix(account),
            live == s1.reachable_keys(prefix@),
            walk == items_view(items@),
            raws == walked_keys(s1, prefix@, walk),
            s1.is_walk(prefix@, walk),
            state_update@ == s1,
            s1 == without_account(old(state_update)@, account),
            state_update.valid(),
            public_keys@.len() == i,
            forall|n: int|
                0 <= n < i ==> ends_in_public_key(#[trigger] raws[n], account) && raws[n]
                    == prefix@ + key_encoding(public_keys@[n]@),
        decreases items@.len() - i,
    {
        let ghost item = walk[i as int];
        match &items[i] {
            Ok(raw_key) => {
                proof {
                    assert(item == Ok::<Seq<u8>, StorageErrorView>(raw_key@));
                    assert(raws[i as int] == raw_key@);
                    assert(live.contains(raws[i as int]));
                    assert(raw_key@ =~= prefix@ + raw_key@.skip(prefix@.len() as int));
                }
                match parse_public_key_from_access_key_key(raw_key.as_slice(), account_id) {
                    Ok(public_key) => {
                        proof {
                            lemma_key_decoding_canonical(raw_key@.skip(prefix@.len() as int));
                        }
                        public_keys.push(public_key);
                    },
                    Err(_) => {
                        return Err(
                            StorageError::StorageInconsistentState(
                                "Can't parse public key from raw key for AccessKey".to_owned(),
                            ),
                        );
                    },
                }
            },
            Err(e) => {
                proof {
                    assert(item is Err);
                    assert(i == raws.len());
                    lemma_all_parse(s1, account, raws);
                }
                return Err(e.clone());
            },
        }
        i = i + 1;
    }
    proof {
        lemma_all_parse(s1, account, raws);
        lemma_walk_reaches_all(s1, prefix@);
        assert(s1.remove_all(first_keys(raws, 0)).pending =~= s1.pending);
    }
    i = 0;
    while i < public_keys.len()
        invariant
            i <= public_keys@.len(),
            account == account_id@,
            prefix@ == access_keys_prefix(account),
            public_keys@.len() == raws.len(),
            forall|n: int|
                0 <= n < raws.len() ==> #[trigger] raws[n] == prefix@ + key_encoding(
                    public_keys@[n]@,
                ),
            state_update@ == s1.remove_all(first_keys(raws, i as int)),
            state_update.valid(),
        decreases public_keys@.len() - i,
    {
        proof {
            lemma_remove_first_keys(s1, raws, i as int);
        }
        state_update.remove(
            TrieKey::AccessKey { account_id: account_id.clone(), public_key: public_keys[i] },
        );
        i = i + 1;
    }
    let ghost s2 = without_access_keys(s1, account);
    proof {
        lemma_all_keys(raws, live);
        assert(state_update@ == s2);
    }

    // The contract data.
    let prefix = get_raw_prefix_for_contract_data(account_id, &[]);
    proof {
        assert(prefix@ =~= contract_data_prefix(account));
    }
    let items = state_update.iter(prefix.as_slice());
    let ghost walk = items_view(items@);
    let ghost raws = walked_keys(s2, prefix@, walk);
    let ghost live = s2.reachable_keys(prefix@);
    let mut data_keys: Vec<Vec<u8>> = Vec::new();
    i = 0;
    while i < items.len()
        invariant
            i <= items@.len(),
            i <= raws.len(),
            account == account_id@,
            prefix@ == contract_data_prefix(account),
            live == s2.reachable_keys(prefix@),
            walk == items_view(items@),
            raws == walked_keys(s2, prefix@, walk),
            s2.is_walk(prefix@, walk),
            state_update@ == s2,
            s2 == without_access_keys(without_account(old(state_update)@, account), account),
            access_keys_parse(without_account(old(state_update)@, account), account),
            !without_account(old(state_update)@, account).unwalkable(access_keys_prefix(account)),
            state_update.valid(),
            data_keys@.len() == i,
            forall|n: int| 0 <= n < i ==> #[trigger] raws[n] == prefix@ + data_keys@[n]@,
        decreases items@.len() - i,
    {
        let ghost item = walk[i as int];
        match &items[i] {
            Ok(raw_key) => {
                proof {
                    assert(item == Ok::<Seq<u8>, StorageErrorView>(raw_key@));
                    assert(raws[i as int] == raw_key@);
                    assert(live.contains(raws[i as int]));
                    assert(raw_key@ =~= prefix@ + raw_key@.skip(prefix@.len() as int));
                }
                match parse_data_key_from_contract_data_key(raw_key.as_slice(), account_id) {
                    Ok(key) => data_keys.push(key),
                    Err(_) => {
                        return Err(
                            StorageError::StorageInconsistentState(
                                "Can't parse data key from raw key for ContractData".to_owned(),
                            ),
                        );
                    },
                }
            },
            Err(e) => {
                assert(item is Err);
                return Err(e.clone());
            },
        }
        i = i + 1;
    }
    proof {
        lemma_walk_reaches_all(s2, prefix@);
        assert(s2.remove_all(first_keys(raws, 0)).pending =~= s2.pending);
    }
    i = 0;
    while i < data_keys.len()
        invariant
            i <= data_keys@.len(),
            account == account_id@,
            prefix@ == contract_data_prefix(account),
            data_keys@.len() == raws.len(),
            forall|n: int| 0 <= n < raws.len() ==> #[trigger] raws[n] == prefix@ + data_keys@[n]@,
            state_update@ == s2.remove_all(first_keys(raws, i as int)),
            state_update.valid(),
        decreases data_keys@.len() - i,
    {
        proof {
            lemma_remove_first_keys(s2, raws, i as int);
        }
        state_update.remove(
            TrieKey::ContractData {
                account_id: account_id.clone(),
                key: copy_bytes(data_keys[i].as_slice()),
            },
        );
        i = i + 1;
    }
    proof {
        lemma_all_keys(raws, live);
    }
    Ok(())
}

} // verus!
