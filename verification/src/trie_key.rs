//! The keys of the state, and how they are laid out in bytes.

use vstd::prelude::*;

use crate::borsh_format::{
    key_decoding, key_encoding, lemma_key_decoding_canonical, lemma_key_round_trip, KeyBytes,
};
use crate::bytes::{copy_bytes, has_prefix};
use crate::codec::Borsh;
use crate::error::Error;
use crate::types::{is_account_char, valid_account_name, AccountId, CryptoHash, PublicKey};

verus! {

/// The first byte of the key of an account.
pub const ACCOUNT: u8 = 0;

/// The first byte of the key of the code of a contract.
pub const CONTRACT_CODE: u8 = 1;

/// The first byte of the key of an access key, and the byte between the account
/// and the public key.
pub const ACCESS_KEY: u8 = 2;

/// The first byte of the key of received data.
pub const RECEIVED_DATA: u8 = 3;

/// The first byte of the key of a postponed receipt.
pub const POSTPONED_RECEIPT: u8 = 6;

/// The key of the indices of the delayed receipts.
pub const DELAYED_RECEIPT_INDICES: u8 = 7;

/// The first byte of the key of contract data.
pub const CONTRACT_DATA: u8 = 9;

/// The byte between an account and what follows it.
pub const ACCOUNT_DATA_SEPARATOR: u8 = 44;

/// A key of the state.
#[derive(Debug, PartialEq, Eq)]
pub enum TrieKey {
    /// An account.
    Account { account_id: AccountId },
    /// The code of the contract of an account.
    ContractCode { account_id: AccountId },
    /// An access key of an account.
    AccessKey { account_id: AccountId, public_key: PublicKey },
    /// Data that an account received.
    ReceivedData { receiver_id: AccountId, data_id: CryptoHash },
    /// A receipt that waits for data.
    PostponedReceipt { receiver_id: AccountId, receipt_id: CryptoHash },
    /// The indices of the delayed receipts.
    DelayedReceiptIndices,
    /// A value of the contract of an account.
    ContractData { account_id: AccountId, key: Vec<u8> },
}

/// The content of a [`TrieKey`].
pub enum TrieKeyView {
    Account { account_id: Seq<u8> },
    ContractCode { account_id: Seq<u8> },
    AccessKey { account_id: Seq<u8>, public_key: KeyBytes },
    ReceivedData { receiver_id: Seq<u8>, data_id: Seq<u8> },
    PostponedReceipt { receiver_id: Seq<u8>, receipt_id: Seq<u8> },
    DelayedReceiptIndices,
    ContractData { account_id: Seq<u8>, key: Seq<u8> },
}

impl View for TrieKey {
    type V = TrieKeyView;

    open spec fn view(&self) -> TrieKeyView {
        match self {
            TrieKey::Account { account_id } => TrieKeyView::Account { account_id: account_id@ },
            TrieKey::ContractCode { account_id } => TrieKeyView::ContractCode {
                account_id: account_id@,
            },
            TrieKey::AccessKey { account_id, public_key } => TrieKeyView::AccessKey {
                account_id: account_id@,
                public_key: public_key@,
            },
            TrieKey::ReceivedData { receiver_id, data_id } => TrieKeyView::ReceivedData {
                receiver_id: receiver_id@,
                data_id: data_id@,
            },
            TrieKey::PostponedReceipt { receiver_id, receipt_id } => {
                TrieKeyView::PostponedReceipt { receiver_id: receiver_id@, receipt_id: receipt_id@ }
            },
            TrieKey::DelayedReceiptIndices => TrieKeyView::DelayedReceiptIndices,
            TrieKey::ContractData { account_id, key } => TrieKeyView::ContractData {
                account_id: account_id@,
                key: key@,
            },
        }
    }
}

/// A first byte, an account, and a byte behind it.
pub open spec fn account_prefix(first: u8, account_id: Seq<u8>, separator: u8) -> Seq<u8> {
    seq![first] + account_id + seq![separator]
}

/// What the keys of all access keys of an account start with.
pub open spec fn access_keys_prefix(account_id: Seq<u8>) -> Seq<u8> {
    account_prefix(ACCESS_KEY, account_id, ACCESS_KEY)
}

/// What the keys of all contract data of an account start with.
pub open spec fn contract_data_prefix(account_id: Seq<u8>) -> Seq<u8> {
    account_prefix(CONTRACT_DATA, account_id, ACCOUNT_DATA_SEPARATOR)
}

impl TrieKeyView {
    /// The account that the key belongs to.
    pub open spec fn account(self) -> Option<Seq<u8>> {
        match self {
            TrieKeyView::Account { account_id } => Some(account_id),
            TrieKeyView::ContractCode { account_id } => Some(account_id),
            TrieKeyView::AccessKey { account_id, .. } => Some(account_id),
            TrieKeyView::ReceivedData { receiver_id, .. } => Some(receiver_id),
            TrieKeyView::PostponedReceipt { receiver_id, .. } => Some(receiver_id),
            TrieKeyView::DelayedReceiptIndices => None,
            TrieKeyView::ContractData { account_id, .. } => Some(account_id),
        }
    }

    /// The parts of the key are what such parts can be.
    pub open spec fn valid(self) -> bool {
        &&& self.account() matches Some(a) ==> valid_account_name(a)
        &&& match self {
            TrieKeyView::AccessKey { public_key, .. } => public_key.valid(),
            TrieKeyView::ReceivedData { data_id, .. } => data_id.len() == 32,
            TrieKeyView::PostponedReceipt { receipt_id, .. } => receipt_id.len() == 32,
            _ => true,
        }
    }

    /// The key in bytes.
    pub open spec fn raw(self) -> Seq<u8> {
        match self {
            TrieKeyView::Account { account_id } => seq![ACCOUNT] + account_id,
            TrieKeyView::ContractCode { account_id } => seq![CONTRACT_CODE] + account_id,
            TrieKeyView::AccessKey { account_id, public_key } => access_keys_prefix(account_id)
                + key_encoding(public_key),
            TrieKeyView::ReceivedData { receiver_id, data_id } => account_prefix(
                RECEIVED_DATA,
                receiver_id,
                ACCOUNT_DATA_SEPARATOR,
            ) + data_id,
            TrieKeyView::PostponedReceipt { receiver_id, receipt_id } => account_prefix(
                POSTPONED_RECEIPT,
                receiver_id,
                ACCOUNT_DATA_SEPARATOR,
            ) + receipt_id,
            TrieKeyView::DelayedReceiptIndices => seq![DELAYED_RECEIPT_INDICES],
            TrieKeyView::ContractData { account_id, key } => contract_data_prefix(account_id) + key,
        }
    }
}

/// The first byte tells what a key is the key of.
spec fn tag(k: TrieKeyView) -> u8 {
    match k {
        TrieKeyView::Account { .. } => ACCOUNT,
        TrieKeyView::ContractCode { .. } => CONTRACT_CODE,
        TrieKeyView::AccessKey { .. } => ACCESS_KEY,
        TrieKeyView::ReceivedData { .. } => RECEIVED_DATA,
        TrieKeyView::PostponedReceipt { .. } => POSTPONED_RECEIPT,
        TrieKeyView::DelayedReceiptIndices => DELAYED_RECEIPT_INDICES,
        TrieKeyView::ContractData { .. } => CONTRACT_DATA,
    }
}

proof fn lemma_tag(k: TrieKeyView)
    ensures
        k.raw().len() > 0,
        k.raw()[0] == tag(k),
{
}

/// The byte between an account and what follows it occurs in no account name,
/// so both can be told from the bytes.
proof fn lemma_split(first: u8, a: Seq<u8>, b: Seq<u8>, separator: u8, s: Seq<u8>, t: Seq<u8>)
    requires
        valid_account_name(a),
        valid_account_name(b),
        separator == ACCESS_KEY || separator == ACCOUNT_DATA_SEPARATOR,
        account_prefix(first, a, separator) + s == account_prefix(first, b, separator) + t,
    ensures
        a == b,
        s == t,
{
    let x = account_prefix(first, a, separator) + s;
    let y = account_prefix(first, b, separator) + t;
    assert(x[1 + a.len() as int] == separator);
    assert(y[1 + b.len() as int] == separator);
    if a.len() < b.len() {
        assert(y[1 + a.len() as int] == b[a.len() as int]);
        assert(is_account_char(b[a.len() as int]));
    } else if b.len() < a.len() {
        assert(x[1 + b.len() as int] == a[b.len() as int]);
        assert(is_account_char(a[b.len() as int]));
    }
    assert(a =~= x.subrange(1, 1 + a.len() as int));
    assert(b =~= y.subrange(1, 1 + b.len() as int));
    assert(s =~= x.skip(2 + a.len() as int));
    assert(t =~= y.skip(2 + b.len() as int));
}

/// Different keys of the state differ in bytes.
pub proof fn law_raw_keys_differ(a: TrieKeyView, b: TrieKeyView)
    requires
        a.valid(),
        b.valid(),
        a.raw() == b.raw(),
    ensures
        a == b,
{
    lemma_tag(a);
    lemma_tag(b);
    match (a, b) {
        (
            TrieKeyView::Account { account_id: x },
            TrieKeyView::Account { account_id: y },
        ) => {
            assert(x =~= a.raw().skip(1));
            assert(y =~= b.raw().skip(1));
        },
        (
            TrieKeyView::ContractCode { account_id: x },
            TrieKeyView::ContractCode { account_id: y },
        ) => {
            assert(x =~= a.raw().skip(1));
            assert(y =~= b.raw().skip(1));
        },
        (
            TrieKeyView::AccessKey { account_id: x, public_key: s },
            TrieKeyView::AccessKey { account_id: y, public_key: t },
        ) => {
            lemma_split(ACCESS_KEY, x, y, ACCESS_KEY, key_encoding(s), key_encoding(t));
            lemma_key_round_trip(s);
            lemma_key_round_trip(t);
        },
        (
            TrieKeyView::ReceivedData { receiver_id: x, data_id: s },
            TrieKeyView::ReceivedData { receiver_id: y, data_id: t },
        ) => {
            lemma_split(RECEIVED_DATA, x, y, ACCOUNT_DATA_SEPARATOR, s, t);
        },
        (
            TrieKeyView::PostponedReceipt { receiver_id: x, receipt_id: s },
            TrieKeyView::PostponedReceipt { receiver_id: y, receipt_id: t },
        ) => {
            lemma_split(POSTPONED_RECEIPT, x, y, ACCOUNT_DATA_SEPARATOR, s, t);
        },
        (
            TrieKeyView::ContractData { account_id: x, key: s },
            TrieKeyView::ContractData { account_id: y, key: t },
        ) => {
            lemma_split(CONTRACT_DATA, x, y, ACCOUNT_DATA_SEPARATOR, s, t);
        },
        _ => {},
    }
}

/// The key of the state that starts with the prefix of the access keys of an
/// account is an access key of that account.
pub proof fn lemma_under_access_prefix(k: TrieKeyView, account_id: Seq<u8>)
    requires
        k.valid(),
        valid_account_name(account_id),
        has_prefix(k.raw(), access_keys_prefix(account_id)),
    ensures
        k matches TrieKeyView::AccessKey { account_id: a, .. } && a == account_id,
{
    let p = access_keys_prefix(account_id);
    let rest = k.raw().skip(p.len() as int);
    assert(k.raw() =~= p + rest);
    lemma_tag(k);
    if let TrieKeyView::AccessKey { account_id: a, public_key } = k {
        lemma_split(ACCESS_KEY, a, account_id, ACCESS_KEY, key_encoding(public_key), rest);
    }
}

/// The key of the state that starts with the prefix of the contract data of an
/// account is contract data of that account.
pub proof fn lemma_under_data_prefix(k: TrieKeyView, account_id: Seq<u8>)
    requires
        k.valid(),
        valid_account_name(account_id),
        has_prefix(k.raw(), contract_data_prefix(account_id)),
    ensures
        k matches TrieKeyView::ContractData { account_id: a, .. } && a == account_id,
{
    let p = contract_data_prefix(account_id);
    let rest = k.raw().skip(p.len() as int);
    assert(k.raw() =~= p + rest);
    lemma_tag(k);
    if let TrieKeyView::ContractData { account_id: a, key } = k {
        lemma_split(CONTRACT_DATA, a, account_id, ACCOUNT_DATA_SEPARATOR, key, rest);
    }
}

fn prefixed(first: u8, account_id: &AccountId, separator: u8) -> (out: Vec<u8>)
    ensures
        out@ == account_prefix(first, account_id@, separator),
        valid_account_name(account_id@),
{
    let mut out: Vec<u8> = Vec::new();
    out.push(first);
    let mut name = copy_bytes(account_id.as_bytes());
    out.append(&mut name);
    out.push(separator);
    proof {
        assert(out@ =~= account_prefix(first, account_id@, separator));
    }
    out
}

/// What the keys of all access keys of an account start with.
pub fn get_raw_prefix_for_access_keys(account_id: &AccountId) -> (out: Vec<u8>)
    ensures
        out@ == access_keys_prefix(account_id@),
        valid_account_name(account_id@),
{
    prefixed(ACCESS_KEY, account_id, ACCESS_KEY)
}

/// What the keys of the contract data of an account start with whose own key
/// starts with `prefix`.
pub fn get_raw_prefix_for_contract_data(account_id: &AccountId, prefix: &[u8]) -> (out: Vec<u8>)
    ensures
        out@ == contract_data_prefix(account_id@) + prefix@,
        valid_account_name(account_id@),
{
    let mut out = prefixed(CONTRACT_DATA, account_id, ACCOUNT_DATA_SEPARATOR);
    let mut rest = copy_bytes(prefix);
    out.append(&mut rest);
    out
}

impl TrieKey {
    /// The key in bytes.
    pub fn to_vec(&self) -> (out: Vec<u8>)
        ensures
            out@ == self@.raw(),
            self@.valid(),
    {
        match self {
            TrieKey::Account { account_id } => {
                let mut out: Vec<u8> = vec![ACCOUNT];
                let mut name = copy_bytes(account_id.as_bytes());
                out.append(&mut name);
                out
            },
            TrieKey::ContractCode { account_id } => {
                let mut out: Vec<u8> = vec![CONTRACT_CODE];
                let mut name = copy_bytes(account_id.as_bytes());
                out.append(&mut name);
                out
            },
            TrieKey::AccessKey { account_id, public_key } => {
                let mut out = get_raw_prefix_for_access_keys(account_id);
                if let Ok(mut key) = public_key.try_to_vec() {
                    out.append(&mut key);
                }
                out
            },
            TrieKey::ReceivedData { receiver_id, data_id } => {
                let mut out = prefixed(RECEIVED_DATA, receiver_id, ACCOUNT_DATA_SEPARATOR);
                let mut id = copy_bytes(&data_id.0);
                out.append(&mut id);
                out
            },
            TrieKey::PostponedReceipt { receiver_id, receipt_id } => {
                let mut out = prefixed(POSTPONED_RECEIPT, receiver_id, ACCOUNT_DATA_SEPARATOR);
                let mut id = copy_bytes(&receipt_id.0);
                out.append(&mut id);
                out
            },
            TrieKey::DelayedReceiptIndices => vec![DELAYED_RECEIPT_INDICES],
            TrieKey::ContractData { account_id, key } => {
                get_raw_prefix_for_contract_data(account_id, key.as_slice())
            },
        }
    }
}

/// The public key in the bytes of the key of an access key of `account_id`.
pub fn parse_public_key_from_access_key_key(raw_key: &[u8], account_id: &AccountId) -> (r: Result<
    PublicKey,
    Error,
>)
    ensures
        match r {
            Ok(k) => raw_key@.len() >= access_keys_prefix(account_id@).len() && key_decoding(
                raw_key@.skip(access_keys_prefix(account_id@).len() as int),
            ) == Some(k@),
            Err(e) => e == Error::Deserialization && (raw_key@.len() < access_keys_prefix(
                account_id@,
            ).len() || key_decoding(
                raw_key@.skip(access_keys_prefix(account_id@).len() as int),
            ) is None),
        },
{
    let prefix_len: usize = account_id.as_bytes().len() + 2;
    if raw_key.len() < prefix_len {
        return Err(Error::Deserialization);
    }
    let rest = vstd::slice::slice_subrange(raw_key, prefix_len, raw_key.len());
    proof {
        assert(rest@ =~= raw_key@.skip(access_keys_prefix(account_id@).len() as int));
    }
    PublicKey::try_from_slice(rest)
}

/// The own key in the bytes of the key of contract data of `account_id`.
pub fn parse_data_key_from_contract_data_key(raw_key: &[u8], account_id: &AccountId) -> (r: Result<
    Vec<u8>,
    Error,
>)
    ensures
        match r {
            Ok(k) => raw_key@.len() >= contract_data_prefix(account_id@).len() && k@
                == raw_key@.skip(contract_data_prefix(account_id@).len() as int),
            Err(e) => e == Error::Deserialization && raw_key@.len() < contract_data_prefix(
                account_id@,
            ).len(),
        },
{
    let prefix_len: usize = account_id.as_bytes().len() + 2;
    if raw_key.len() < prefix_len {
        return Err(Error::Deserialization);
    }
    let rest = vstd::slice::slice_subrange(raw_key, prefix_len, raw_key.len());
    proof {
        assert(rest@ =~= raw_key@.skip(contract_data_prefix(account_id@).len() as int));
    }
    Ok(copy_bytes(rest))
}

/// The bytes are those of this access key.
pub open spec fn is_access_key(raw: Seq<u8>, account_id: Seq<u8>, public_key: KeyBytes) -> bool {
    let k = TrieKeyView::AccessKey { account_id, public_key };
    k.valid() && k.raw() == raw
}

/// The bytes are those of some access key.
pub open spec fn is_raw_access_key(raw: Seq<u8>) -> bool {
    exists|account_id: Seq<u8>, public_key: KeyBytes| is_access_key(raw, account_id, public_key)
}

/// Takes the bytes of the key of an access key apart.
pub fn parse_trie_key_access_key_from_raw_key(raw_key: &[u8]) -> (r: Result<TrieKey, Error>)
    ensures
        match r {
            Ok(k) => k is AccessKey && k@.valid() && k@.raw() == raw_key@,
            Err(e) => e == Error::Deserialization && !is_raw_access_key(raw_key@),
        },
{
    let ghost raw = raw_key@;
    if raw_key.len() == 0 || raw_key[0] != ACCESS_KEY {
        proof {
            assert forall|a: Seq<u8>, k: KeyBytes| !is_access_key(raw, a, k) by {
                if is_access_key(raw, a, k) {
                    assert((access_keys_prefix(a) + key_encoding(k))[0] == ACCESS_KEY);
                }
            }
        }
        return Err(Error::Deserialization);
    }
    let mut end: usize = 1;
    while end < raw_key.len() && raw_key[end] != ACCESS_KEY
        invariant
            1 <= end <= raw_key@.len(),
            raw == raw_key@,
            raw[0] == ACCESS_KEY,
            forall|i: int| 1 <= i < end ==> #[trigger] raw[i] != ACCESS_KEY,
        decreases raw_key@.len() - end,
    {
        end = end + 1;
    }
    proof {
        assert forall|a: Seq<u8>, k: KeyBytes| #[trigger] is_access_key(raw, a, k) implies {
            &&& end < raw.len()
            &&& raw[end as int] == ACCESS_KEY
            &&& raw.subrange(1, end as int) == a
            &&& raw.skip(end + 1) == key_encoding(k)
        } by {
            let whole = access_keys_prefix(a) + key_encoding(k);
            assert(whole[1 + a.len() as int] == ACCESS_KEY);
            if end < 1 + a.len() {
                assert(whole[end as int] == a[end - 1]);
                assert(is_account_char(a[end - 1]));
            }
            assert(end == 1 + a.len());
            assert(raw.subrange(1, end as int) =~= a);
            assert(raw.skip(end + 1) =~= key_encoding(k));
        }
    }
    if end >= raw_key.len() {
        return Err(Error::Deserialization);
    }
    let name = vstd::slice::slice_subrange(raw_key, 1, end);
    let account_id = match AccountId::from_bytes(name) {
        Some(id) => id,
        None => return Err(Error::Deserialization),
    };
    let rest = vstd::slice::slice_subrange(raw_key, end + 1, raw_key.len());
    proof {
        assert(rest@ =~= raw.skip(end + 1));
    }
    match PublicKey::try_from_slice(rest) {
        Ok(public_key) => {
            proof {
                lemma_key_decoding_canonical(rest@);
                assert(raw =~= access_keys_prefix(name@) + rest@);
            }
            Ok(TrieKey::AccessKey { account_id, public_key })
        },
        Err(_) => {
            proof {
                assert forall|a: Seq<u8>, k: KeyBytes| !is_access_key(raw, a, k) by {
                    if is_access_key(raw, a, k) {
                        lemma_key_round_trip(k);
                    }
                }
            }
            Err(Error::Deserialization)
        },
    }
}

} // verus!
