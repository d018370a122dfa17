//! The records that the state of the chain is made of.

use vstd::prelude::*;

use crate::borsh_format::{KeyBytes, LimitsView};
use crate::bytes::copy_bytes;

verus! {

/// A hash of 32 bytes.
#[derive(Clone, Copy, Debug, PartialEq, Eq)]
pub struct CryptoHash(pub [u8; 32]);

impl View for CryptoHash {
    type V = Seq<u8>;

    open spec fn view(&self) -> Seq<u8> {
        self.0@
    }
}

/// The root of the state trie of a shard.
pub type StateRoot = CryptoHash;

pub open spec fn is_separator(c: u8) -> bool {
    c == 45 || c == 46 || c == 95
}

pub open spec fn is_account_char(c: u8) -> bool {
    97 <= c <= 122 || 48 <= c <= 57 || is_separator(c)
}

/// The names that an account can have: 2 to 64 lower-case letters, digits and
/// separators (`-`, `.` and `_`), where a separator stands between two other
/// characters.
pub open spec fn valid_account_name(s: Seq<u8>) -> bool {
    &&& 2 <= s.len() <= 64
    &&& forall|i: int| 0 <= i < s.len() ==> is_account_char(#[trigger] s[i])
    &&& !is_separator(s[0])
    &&& !is_separator(s.last())
    &&& forall|i: int|
        0 < i < s.len() ==> !(is_separator(s[i - 1]) && is_separator(#[trigger] s[i]))
}

/// The name of an account.
#[derive(Debug, PartialEq, Eq)]
pub struct AccountId {
    name: Vec<u8>,
}

impl View for AccountId {
    type V = Seq<u8>;

    closed spec fn view(&self) -> Seq<u8> {
        self.name@
    }
}

impl AccountId {
    #[verifier::type_invariant]
    spec fn well_named(self) -> bool {
        valid_account_name(self.name@)
    }

    /// The account with this name, if an account can have it.
    pub fn from_bytes(name: &[u8]) -> (r: Option<AccountId>)
        ensures
            r is Some <==> valid_account_name(name@),
            r matches Some(id) ==> id@ == name@,
    {
        if name.len() < 2 || name.len() > 64 {
            return None;
        }
        let mut after_separator: bool = true;
        let mut i: usize = 0;
        while i < name.len()
            invariant
                i <= name@.len(),
                2 <= name@.len() <= 64,
                after_separator == (i == 0 || is_separator(name@[i - 1])),
                forall|k: int| 0 <= k < i ==> is_account_char(#[trigger] name@[k]),
                i > 0 ==> !is_separator(name@[0]),
                forall|k: int|
                    0 < k < i ==> !(is_separator(name@[k - 1]) && is_separator(
                        #[trigger] name@[k],
                    )),
            decreases name@.len() - i,
        {
            let c: u8 = name[i];
            let separator: bool = c == 45 || c == 46 || c == 95;
            let plain: bool = (97 <= c && c <= 122) || (48 <= c && c <= 57);
            if !separator && !plain {
                proof {
                    assert(!is_account_char(name@[i as int]));
                }
                return None;
            }
            if separator && after_separator {
                proof {
                    if i > 0 {
                        assert(is_separator(name@[i - 1]) && is_separator(name@[i as int]));
                    }
                }
                return None;
            }
            after_separator = separator;
            i = i + 1;
        }
        if after_separator {
            return None;
        }
        Some(AccountId { name: copy_bytes(name) })
    }

    /// The name.
    pub fn as_bytes(&self) -> (s: &[u8])
        ensures
            s@ == self@,
            valid_account_name(self@),
    {
        proof {
            use_type_invariant(self);
        }
        self.name.as_slice()
    }
}

impl Clone for AccountId {
    fn clone(&self) -> (r: Self)
        ensures
            r@ == self@,
    {
        proof {
            use_type_invariant(self);
        }
        AccountId { name: copy_bytes(self.name.as_slice()) }
    }
}

/// A public key.
#[derive(Clone, Copy, Debug, PartialEq, Eq)]
pub enum PublicKey {
    ED25519([u8; 32]),
    SECP256K1([u8; 64]),
}

impl View for PublicKey {
    type V = KeyBytes;

    open spec fn view(&self) -> KeyBytes {
        match self {
            PublicKey::ED25519(k) => KeyBytes::Short(k@),
            PublicKey::SECP256K1(k) => KeyBytes::Long(k@),
        }
    }
}

/// What is known of an account.
#[derive(Clone, Copy, Debug, PartialEq, Eq)]
pub struct Account {
    pub amount: u128,
    pub locked: u128,
    pub code_hash: CryptoHash,
    pub storage_usage: u64,
}

impl View for Account {
    type V = (u128, u128, Seq<u8>, u64);

    open spec fn view(&self) -> (u128, u128, Seq<u8>, u64) {
        (self.amount, self.locked, self.code_hash@, self.storage_usage)
    }
}

/// What an access key that may only call functions is limited to.
#[derive(Debug, PartialEq, Eq)]
pub struct FunctionCallPermission {
    pub allowance: Option<u128>,
    pub receiver_id: String,
    pub method_names: Vec<String>,
}

/// What an access key is good for.
#[derive(Debug, PartialEq, Eq)]
pub enum AccessKeyPermission {
    FunctionCall(FunctionCallPermission),
    FullAccess,
}

/// An access key of an account.
#[derive(Debug, PartialEq, Eq)]
pub struct AccessKey {
    pub nonce: u64,
    pub permission: AccessKeyPermission,
}

impl View for AccessKey {
    type V = (u64, Option<LimitsView>);

    open spec fn view(&self) -> (u64, Option<LimitsView>) {
        (
            self.nonce,
            match self.permission {
                AccessKeyPermission::FullAccess => None,
                AccessKeyPermission::FunctionCall(p) => Some(
                    LimitsView {
                        allowance: p.allowance,
                        receiver_id: p.receiver_id@,
                        method_names: p.method_names@.map_values(|s: String| s@),
                    },
                ),
            },
        )
    }
}

/// Data that an account received.
#[derive(Debug, PartialEq, Eq)]
pub struct ReceivedData {
    pub data: Option<Vec<u8>>,
}

impl View for ReceivedData {
    type V = Option<Seq<u8>>;

    open spec fn view(&self) -> Option<Seq<u8>> {
        crate::bytes::opt_bytes(self.data)
    }
}

/// Where the queue of delayed receipts starts and ends.
#[derive(Clone, Copy, Debug, PartialEq, Eq, Structural)]
pub struct DelayedReceiptIndices {
    pub first_index: u64,
    pub next_available_index: u64,
}

impl View for DelayedReceiptIndices {
    type V = (u64, u64);

    open spec fn view(&self) -> (u64, u64) {
        (self.first_index, self.next_available_index)
    }
}

impl Default for DelayedReceiptIndices {
    fn default() -> (r: Self)
        ensures
            r@ == (0u64, 0u64),
    {
        DelayedReceiptIndices { first_index: 0, next_available_index: 0 }
    }
}

/// A message from one account to another. What it asks for is the body.
#[derive(Debug, PartialEq, Eq)]
pub struct Receipt<B> {
    pub predecessor_id: AccountId,
    pub receiver_id: AccountId,
    pub receipt_id: CryptoHash,
    pub receipt: B,
}

/// `sha2::Sha256::digest`: the SHA-256 digest of some bytes.
pub uninterp spec fn sha256_digest(data: Seq<u8>) -> Seq<u8>;

/// `sha2::Sha256::digest`: the digest depends on the data alone and has 32
/// bytes.
#[verifier::external_body]
fn sha256(data: &[u8]) -> (r: [u8; 32])
    ensures
        r@ == sha256_digest(data@),
{
    <sha2::Sha256 as sha2::Digest>::digest(data).into()
}

/// The code of a contract and its hash.
#[derive(Debug, PartialEq, Eq)]
pub struct ContractCode {
    code: Vec<u8>,
    hash: CryptoHash,
}

impl ContractCode {
    /// The code itself.
    pub closed spec fn bytes(&self) -> Seq<u8> {
        self.code@
    }

    /// The hash under which the code is known.
    pub closed spec fn digest(&self) -> Seq<u8> {
        self.hash@
    }

    /// The code with its hash, which is computed where it is not given.
    pub fn new(code: Vec<u8>, hash: Option<CryptoHash>) -> (r: ContractCode)
        ensures
            r.bytes() == code@,
            r.digest() == (match hash {
                Some(h) => h@,
                None => sha256_digest(code@),
            }),
    {
        let hash = match hash {
            Some(h) => h,
            None => CryptoHash(sha256(code.as_slice())),
        };
        ContractCode { code, hash }
    }

    pub fn code(&self) -> (code: &[u8])
        ensures
            code@ == self.bytes(),
    {
        self.code.as_slice()
    }

    pub fn hash(&self) -> (hash: &CryptoHash)
        ensures
            hash@ == self.digest(),
    {
        &self.hash
    }
}

} // verus!
