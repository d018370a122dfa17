//! Records that have a Borsh encoding.

use vstd::prelude::*;

use crate::borsh_format::{
    access_decoding, access_encoding, access_from_slice, access_to_vec, account_decoding,
    account_encoding, account_from_slice, account_to_vec, counters_decoding, counters_encoding,
    counters_from_slice, counters_to_vec, data_decoding, data_encoding, data_from_slice,
    data_to_vec, hash_from_slice, hash_to_vec, hashes_decoding, hashes_encoding, hashes_from_slice,
    hashes_to_vec, header_encoding, header_from_slice, header_to_vec, key_decoding, key_encoding,
    key_from_slice, key_to_vec, lemma_access_round_trip, lemma_account_round_trip,
    lemma_counters_round_trip, lemma_data_round_trip, lemma_hashes_round_trip, lemma_key_round_trip,
    lemma_take_header, limits_fit, take_header, KeyBytes, LimitsView,
};
use crate::error::Error;
use crate::types::{
    valid_account_name, AccessKey, AccessKeyPermission, Account, AccountId, CryptoHash,
    DelayedReceiptIndices, FunctionCallPermission, PublicKey, Receipt, ReceivedData,
};

verus! {

/// A record with a Borsh encoding.
pub trait Borsh: Sized {
    /// What a value of the type says.
    type Model;

    spec fn model(&self) -> Self::Model;

    /// The value can be written.
    spec fn encodable(m: Self::Model) -> bool;

    /// What is written for a value.
    spec fn encoding(m: Self::Model) -> Seq<u8>;

    /// What is read from some bytes; `None` where they are no encoding.
    spec fn decoding(b: Seq<u8>) -> Option<Self::Model>;

    /// What was written is read back.
    proof fn law_round_trip(m: Self::Model)
        requires
            Self::encodable(m),
        ensures
            Self::decoding(Self::encoding(m)) == Some(m),
    ;

    fn try_to_vec(&self) -> (r: Result<Vec<u8>, Error>)
        ensures
            match r {
                Ok(out) => Self::encodable(self.model()) && out@ == Self::encoding(self.model()),
                Err(e) => !Self::encodable(self.model()) && e == Error::Serialization,
            },
    ;

    fn try_from_slice(b: &[u8]) -> (r: Result<Self, Error>)
        ensures
            match r {
                Ok(v) => Self::decoding(b@) == Some(v.model()),
                Err(e) => Self::decoding(b@) is None && e == Error::Deserialization,
            },
    ;
}

impl Borsh for CryptoHash {
    type Model = Seq<u8>;

    open spec fn model(&self) -> Seq<u8> {
        self@
    }

    open spec fn encodable(m: Seq<u8>) -> bool {
        m.len() == 32
    }

    open spec fn encoding(m: Seq<u8>) -> Seq<u8> {
        m
    }

    open spec fn decoding(b: Seq<u8>) -> Option<Seq<u8>> {
        if b.len() == 32 {
            Some(b)
        } else {
            None
        }
    }

    proof fn law_round_trip(m: Seq<u8>) {
    }

    fn try_to_vec(&self) -> (r: Result<Vec<u8>, Error>) {
        match hash_to_vec(&self.0) {
            Ok(out) => Ok(out),
            Err(_) => Err(Error::Serialization),
        }
    }

    fn try_from_slice(b: &[u8]) -> (r: Result<Self, Error>) {
        match hash_from_slice(b) {
            Ok(hash) => Ok(CryptoHash(hash)),
            Err(_) => Err(Error::Deserialization),
        }
    }
}

impl Borsh for Vec<CryptoHash> {
    type Model = Seq<Seq<u8>>;

    open spec fn model(&self) -> Seq<Seq<u8>> {
        self@.map_values(|h: CryptoHash| h@)
    }

    open spec fn encodable(m: Seq<Seq<u8>>) -> bool {
        m.len() <= u32::MAX && forall|i: int| 0 <= i < m.len() ==> (#[trigger] m[i]).len() == 32
    }

    open spec fn encoding(m: Seq<Seq<u8>>) -> Seq<u8> {
        hashes_encoding(m)
    }

    open spec fn decoding(b: Seq<u8>) -> Option<Seq<Seq<u8>>> {
        hashes_decoding(b)
    }

    proof fn law_round_trip(m: Seq<Seq<u8>>) {
        lemma_hashes_round_trip(m);
    }

    fn try_to_vec(&self) -> (r: Result<Vec<u8>, Error>) {
        let mut plain: Vec<[u8; 32]> = Vec::new();
        let mut i: usize = 0;
        while i < self.len()
            invariant
                i <= self@.len(),
                plain@.len() == i,
                forall|n: int| 0 <= n < i ==> #[trigger] plain@[n] == self@[n].0,
            decreases self@.len() - i,
        {
            plain.push(self[i].0);
            i = i + 1;
        }
        proof {
            assert(plain@.map_values(|h: [u8; 32]| h@) =~= self.model());
        }
        match hashes_to_vec(&plain) {
            Ok(out) => Ok(out),
            Err(_) => Err(Error::Serialization),
        }
    }

    fn try_from_slice(b: &[u8]) -> (r: Result<Self, Error>) {
        match hashes_from_slice(b) {
            Ok(plain) => {
                let mut out: Vec<CryptoHash> = Vec::new();
                let mut i: usize = 0;
                while i < plain.len()
                    invariant
                        i <= plain@.len(),
                        out@.len() == i,
                        forall|n: int| 0 <= n < i ==> (#[trigger] out@[n]).0 == plain@[n],
                    decreases plain@.len() - i,
                {
                    out.push(CryptoHash(plain[i]));
                    i = i + 1;
                }
                proof {
                    assert(plain@.map_values(|h: [u8; 32]| h@) =~= out.model());
                }
                Ok(out)
            },
            Err(_) => Err(Error::Deserialization),
        }
    }
}

impl Borsh for DelayedReceiptIndices {
    type Model = (u64, u64);

    open spec fn model(&self) -> (u64, u64) {
        self@
    }

    open spec fn encodable(m: (u64, u64)) -> bool {
        true
    }

    open spec fn encoding(m: (u64, u64)) -> Seq<u8> {
        counters_encoding(m)
    }

    open spec fn decoding(b: Seq<u8>) -> Option<(u64, u64)> {
        counters_decoding(b)
    }

    proof fn law_round_trip(m: (u64, u64)) {
        lemma_counters_round_trip(m);
    }

    fn try_to_vec(&self) -> (r: Result<Vec<u8>, Error>) {
        match counters_to_vec(&(self.first_index, self.next_available_index)) {
            Ok(out) => Ok(out),
            Err(_) => Err(Error::Serialization),
        }
    }

    fn try_from_slice(b: &[u8]) -> (r: Result<Self, Error>) {
        match counters_from_slice(b) {
            Ok((first_index, next_available_index)) => Ok(
                DelayedReceiptIndices { first_index, next_available_index },
            ),
            Err(_) => Err(Error::Deserialization),
        }
    }
}

impl Borsh for Account {
    type Model = (u128, u128, Seq<u8>, u64);

    open spec fn model(&self) -> (u128, u128, Seq<u8>, u64) {
        self@
    }

    open spec fn encodable(m: (u128, u128, Seq<u8>, u64)) -> bool {
        m.2.len() == 32
    }

    open spec fn encoding(m: (u128, u128, Seq<u8>, u64)) -> Seq<u8> {
        account_encoding(m)
    }

    open spec fn decoding(b: Seq<u8>) -> Option<(u128, u128, Seq<u8>, u64)> {
        account_decoding(b)
    }

    proof fn law_round_trip(m: (u128, u128, Seq<u8>, u64)) {
        lemma_account_round_trip(m);
    }

    fn try_to_vec(&self) -> (r: Result<Vec<u8>, Error>) {
        match account_to_vec(&(self.amount, self.locked, self.code_hash.0, self.storage_usage)) {
            Ok(out) => Ok(out),
            Err(_) => Err(Error::Serialization),
        }
    }

    fn try_from_slice(b: &[u8]) -> (r: Result<Self, Error>) {
        match account_from_slice(b) {
            Ok((amount, locked, code_hash, storage_usage)) => Ok(
                Account { amount, locked, code_hash: CryptoHash(code_hash), storage_usage },
            ),
            Err(_) => Err(Error::Deserialization),
        }
    }
}

impl Borsh for ReceivedData {
    type Model = Option<Seq<u8>>;

    open spec fn model(&self) -> Option<Seq<u8>> {
        self@
    }

    open spec fn encodable(m: Option<Seq<u8>>) -> bool {
        m matches Some(s) ==> s.len() <= u32::MAX
    }

    open spec fn encoding(m: Option<Seq<u8>>) -> Seq<u8> {
        data_encoding(m)
    }

    open spec fn decoding(b: Seq<u8>) -> Option<Option<Seq<u8>>> {
        data_decoding(b)
    }

    proof fn law_round_trip(m: Option<Seq<u8>>) {
        lemma_data_round_trip(m);
    }

    fn try_to_vec(&self) -> (r: Result<Vec<u8>, Error>) {
        match data_to_vec(&self.data) {
            Ok(out) => Ok(out),
            Err(_) => Err(Error::Serialization),
        }
    }

    fn try_from_slice(b: &[u8]) -> (r: Result<Self, Error>) {
        match data_from_slice(b) {
            Ok(data) => Ok(ReceivedData { data }),
            Err(_) => Err(Error::Deserialization),
        }
    }
}

impl Borsh for PublicKey {
    type Model = KeyBytes;

    open spec fn model(&self) -> KeyBytes {
        self@
    }

    open spec fn encodable(m: KeyBytes) -> bool {
        m.valid()
    }

    open spec fn encoding(m: KeyBytes) -> Seq<u8> {
        key_encoding(m)
    }

    open spec fn decoding(b: Seq<u8>) -> Option<KeyBytes> {
        key_decoding(b)
    }

    proof fn law_round_trip(m: KeyBytes) {
        lemma_key_round_trip(m);
    }

    fn try_to_vec(&self) -> (r: Result<Vec<u8>, Error>) {
        let outcome: Result<[u8; 64], [u8; 32]> = match self {
            PublicKey::ED25519(k) => Err(*k),
            PublicKey::SECP256K1(k) => Ok(*k),
        };
        match key_to_vec(&outcome) {
            Ok(out) => Ok(out),
            Err(_) => Err(Error::Serialization),
        }
    }

    fn try_from_slice(b: &[u8]) -> (r: Result<Self, Error>) {
        match key_from_slice(b) {
            Ok(outcome) => match outcome {
                Err(k) => Ok(PublicKey::ED25519(k)),
                Ok(k) => Ok(PublicKey::SECP256K1(k)),
            },
            Err(_) => Err(Error::Deserialization),
        }
    }
}

/// A fresh copy of a list of texts.
fn copy_texts(texts: &Vec<String>) -> (out: Vec<String>)
    ensures
        out@.map_values(|s: String| s@) == texts@.map_values(|s: String| s@),
{
    let mut out: Vec<String> = Vec::new();
    let mut i: usize = 0;
    while i < texts.len()
        invariant
            i <= texts@.len(),
            out@.len() == i,
            forall|n: int| 0 <= n < i ==> (#[trigger] out@[n])@ == texts@[n]@,
        decreases texts@.len() - i,
    {
        out.push(texts[i].clone());
        i = i + 1;
    }
    proof {
        assert(out@.map_values(|s: String| s@) =~= texts@.map_values(|s: String| s@));
    }
    out
}

impl Borsh for AccessKey {
    type Model = (u64, Option<LimitsView>);

    open spec fn model(&self) -> (u64, Option<LimitsView>) {
        self@
    }

    open spec fn encodable(m: (u64, Option<LimitsView>)) -> bool {
        m.1 matches Some(l) ==> limits_fit(l)
    }

    open spec fn encoding(m: (u64, Option<LimitsView>)) -> Seq<u8> {
        access_encoding(m.0, m.1)
    }

    open spec fn decoding(b: Seq<u8>) -> Option<(u64, Option<LimitsView>)> {
        access_decoding(b)
    }

    proof fn law_round_trip(m: (u64, Option<LimitsView>)) {
        lemma_access_round_trip(m.0, m.1);
    }

    fn try_to_vec(&self) -> (r: Result<Vec<u8>, Error>) {
        let permission: Result<(), (Option<u128>, String, Vec<String>)> = match &self.permission {
            AccessKeyPermission::FullAccess => Ok(()),
            AccessKeyPermission::FunctionCall(p) => Err(
                (p.allowance, p.receiver_id.clone(), copy_texts(&p.method_names)),
            ),
        };
        match access_to_vec(&(self.nonce, permission)) {
            Ok(out) => Ok(out),
            Err(_) => Err(Error::Serialization),
        }
    }

    fn try_from_slice(b: &[u8]) -> (r: Result<Self, Error>) {
        match access_from_slice(b) {
            Ok((nonce, permission)) => {
                let permission = match permission {
                    Ok(()) => AccessKeyPermission::FullAccess,
                    Err((allowance, receiver_id, method_names)) => {
                        AccessKeyPermission::FunctionCall(
                            FunctionCallPermission { allowance, receiver_id, method_names },
                        )
                    },
                };
                Ok(AccessKey { nonce, permission })
            },
            Err(_) => Err(Error::Deserialization),
        }
    }
}

/// What a receipt says.
pub struct ReceiptView<M> {
    pub predecessor_id: Seq<u8>,
    pub receiver_id: Seq<u8>,
    pub receipt_id: Seq<u8>,
    pub receipt: M,
}

impl<B: Borsh> Borsh for Receipt<B> {
    type Model = ReceiptView<B::Model>;

    open spec fn model(&self) -> ReceiptView<B::Model> {
        ReceiptView {
            predecessor_id: self.predecessor_id@,
            receiver_id: self.receiver_id@,
            receipt_id: self.receipt_id@,
            receipt: self.receipt.model(),
        }
    }

    open spec fn encodable(m: ReceiptView<B::Model>) -> bool {
        &&& valid_account_name(m.predecessor_id)
        &&& valid_account_name(m.receiver_id)
        &&& m.receipt_id.len() == 32
        &&& B::encodable(m.receipt)
    }

    open spec fn encoding(m: ReceiptView<B::Model>) -> Seq<u8> {
        header_encoding(m.predecessor_id, m.receiver_id, m.receipt_id) + B::encoding(m.receipt)
    }

    open spec fn decoding(b: Seq<u8>) -> Option<ReceiptView<B::Model>> {
        match take_header(b) {
            None => None,
            Some((predecessor_id, receiver_id, receipt_id, body)) => if valid_account_name(
                predecessor_id,
            ) && valid_account_name(receiver_id) {
                match B::decoding(body) {
                    Some(receipt) => Some(
                        ReceiptView { predecessor_id, receiver_id, receipt_id, receipt },
                    ),
                    None => None,
                }
            } else {
                None
            },
        }
    }

    proof fn law_round_trip(m: ReceiptView<B::Model>) {
        B::law_round_trip(m.receipt);
        lemma_take_header(m.predecessor_id, m.receiver_id, m.receipt_id, B::encoding(m.receipt));
    }

    fn try_to_vec(&self) -> (r: Result<Vec<u8>, Error>) {
        let mut body = match self.receipt.try_to_vec() {
            Ok(body) => body,
            Err(e) => return Err(e),
        };
        match header_to_vec(
            self.predecessor_id.as_bytes(),
            self.receiver_id.as_bytes(),
            &self.receipt_id.0,
        ) {
            Ok(mut out) => {
                out.append(&mut body);
                Ok(out)
            },
            Err(_) => Err(Error::Serialization),
        }
    }

    fn try_from_slice(b: &[u8]) -> (r: Result<Self, Error>) {
        let (predecessor_id, receiver_id, receipt_id, body) = match header_from_slice(b) {
            Ok(parts) => parts,
            Err(_) => return Err(Error::Deserialization),
        };
        match (
            AccountId::from_bytes(predecessor_id.as_slice()),
            AccountId::from_bytes(receiver_id.as_slice()),
        ) {
            (Some(predecessor_id), Some(receiver_id)) => match B::try_from_slice(body.as_slice()) {
                Ok(receipt) => Ok(
                    Receipt {
                        predecessor_id,
                        receiver_id,
                        receipt_id: CryptoHash(receipt_id),
                        receipt,
                    },
                ),
                Err(e) => Err(e),
            },
            _ => Err(Error::Deserialization),
        }
    }
}

} // verus!
