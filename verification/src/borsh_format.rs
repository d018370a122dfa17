//! The Borsh encodings that the records of the store use, and the calls into
//! the `borsh` crate that write and read them.
//!
//! Borsh writes integers in little-endian order, arrays and tuples as their
//! parts in turn, and vectors and strings as a length in four bytes followed by
//! the content. An optional value has a byte in front: 0 where there is none
//! and 1 where there is one. An outcome has a byte in front as well: 0 for a
//! failure and 1 for a success.

use vstd::prelude::*;
use vstd::utf8::{decode_utf8, encode_utf8, valid_utf8};

use crate::bytes::{le_bytes, le_value, lemma_le_limits, lemma_le_value_of_bytes};

verus! {

/// [`std::io::Error`]: what the outside calls fail with. Nothing is known of
/// its content.
#[verifier::external_type_specification]
#[verifier::external_body]
pub struct ExIoError(std::io::Error);

/// A byte string with its length in front.
pub open spec fn sized(s: Seq<u8>) -> Seq<u8> {
    le_bytes(s.len(), 4) + s
}

/// Takes a byte string with its length in front from the start of `b`: the
/// string, and what comes behind it.
pub open spec fn take_sized(b: Seq<u8>) -> Option<(Seq<u8>, Seq<u8>)> {
    if b.len() < 4 {
        None
    } else {
        let n = le_value(b.take(4));
        if b.len() < 4 + n {
            None
        } else {
            Some((b.subrange(4, 4 + n as int), b.skip(4 + n as int)))
        }
    }
}

/// A byte string survives being written and read, whatever follows it.
pub proof fn lemma_take_sized(s: Seq<u8>, rest: Seq<u8>)
    requires
        s.len() <= u32::MAX,
    ensures
        take_sized(sized(s) + rest) == Some((s, rest)),
{
    lemma_le_limits();
    lemma_le_value_of_bytes(s.len(), 4);
    let b = sized(s) + rest;
    assert(b.take(4) =~= le_bytes(s.len(), 4));
    assert(b.subrange(4, 4 + s.len() as int) =~= s);
    assert(b.skip(4 + s.len() as int) =~= rest);
}

/// A text with the length of its UTF-8 form in front.
pub open spec fn sized_text(s: Seq<char>) -> Seq<u8> {
    sized(encode_utf8(s))
}

pub open spec fn take_text(b: Seq<u8>) -> Option<(Seq<char>, Seq<u8>)> {
    match take_sized(b) {
        Some((s, rest)) => if valid_utf8(s) {
            Some((decode_utf8(s), rest))
        } else {
            None
        },
        None => None,
    }
}

pub proof fn lemma_take_text(s: Seq<char>, rest: Seq<u8>)
    requires
        encode_utf8(s).len() <= u32::MAX,
    ensures
        take_text(sized_text(s) + rest) == Some((s, rest)),
{
    lemma_take_sized(encode_utf8(s), rest);
    vstd::utf8::encode_utf8_valid_utf8(s);
    vstd::utf8::encode_utf8_decode_utf8(s);
}

/// Texts in turn, without their number.
pub open spec fn texts(s: Seq<Seq<char>>) -> Seq<u8>
    decreases s.len(),
{
    if s.len() == 0 {
        Seq::empty()
    } else {
        sized_text(s[0]) + texts(s.skip(1))
    }
}

/// Takes `n` texts from the start of `b`.
pub open spec fn take_texts(n: nat, b: Seq<u8>) -> Option<(Seq<Seq<char>>, Seq<u8>)>
    decreases n,
{
    if n == 0 {
        Some((Seq::empty(), b))
    } else {
        match take_text(b) {
            None => None,
            Some((first, behind)) => match take_texts((n - 1) as nat, behind) {
                None => None,
                Some((others, rest)) => Some((seq![first] + others, rest)),
            },
        }
    }
}

pub open spec fn text_fits(s: Seq<char>) -> bool {
    encode_utf8(s).len() <= u32::MAX
}

proof fn lemma_take_texts(s: Seq<Seq<char>>, rest: Seq<u8>)
    requires
        forall|i: int| 0 <= i < s.len() ==> text_fits(#[trigger] s[i]),
    ensures
        take_texts(s.len(), texts(s) + rest) == Some((s, rest)),
    decreases s.len(),
{
    if s.len() == 0 {
        assert(texts(s) + rest =~= rest);
        assert(s =~= Seq::<Seq<char>>::empty());
    } else {
        let tail = s.skip(1);
        assert forall|i: int| 0 <= i < tail.len() implies text_fits(#[trigger] tail[i]) by {
            assert(text_fits(s[i + 1]));
        }
        lemma_take_texts(tail, rest);
        assert(texts(s) + rest =~= sized_text(s[0]) + (texts(tail) + rest));
        assert(text_fits(s[0]));
        lemma_take_text(s[0], texts(tail) + rest);
        assert(seq![s[0]] + tail =~= s);
    }
}

/// Hashes of 32 bytes each, with their number in front.
pub open spec fn hashes_encoding(s: Seq<Seq<u8>>) -> Seq<u8> {
    le_bytes(s.len(), 4) + Seq::new(32 * s.len(), |i: int| s[i / 32][i % 32])
}

pub open spec fn hashes_decoding(b: Seq<u8>) -> Option<Seq<Seq<u8>>> {
    if b.len() < 4 {
        None
    } else {
        let n = le_value(b.take(4));
        if b.len() != 4 + 32 * n {
            None
        } else {
            Some(Seq::new(n, |i: int| b.subrange(4 + 32 * i, 36 + 32 * i)))
        }
    }
}

pub proof fn lemma_hashes_round_trip(s: Seq<Seq<u8>>)
    requires
        s.len() <= u32::MAX,
        forall|i: int| 0 <= i < s.len() ==> (#[trigger] s[i]).len() == 32,
    ensures
        hashes_decoding(hashes_encoding(s)) == Some(s),
{
    lemma_le_limits();
    lemma_le_value_of_bytes(s.len(), 4);
    let b = hashes_encoding(s);
    assert(b.take(4) =~= le_bytes(s.len(), 4));
    let back = Seq::new(s.len(), |i: int| b.subrange(4 + 32 * i, 36 + 32 * i));
    assert forall|i: int| 0 <= i < s.len() implies back[i] == #[trigger] s[i] by {
        assert forall|j: int| 0 <= j < 32 implies back[i][j] == s[i][j] by {
            let at = 32 * i + j;
            assert(at / 32 == i && at % 32 == j);
            assert(b[4 + at] == s[i][j]);
        }
        assert(back[i] =~= s[i]);
    }
    assert(back =~= s);
}

/// Two counters.
pub open spec fn counters_encoding(m: (u64, u64)) -> Seq<u8> {
    le_bytes(m.0 as nat, 8) + le_bytes(m.1 as nat, 8)
}

pub open spec fn counters_decoding(b: Seq<u8>) -> Option<(u64, u64)> {
    if b.len() != 16 {
        None
    } else {
        Some((le_value(b.take(8)) as u64, le_value(b.skip(8)) as u64))
    }
}

pub proof fn lemma_counters_round_trip(m: (u64, u64))
    ensures
        counters_decoding(counters_encoding(m)) == Some(m),
{
    lemma_le_limits();
    lemma_le_value_of_bytes(m.0 as nat, 8);
    lemma_le_value_of_bytes(m.1 as nat, 8);
    let b = counters_encoding(m);
    assert(b.take(8) =~= le_bytes(m.0 as nat, 8));
    assert(b.skip(8) =~= le_bytes(m.1 as nat, 8));
}

/// The parts of an account: two amounts, a hash of 32 bytes, and a size.
pub open spec fn account_encoding(m: (u128, u128, Seq<u8>, u64)) -> Seq<u8> {
    le_bytes(m.0 as nat, 16) + le_bytes(m.1 as nat, 16) + m.2 + le_bytes(m.3 as nat, 8)
}

pub open spec fn account_decoding(b: Seq<u8>) -> Option<(u128, u128, Seq<u8>, u64)> {
    if b.len() != 72 {
        None
    } else {
        Some(
            (
                le_value(b.take(16)) as u128,
                le_value(b.subrange(16, 32)) as u128,
                b.subrange(32, 64),
                le_value(b.skip(64)) as u64,
            ),
        )
    }
}

pub proof fn lemma_account_round_trip(m: (u128, u128, Seq<u8>, u64))
    requires
        m.2.len() == 32,
    ensures
        account_decoding(account_encoding(m)) == Some(m),
{
    lemma_le_limits();
    lemma_le_value_of_bytes(m.0 as nat, 16);
    lemma_le_value_of_bytes(m.1 as nat, 16);
    lemma_le_value_of_bytes(m.3 as nat, 8);
    let b = account_encoding(m);
    assert(b.take(16) =~= le_bytes(m.0 as nat, 16));
    assert(b.subrange(16, 32) =~= le_bytes(m.1 as nat, 16));
    assert(b.subrange(32, 64) =~= m.2);
    assert(b.skip(64) =~= le_bytes(m.3 as nat, 8));
}

/// Data that may be absent.
pub open spec fn data_encoding(m: Option<Seq<u8>>) -> Seq<u8> {
    match m {
        None => seq![0u8],
        Some(s) => seq![1u8] + sized(s),
    }
}

pub open spec fn data_decoding(b: Seq<u8>) -> Option<Option<Seq<u8>>> {
    if b.len() == 0 {
        None
    } else if b[0] == 0 {
        if b.len() == 1 {
            Some(None)
        } else {
            None
        }
    } else if b[0] == 1 {
        match take_sized(b.skip(1)) {
            Some((s, rest)) => if rest.len() == 0 {
                Some(Some(s))
            } else {
                None
            },
            None => None,
        }
    } else {
        None
    }
}

pub proof fn lemma_data_round_trip(m: Option<Seq<u8>>)
    requires
        m matches Some(s) ==> s.len() <= u32::MAX,
    ensures
        data_decoding(data_encoding(m)) == Some(m),
{
    match m {
        None => {},
        Some(s) => {
            lemma_take_sized(s, Seq::empty());
            assert(data_encoding(m).skip(1) =~= sized(s) + Seq::<u8>::empty());
        },
    }
}

/// A key of 32 bytes or one of 64 bytes, told apart by the first byte.
pub enum KeyBytes {
    Short(Seq<u8>),
    Long(Seq<u8>),
}

impl KeyBytes {
    pub open spec fn valid(self) -> bool {
        match self {
            KeyBytes::Short(s) => s.len() == 32,
            KeyBytes::Long(s) => s.len() == 64,
        }
    }
}

pub open spec fn key_encoding(m: KeyBytes) -> Seq<u8> {
    match m {
        KeyBytes::Short(s) => seq![0u8] + s,
        KeyBytes::Long(s) => seq![1u8] + s,
    }
}

pub open spec fn key_decoding(b: Seq<u8>) -> Option<KeyBytes> {
    if b.len() == 33 && b[0] == 0 {
        Some(KeyBytes::Short(b.skip(1)))
    } else if b.len() == 65 && b[0] == 1 {
        Some(KeyBytes::Long(b.skip(1)))
    } else {
        None
    }
}

pub proof fn lemma_key_round_trip(m: KeyBytes)
    requires
        m.valid(),
    ensures
        key_decoding(key_encoding(m)) == Some(m),
{
    match m {
        KeyBytes::Short(s) => {
            assert(key_encoding(m).skip(1) =~= s);
        },
        KeyBytes::Long(s) => {
            assert(key_encoding(m).skip(1) =~= s);
        },
    }
}

/// No two encodings are read as the same key.
pub proof fn lemma_key_decoding_canonical(b: Seq<u8>)
    requires
        key_decoding(b) is Some,
    ensures
        key_encoding(key_decoding(b)->0) == b,
        key_decoding(b)->0.valid(),
{
    assert(seq![b[0]] + b.skip(1) =~= b);
}

/// What an access key that may only call functions is limited to: an amount,
/// where there is a limit, the receiver, and the names of the functions.
pub struct LimitsView {
    pub allowance: Option<u128>,
    pub receiver_id: Seq<char>,
    pub method_names: Seq<Seq<char>>,
}

/// The parts of an access key: a nonce, and the limits where there are any.
pub open spec fn access_encoding(nonce: u64, limits: Option<LimitsView>) -> Seq<u8> {
    le_bytes(nonce as nat, 8) + match limits {
        None => seq![1u8],
        Some(l) => seq![0u8] + (match l.allowance {
            None => seq![0u8],
            Some(a) => seq![1u8] + le_bytes(a as nat, 16),
        }) + (sized_text(l.receiver_id) + (le_bytes(l.method_names.len(), 4) + texts(
            l.method_names,
        ))),
    }
}

pub open spec fn limits_fit(l: LimitsView) -> bool {
    &&& text_fits(l.receiver_id)
    &&& l.method_names.len() <= u32::MAX
    &&& forall|i: int| 0 <= i < l.method_names.len() ==> text_fits(#[trigger] l.method_names[i])
}

/// Takes the receiver and the function names, which have to fill `b`.
pub open spec fn names_decoding(allowance: Option<u128>, b: Seq<u8>) -> Option<LimitsView> {
    match take_text(b) {
        None => None,
        Some((receiver_id, behind)) => if behind.len() < 4 {
            None
        } else {
            match take_texts(le_value(behind.take(4)), behind.skip(4)) {
                None => None,
                Some((method_names, rest)) => if rest.len() == 0 {
                    Some(LimitsView { allowance, receiver_id, method_names })
                } else {
                    None
                },
            }
        },
    }
}

pub open spec fn limits_decoding(b: Seq<u8>) -> Option<LimitsView> {
    if b.len() == 0 {
        None
    } else if b[0] == 0 {
        names_decoding(None, b.skip(1))
    } else if b[0] == 1 && b.len() >= 17 {
        names_decoding(Some(le_value(b.subrange(1, 17)) as u128), b.skip(17))
    } else {
        None
    }
}

pub open spec fn access_decoding(b: Seq<u8>) -> Option<(u64, Option<LimitsView>)> {
    if b.len() < 9 {
        None
    } else {
        let nonce = le_value(b.take(8)) as u64;
        if b[8] == 1 {
            if b.len() == 9 {
                Some((nonce, None))
            } else {
                None
            }
        } else if b[8] == 0 {
            match limits_decoding(b.skip(9)) {
                Some(l) => Some((nonce, Some(l))),
                None => None,
            }
        } else {
            None
        }
    }
}

pub proof fn lemma_access_round_trip(nonce: u64, limits: Option<LimitsView>)
    requires
        limits matches Some(l) ==> limits_fit(l),
    ensures
        access_decoding(access_encoding(nonce, limits)) == Some((nonce, limits)),
{
    lemma_le_limits();
    lemma_le_value_of_bytes(nonce as nat, 8);
    let b = access_encoding(nonce, limits);
    assert(b.take(8) =~= le_bytes(nonce as nat, 8));
    match limits {
        None => {},
        Some(l) => {
            let number = le_bytes(l.method_names.len(), 4);
            lemma_le_value_of_bytes(l.method_names.len(), 4);
            let names = sized_text(l.receiver_id) + (number + texts(l.method_names));
            lemma_take_text(l.receiver_id, number + texts(l.method_names));
            let behind = number + texts(l.method_names);
            assert(behind.take(4) =~= number);
            assert(behind.skip(4) =~= texts(l.method_names) + Seq::<u8>::empty());
            lemma_take_texts(l.method_names, Seq::empty());
            assert(names_decoding(l.allowance, names) == Some(l));
            let inner = b.skip(9);
            match l.allowance {
                None => {
                    assert(inner =~= seq![0u8] + names);
                    assert(inner.skip(1) =~= names);
                },
                Some(a) => {
                    lemma_le_value_of_bytes(a as nat, 16);
                    assert(inner =~= seq![1u8] + le_bytes(a as nat, 16) + names);
                    assert(inner.subrange(1, 17) =~= le_bytes(a as nat, 16));
                    assert(inner.skip(17) =~= names);
                },
            }
        },
    }
}

/// The start of a receipt: the sender, the receiver, and a hash of 32 bytes.
pub open spec fn header_encoding(sender: Seq<u8>, receiver: Seq<u8>, id: Seq<u8>) -> Seq<u8> {
    sized(sender) + (sized(receiver) + id)
}

/// Takes the start of a receipt: its parts, and what comes behind it.
pub open spec fn take_header(b: Seq<u8>) -> Option<(Seq<u8>, Seq<u8>, Seq<u8>, Seq<u8>)> {
    match take_sized(b) {
        None => None,
        Some((sender, b1)) => match take_sized(b1) {
            None => None,
            Some((receiver, b2)) => if b2.len() < 32 {
                None
            } else {
                Some((sender, receiver, b2.take(32), b2.skip(32)))
            },
        },
    }
}

pub proof fn lemma_take_header(sender: Seq<u8>, receiver: Seq<u8>, id: Seq<u8>, rest: Seq<u8>)
    requires
        sender.len() <= u32::MAX,
        receiver.len() <= u32::MAX,
        id.len() == 32,
    ensures
        take_header(header_encoding(sender, receiver, id) + rest) == Some(
            (sender, receiver, id, rest),
        ),
{
    let b2 = id + rest;
    let b1 = sized(receiver) + b2;
    assert(header_encoding(sender, receiver, id) + rest =~= sized(sender) + b1);
    lemma_take_sized(sender, b1);
    lemma_take_sized(receiver, b2);
    assert(b2.take(32) =~= id);
    assert(b2.skip(32) =~= rest);
}

/// `borsh::BorshSerialize::try_to_vec` on an array of 32 bytes: it never fails
/// and gives the bytes as they are.
#[verifier::external_body]
pub(crate) fn hash_to_vec(hash: &[u8; 32]) -> (r: Result<Vec<u8>, std::io::Error>)
    ensures
        r is Ok,
        r matches Ok(out) ==> out@ == hash@,
{
    borsh::BorshSerialize::try_to_vec(hash)
}

/// `borsh::BorshDeserialize::try_from_slice` on an array of 32 bytes: it fails
/// on any other number of bytes and gives the bytes as they are.
#[verifier::external_body]
pub(crate) fn hash_from_slice(b: &[u8]) -> (r: Result<[u8; 32], std::io::Error>)
    ensures
        r is Ok <==> b@.len() == 32,
        r matches Ok(hash) ==> hash@ == b@,
{
    borsh::BorshDeserialize::try_from_slice(b)
}

/// `borsh::BorshSerialize::try_to_vec` on a vector of arrays of 32 bytes: it
/// fails where their number does not fit in four bytes.
#[verifier::external_body]
pub(crate) fn hashes_to_vec(hashes: &Vec<[u8; 32]>) -> (r: Result<Vec<u8>, std::io::Error>)
    ensures
        r is Ok <==> hashes@.len() <= u32::MAX,
        r matches Ok(out) ==> out@ == hashes_encoding(hashes@.map_values(|h: [u8; 32]| h@)),
{
    borsh::BorshSerialize::try_to_vec(hashes)
}

/// `borsh::BorshDeserialize::try_from_slice` on a vector of arrays of 32
/// bytes: it fails where the bytes are not a number and as many arrays.
#[verifier::external_body]
pub(crate) fn hashes_from_slice(b: &[u8]) -> (r: Result<Vec<[u8; 32]>, std::io::Error>)
    ensures
        r is Ok <==> hashes_decoding(b@) is Some,
        r matches Ok(hashes) ==> hashes_decoding(b@) == Some(
            hashes@.map_values(|h: [u8; 32]| h@),
        ),
{
    borsh::BorshDeserialize::try_from_slice(b)
}

/// `borsh::BorshSerialize::try_to_vec` on a pair of integers: it never fails.
#[verifier::external_body]
pub(crate) fn counters_to_vec(counters: &(u64, u64)) -> (r: Result<Vec<u8>, std::io::Error>)
    ensures
        r is Ok,
        r matches Ok(out) ==> out@ == counters_encoding(*counters),
{
    borsh::BorshSerialize::try_to_vec(counters)
}

/// `borsh::BorshDeserialize::try_from_slice` on a pair of integers: it fails
/// on any number of bytes but sixteen.
#[verifier::external_body]
pub(crate) fn counters_from_slice(b: &[u8]) -> (r: Result<(u64, u64), std::io::Error>)
    ensures
        r is Ok <==> counters_decoding(b@) is Some,
        r matches Ok(counters) ==> counters_decoding(b@) == Some(counters),
{
    borsh::BorshDeserialize::try_from_slice(b)
}

/// `borsh::BorshSerialize::try_to_vec` on two 128-bit integers, an array of 32
/// bytes and a 64-bit integer: it never fails.
#[verifier::external_body]
pub(crate) fn account_to_vec(parts: &(u128, u128, [u8; 32], u64)) -> (r: Result<
    Vec<u8>,
    std::io::Error,
>)
    ensures
        r is Ok,
        r matches Ok(out) ==> out@ == account_encoding((parts.0, parts.1, parts.2@, parts.3)),
{
    borsh::BorshSerialize::try_to_vec(parts)
}

/// `borsh::BorshDeserialize::try_from_slice` on two 128-bit integers, an array
/// of 32 bytes and a 64-bit integer: it fails on any number of bytes but 72.
#[verifier::external_body]
pub(crate) fn account_from_slice(b: &[u8]) -> (r: Result<
    (u128, u128, [u8; 32], u64),
    std::io::Error,
>)
    ensures
        r is Ok <==> account_decoding(b@) is Some,
        r matches Ok(parts) ==> account_decoding(b@) == Some(
            (parts.0, parts.1, parts.2@, parts.3),
        ),
{
    borsh::BorshDeserialize::try_from_slice(b)
}

/// `borsh::BorshSerialize::try_to_vec` on an optional vector of bytes: it
/// fails where their number does not fit in four bytes.
#[verifier::external_body]
pub(crate) fn data_to_vec(data: &Option<Vec<u8>>) -> (r: Result<Vec<u8>, std::io::Error>)
    ensures
        r is Ok <==> (data matches Some(d) ==> d@.len() <= u32::MAX),
        r matches Ok(out) ==> out@ == data_encoding(crate::bytes::opt_bytes(*data)),
{
    borsh::BorshSerialize::try_to_vec(data)
}

/// `borsh::BorshDeserialize::try_from_slice` on an optional vector of bytes:
/// it fails on a first byte but 0 and 1, where the vector is cut short, and
/// where bytes are left over.
#[verifier::external_body]
pub(crate) fn data_from_slice(b: &[u8]) -> (r: Result<Option<Vec<u8>>, std::io::Error>)
    ensures
        r is Ok <==> data_decoding(b@) is Some,
        r matches Ok(data) ==> data_decoding(b@) == Some(crate::bytes::opt_bytes(data)),
{
    borsh::BorshDeserialize::try_from_slice(b)
}

/// The content of an outcome that holds a key either way.
pub open spec fn outcome_key(key: Result<[u8; 64], [u8; 32]>) -> KeyBytes {
    match key {
        Ok(long) => KeyBytes::Long(long@),
        Err(short) => KeyBytes::Short(short@),
    }
}

/// `borsh::BorshSerialize::try_to_vec` on an outcome with an array either way:
/// it never fails.
#[verifier::external_body]
pub(crate) fn key_to_vec(key: &Result<[u8; 64], [u8; 32]>) -> (r: Result<Vec<u8>, std::io::Error>)
    ensures
        r is Ok,
        r matches Ok(out) ==> out@ == key_encoding(outcome_key(*key)),
{
    borsh::BorshSerialize::try_to_vec(key)
}

/// `borsh::BorshDeserialize::try_from_slice` on an outcome with an array either
/// way: it fails on a first byte but 0 and 1, and where the bytes behind it are
/// not as many as the array has.
#[verifier::external_body]
pub(crate) fn key_from_slice(b: &[u8]) -> (r: Result<Result<[u8; 64], [u8; 32]>, std::io::Error>)
    ensures
        r is Ok <==> key_decoding(b@) is Some,
        r matches Ok(key) ==> key_decoding(b@) == Some(outcome_key(key)),
{
    borsh::BorshDeserialize::try_from_slice(b)
}

/// The content of the limits of an access key.
pub open spec fn limits_view(l: (Option<u128>, String, Vec<String>)) -> LimitsView {
    LimitsView {
        allowance: l.0,
        receiver_id: l.1@,
        method_names: l.2@.map_values(|s: String| s@),
    }
}

pub open spec fn outcome_limits(
    permission: Result<(), (Option<u128>, String, Vec<String>)>,
) -> Option<LimitsView> {
    match permission {
        Ok(()) => None,
        Err(l) => Some(limits_view(l)),
    }
}

/// `borsh::BorshSerialize::try_to_vec` on an integer and an outcome that is
/// empty or holds an optional integer, a string and a vector of strings: it
/// fails where a length does not fit in four bytes.
#[verifier::external_body]
pub(crate) fn access_to_vec(
    access: &(u64, Result<(), (Option<u128>, String, Vec<String>)>),
) -> (r: Result<Vec<u8>, std::io::Error>)
    ensures
        r is Ok <==> (outcome_limits(access.1) matches Some(l) ==> limits_fit(l)),
        r matches Ok(out) ==> out@ == access_encoding(access.0, outcome_limits(access.1)),
{
    borsh::BorshSerialize::try_to_vec(access)
}

/// `borsh::BorshDeserialize::try_from_slice` on an integer and an outcome that
/// is empty or holds an optional integer, a string and a vector of strings: it
/// fails where the bytes are cut short, are left over, hold a wrong first byte
/// of an outcome or an option, or hold a string that is not UTF-8.
#[verifier::external_body]
pub(crate) fn access_from_slice(b: &[u8]) -> (r: Result<
    (u64, Result<(), (Option<u128>, String, Vec<String>)>),
    std::io::Error,
>)
    ensures
        r is Ok <==> access_decoding(b@) is Some,
        r matches Ok(access) ==> access_decoding(b@) == Some(
            (access.0, outcome_limits(access.1)),
        ),
{
    borsh::BorshDeserialize::try_from_slice(b)
}

/// `borsh::BorshSerialize::try_to_vec` on two byte strings and an array of 32
/// bytes: it fails where a length does not fit in four bytes.
#[verifier::external_body]
pub(crate) fn header_to_vec(sender: &[u8], receiver: &[u8], id: &[u8; 32]) -> (r: Result<
    Vec<u8>,
    std::io::Error,
>)
    ensures
        r is Ok <==> (sender@.len() <= u32::MAX && receiver@.len() <= u32::MAX),
        r matches Ok(out) ==> out@ == header_encoding(sender@, receiver@, id@),
{
    borsh::BorshSerialize::try_to_vec(&(sender, receiver, id))
}

/// `borsh::BorshDeserialize::deserialize` on two byte strings and an array of
/// 32 bytes: it fails where the bytes are cut short, and leaves what comes
/// behind them, which stands last in the result.
#[verifier::external_body]
pub(crate) fn header_from_slice(b: &[u8]) -> (r: Result<
    (Vec<u8>, Vec<u8>, [u8; 32], Vec<u8>),
    std::io::Error,
>)
    ensures
        r is Ok <==> take_header(b@) is Some,
        r matches Ok(parts) ==> take_header(b@) == Some(
            (parts.0@, parts.1@, parts.2@, parts.3@),
        ),
{
    let mut rest: &[u8] = b;
    let (sender, receiver, id): (Vec<u8>, Vec<u8>, [u8; 32]) =
        borsh::BorshDeserialize::deserialize(&mut rest)?;
    Ok((sender, receiver, id, rest.to_vec()))
}

} // verus!
