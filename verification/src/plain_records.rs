//! Plain values as records: integers, texts and byte strings.

use vstd::prelude::*;
use vstd::utf8::encode_utf8;

use crate::borsh_format::{
    lemma_take_sized, lemma_take_text, sized, sized_text, take_sized, take_text,
};
use crate::bytes::{le_bytes, le_value, lemma_le_limits, lemma_le_value_of_bytes};
use crate::codec::Borsh;
use crate::error::Error;

verus! {

/// A byte string with its length in front, and nothing behind it.
pub open spec fn bytes_decoding(b: Seq<u8>) -> Option<Seq<u8>> {
    match take_sized(b) {
        Some((s, rest)) => if rest.len() == 0 {
            Some(s)
        } else {
            None
        },
        None => None,
    }
}

/// A text with the length of its UTF-8 form in front, and nothing behind it.
pub open spec fn text_decoding(b: Seq<u8>) -> Option<Seq<char>> {
    match take_text(b) {
        Some((s, rest)) => if rest.len() == 0 {
            Some(s)
        } else {
            None
        },
        None => None,
    }
}

/// `borsh::BorshSerialize::try_to_vec` on a `u8`: it never fails and gives the
/// little-endian bytes.
#[verifier::external_body]
fn u8_to_vec(n: &u8) -> (r: Result<Vec<u8>, std::io::Error>)
    ensures
        r is Ok,
        r matches Ok(out) ==> out@ == le_bytes(*n as nat, 1),
{
    borsh::BorshSerialize::try_to_vec(n)
}

/// `borsh::BorshDeserialize::try_from_slice` on a `u8`: it fails on any number
/// of bytes but one.
#[verifier::external_body]
fn u8_from_slice(b: &[u8]) -> (r: Result<u8, std::io::Error>)
    ensures
        r is Ok <==> b@.len() == 1,
        r matches Ok(n) ==> n as nat == le_value(b@),
{
    borsh::BorshDeserialize::try_from_slice(b)
}

/// `borsh::BorshSerialize::try_to_vec` on a `u16`: it never fails and gives the
/// little-endian bytes.
#[verifier::external_body]
fn u16_to_vec(n: &u16) -> (r: Result<Vec<u8>, std::io::Error>)
    ensures
        r is Ok,
        r matches Ok(out) ==> out@ == le_bytes(*n as nat, 2),
{
    borsh::BorshSerialize::try_to_vec(n)
}

/// `borsh::BorshDeserialize::try_from_slice` on a `u16`: it fails on any number
/// of bytes but two.
#[verifier::external_body]
fn u16_from_slice(b: &[u8]) -> (r: Result<u16, std::io::Error>)
    ensures
        r is Ok <==> b@.len() == 2,
        r matches Ok(n) ==> n as nat == le_value(b@),
{
    borsh::BorshDeserialize::try_from_slice(b)
}

/// `borsh::BorshSerialize::try_to_vec` on a `u32`: it never fails and gives the
/// little-endian bytes.
#[verifier::external_body]
fn u32_to_vec(n: &u32) -> (r: Result<Vec<u8>, std::io::Error>)
    ensures
        r is Ok,
        r matches Ok(out) ==> out@ == le_bytes(*n as nat, 4),
{
    borsh::BorshSerialize::try_to_vec(n)
}

/// `borsh::BorshDeserialize::try_from_slice` on a `u32`: it fails on any number
/// of bytes but four.
#[verifier::external_body]
fn u32_from_slice(b: &[u8]) -> (r: Result<u32, std::io::Error>)
    ensures
        r is Ok <==> b@.len() == 4,
        r matches Ok(n) ==> n as nat == le_value(b@),
{
    borsh::BorshDeserialize::try_from_slice(b)
}

/// `borsh::BorshSerialize::try_to_vec` on a `u64`: it never fails and gives the
/// little-endian bytes.
#[verifier::external_body]
fn u64_to_vec(n: &u64) -> (r: Result<Vec<u8>, std::io::Error>)
    ensures
        r is Ok,
        r matches Ok(out) ==> out@ == le_bytes(*n as nat, 8),
{
    borsh::BorshSerialize::try_to_vec(n)
}

/// `borsh::BorshDeserialize::try_from_slice` on a `u64`: it fails on any number
/// of bytes but eight.
#[verifier::external_body]
fn u64_from_slice(b: &[u8]) -> (r: Result<u64, std::io::Error>)
    ensures
        r is Ok <==> b@.len() == 8,
        r matches Ok(n) ==> n as nat == le_value(b@),
{
    borsh::BorshDeserialize::try_from_slice(b)
}

/// `borsh::BorshSerialize::try_to_vec` on a `u128`: it never fails and gives the
/// little-endian bytes.
#[verifier::external_body]
fn u128_to_vec(n: &u128) -> (r: Result<Vec<u8>, std::io::Error>)
    ensures
        r is Ok,
        r matches Ok(out) ==> out@ == le_bytes(*n as nat, 16),
{
    borsh::BorshSerialize::try_to_vec(n)
}

/// `borsh::BorshDeserialize::try_from_slice` on a `u128`: it fails on any number
/// of bytes but sixteen.
#[verifier::external_body]
fn u128_from_slice(b: &[u8]) -> (r: Result<u128, std::io::Error>)
    ensures
        r is Ok <==> b@.len() == 16,
        r matches Ok(n) ==> n as nat == le_value(b@),
{
    borsh::BorshDeserialize::try_from_slice(b)
}

/// `borsh::BorshSerialize::try_to_vec` on a vector of bytes: it fails where
/// their number does not fit in four bytes.
#[verifier::external_body]
fn bytes_to_vec(s: &Vec<u8>) -> (r: Result<Vec<u8>, std::io::Error>)
    ensures
        r is Ok <==> s@.len() <= u32::MAX,
        r matches Ok(out) ==> out@ == sized(s@),
{
    borsh::BorshSerialize::try_to_vec(s)
}

/// `borsh::BorshDeserialize::try_from_slice` on a vector of bytes: it fails
/// where the bytes are cut short or are left over.
#[verifier::external_body]
fn bytes_from_slice(b: &[u8]) -> (r: Result<Vec<u8>, std::io::Error>)
    ensures
        r is Ok <==> bytes_decoding(b@) is Some,
        r matches Ok(s) ==> bytes_decoding(b@) == Some(s@),
{
    borsh::BorshDeserialize::try_from_slice(b)
}

/// `borsh::BorshSerialize::try_to_vec` on a string: it fails where the length
/// of its UTF-8 form does not fit in four bytes.
#[verifier::external_body]
fn text_to_vec(s: &String) -> (r: Result<Vec<u8>, std::io::Error>)
    ensures
        r is Ok <==> encode_utf8(s@).len() <= u32::MAX,
        r matches Ok(out) ==> out@ == sized_text(s@),
{
    borsh::BorshSerialize::try_to_vec(s)
}

/// `borsh::BorshDeserialize::try_from_slice` on a string: it fails where the
/// bytes are cut short, are left over, or are not UTF-8.
#[verifier::external_body]
fn text_from_slice(b: &[u8]) -> (r: Result<String, std::io::Error>)
    ensures
        r is Ok <==> text_decoding(b@) is Some,
        r matches Ok(s) ==> text_decoding(b@) == Some(s@),
{
    borsh::BorshDeserialize::try_from_slice(b)
}

impl Borsh for u8 {
    type Model = u8;

    open spec fn model(&self) -> u8 {
        *self
    }

    open spec fn encodable(m: u8) -> bool {
        true
    }

    open spec fn encoding(m: u8) -> Seq<u8> {
        le_bytes(m as nat, 1)
    }

    open spec fn decoding(b: Seq<u8>) -> Option<u8> {
        if b.len() == 1 {
            Some(le_value(b) as u8)
        } else {
            None
        }
    }

    proof fn law_round_trip(m: u8) {
        lemma_le_limits();
        lemma_le_value_of_bytes(m as nat, 1);
    }

    fn try_to_vec(&self) -> (r: Result<Vec<u8>, Error>) {
        match u8_to_vec(self) {
            Ok(out) => Ok(out),
            Err(_) => Err(Error::Serialization),
        }
    }

    fn try_from_slice(b: &[u8]) -> (r: Result<Self, Error>) {
        match u8_from_slice(b) {
            Ok(v) => Ok(v),
            Err(_) => Err(Error::Deserialization),
        }
    }
}

impl Borsh for u16 {
    type Model = u16;

    open spec fn model(&self) -> u16 {
        *self
    }

    open spec fn encodable(m: u16) -> bool {
        true
    }

    open spec fn encoding(m: u16) -> Seq<u8> {
        le_bytes(m as nat, 2)
    }

    open spec fn decoding(b: Seq<u8>) -> Option<u16> {
        if b.len() == 2 {
            Some(le_value(b) as u16)
        } else {
            None
        }
    }

    proof fn law_round_trip(m: u16) {
        lemma_le_limits();
        lemma_le_value_of_bytes(m as nat, 2);
    }

    fn try_to_vec(&self) -> (r: Result<Vec<u8>, Error>) {
        match u16_to_vec(self) {
            Ok(out) => Ok(out),
            Err(_) => Err(Error::Serialization),
        }
    }

    fn try_from_slice(b: &[u8]) -> (r: Result<Self, Error>) {
        match u16_from_slice(b) {
            Ok(v) => Ok(v),
            Err(_) => Err(Error::Deserialization),
        }
    }
}

impl Borsh for u32 {
    type Model = u32;

    open spec fn model(&self) -> u32 {
        *self
    }

    open spec fn encodable(m: u32) -> bool {
        true
    }

    open spec fn encoding(m: u32) -> Seq<u8> {
        le_bytes(m as nat, 4)
    }

    open spec fn decoding(b: Seq<u8>) -> Option<u32> {
        if b.len() == 4 {
            Some(le_value(b) as u32)
        } else {
            None
        }
    }

    proof fn law_round_trip(m: u32) {
        lemma_le_limits();
        lemma_le_value_of_bytes(m as nat, 4);
    }

    fn try_to_vec(&self) -> (r: Result<Vec<u8>, Error>) {
        match u32_to_vec(self) {
            Ok(out) => Ok(out),
            Err(_) => Err(Error::Serialization),
        }
    }

    fn try_from_slice(b: &[u8]) -> (r: Result<Self, Error>) {
        match u32_from_slice(b) {
            Ok(v) => Ok(v),
            Err(_) => Err(Error::Deserialization),
        }
    }
}

impl Borsh for u64 {
    type Model = u64;

    open spec fn model(&self) -> u64 {
        *self
    }

    open spec fn encodable(m: u64) -> bool {
        true
    }

    open spec fn encoding(m: u64) -> Seq<u8> {
        le_bytes(m as nat, 8)
    }

    open spec fn decoding(b: Seq<u8>) -> Option<u64> {
        if b.len() == 8 {
            Some(le_value(b) as u64)
        } else {
            None
        }
    }

    proof fn law_round_trip(m: u64) {
        lemma_le_limits();
        lemma_le_value_of_bytes(m as nat, 8);
    }

    fn try_to_vec(&self) -> (r: Result<Vec<u8>, Error>) {
        match u64_to_vec(self) {
            Ok(out) => Ok(out),
            Err(_) => Err(Error::Serialization),
        }
    }

    fn try_from_slice(b: &[u8]) -> (r: Result<Self, Error>) {
        match u64_from_slice(b) {
            Ok(v) => Ok(v),
            Err(_) => Err(Error::Deserialization),
        }
    }
}

impl Borsh for u128 {
    type Model = u128;

    open spec fn model(&self) -> u128 {
        *self
    }

    open spec fn encodable(m: u128) -> bool {
        true
    }

    open spec fn encoding(m: u128) -> Seq<u8> {
        le_bytes(m as nat, 16)
    }

    open spec fn decoding(b: Seq<u8>) -> Option<u128> {
        if b.len() == 16 {
            Some(le_value(b) as u128)
        } else {
            None
        }
    }

    proof fn law_round_trip(m: u128) {
        lemma_le_limits();
        lemma_le_value_of_bytes(m as nat, 16);
    }

    fn try_to_vec(&self) -> (r: Result<Vec<u8>, Error>) {
        match u128_to_vec(self) {
            Ok(out) => Ok(out),
            Err(_) => Err(Error::Serialization),
        }
    }

    fn try_from_slice(b: &[u8]) -> (r: Result<Self, Error>) {
        match u128_from_slice(b) {
            Ok(v) => Ok(v),
            Err(_) => Err(Error::Deserialization),
        }
    }
}

impl Borsh for Vec<u8> {
    type Model = Seq<u8>;

    open spec fn model(&self) -> Seq<u8> {
        self@
    }

    open spec fn encodable(m: Seq<u8>) -> bool {
        m.len() <= u32::MAX
    }

    open spec fn encoding(m: Seq<u8>) -> Seq<u8> {
        sized(m)
    }

    open spec fn decoding(b: Seq<u8>) -> Option<Seq<u8>> {
        bytes_decoding(b)
    }

    proof fn law_round_trip(m: Seq<u8>) {
        lemma_take_sized(m, Seq::empty());
        assert(sized(m) + Seq::<u8>::empty() =~= sized(m));
    }

    fn try_to_vec(&self) -> (r: Result<Vec<u8>, Error>) {
        match bytes_to_vec(self) {
            Ok(out) => Ok(out),
            Err(_) => Err(Error::Serialization),
        }
    }

    fn try_from_slice(b: &[u8]) -> (r: Result<Self, Error>) {
        match bytes_from_slice(b) {
            Ok(v) => Ok(v),
            Err(_) => Err(Error::Deserialization),
        }
    }
}

impl Borsh for String {
    type Model = Seq<char>;

    open spec fn model(&self) -> Seq<char> {
        self@
    }

    open spec fn encodable(m: Seq<char>) -> bool {
        encode_utf8(m).len() <= u32::MAX
    }

    open spec fn encoding(m: Seq<char>) -> Seq<u8> {
        sized_text(m)
    }

    open spec fn decoding(b: Seq<u8>) -> Option<Seq<char>> {
        text_decoding(b)
    }

    proof fn law_round_trip(m: Seq<char>) {
        lemma_take_text(m, Seq::empty());
        assert(sized_text(m) + Seq::<u8>::empty() =~= sized_text(m));
    }

    fn try_to_vec(&self) -> (r: Result<Vec<u8>, Error>) {
        match text_to_vec(self) {
            Ok(out) => Ok(out),
            Err(_) => Err(Error::Serialization),
        }
    }

    fn try_from_slice(b: &[u8]) -> (r: Result<Self, Error>) {
        match text_from_slice(b) {
            Ok(v) => Ok(v),
            Err(_) => Err(Error::Deserialization),
        }
    }
}

} // verus!
