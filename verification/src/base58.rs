//! Bytes in base 58.

use vstd::prelude::*;

verus! {

/// The digits of base 58, from zero up.
pub open spec fn base58_alphabet() -> Seq<char> {
    "123456789ABCDEFGHJKLMNPQRSTUVWXYZabcdefghijkmnopqrstuvwxyz"@
}

/// The number whose big-endian bytes are `s`.
pub open spec fn be_value(s: Seq<u8>) -> nat
    decreases s.len(),
{
    if s.len() == 0 {
        0
    } else {
        256 * be_value(s.drop_last()) + s.last() as nat
    }
}

/// A number in base 58, the highest digit first; no digit for zero.
pub open spec fn base58_digits(n: nat) -> Seq<char>
    decreases n,
{
    if n == 0 {
        Seq::empty()
    } else {
        base58_digits(n / 58).push(base58_alphabet()[(n % 58) as int])
    }
}

pub open spec fn leading_zeros(s: Seq<u8>) -> nat
    decreases s.len(),
{
    if s.len() == 0 || s[0] != 0 {
        0
    } else {
        1 + leading_zeros(s.skip(1))
    }
}

/// Bytes in base 58: a `1` for each zero byte in front, and the number that the
/// bytes stand for.
pub open spec fn base58(s: Seq<u8>) -> Seq<char> {
    Seq::new(leading_zeros(s), |i: int| '1') + base58_digits(be_value(s))
}

/// `bs58::encode` and `into_string`, with the alphabet that it has of itself:
/// the bytes in base 58.
#[verifier::external_body]
pub(crate) fn to_base(bytes: &[u8]) -> (r: String)
    ensures
        r@ == base58(bytes@),
{
    bs58::encode(bytes).into_string()
}

} // verus!
