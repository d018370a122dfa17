//! Values with a reference count.
//!
//! In a reference counted column a stored value is the data followed by the
//! count: a signed number in eight little-endian bytes. A count that is not
//! positive stands without data. An entry whose count is zero is not stored.

use vstd::prelude::*;

use crate::bytes::{
    copy_bytes, le_bytes, le_value, lemma_le_limits, lemma_le_value_of_bytes, u64_from_le,
    u64_to_le,
};
use crate::columns::DBCol;

verus! {

/// The eight bytes of a count, in two's complement.
pub open spec fn rc_bytes(rc: i64) -> Seq<u8> {
    le_bytes(
        if rc >= 0 {
            rc as nat
        } else {
            (rc + 0x1_0000_0000_0000_0000) as nat
        },
        8,
    )
}

/// The count that eight bytes stand for.
pub open spec fn rc_value(tail: Seq<u8>) -> i64 {
    let n = le_value(tail);
    if n <= i64::MAX {
        n as i64
    } else {
        (n - 0x1_0000_0000_0000_0000) as i64
    }
}

/// A stored value taken apart: its data, where the count is positive, and its
/// count.
pub open spec fn decoded(bytes: Seq<u8>) -> (Option<Seq<u8>>, i64) {
    if bytes.len() < 8 {
        (None, 0)
    } else {
        let rc = rc_value(bytes.skip(bytes.len() - 8));
        if rc <= 0 {
            (None, rc)
        } else {
            (Some(bytes.take(bytes.len() - 8)), rc)
        }
    }
}

/// What is stored for `data` with the count `rc`; `None` where nothing is.
pub open spec fn counted(data: Seq<u8>, rc: i64) -> Option<Seq<u8>> {
    if rc == 0 {
        None
    } else if rc < 0 {
        Some(rc_bytes(rc))
    } else {
        Some(data + rc_bytes(rc))
    }
}

/// What is stored after a change of the count was applied to an entry. The
/// data of the entry stays; an entry without data takes that of the change.
pub open spec fn merged(existing: Option<Seq<u8>>, change: Seq<u8>) -> Option<Seq<u8>> {
    let (data, rc) = match existing {
        Some(bytes) => decoded(bytes),
        None => (None, 0),
    };
    let (new_data, delta) = decoded(change);
    let data = match data {
        Some(d) => d,
        None => match new_data {
            Some(d) => d,
            None => Seq::empty(),
        },
    };
    counted(data, rc.wrapping_add(delta))
}

/// What a reader of `col` sees of a stored value.
pub open spec fn visible_value(col: DBCol, stored: Seq<u8>) -> Option<Seq<u8>> {
    if col.is_rc() {
        decoded(stored).0
    } else {
        Some(stored)
    }
}

/// What a reader of `col` sees of the stored entries.
pub open spec fn visible(col: DBCol, stored: Map<Seq<u8>, Seq<u8>>) -> Map<Seq<u8>, Seq<u8>> {
    Map::new(
        |k: Seq<u8>| stored.contains_key(k) && visible_value(col, stored[k]) is Some,
        |k: Seq<u8>| visible_value(col, stored[k])->0,
    )
}

/// A count survives being written and read.
pub proof fn lemma_rc_round_trip(rc: i64)
    ensures
        rc_bytes(rc).len() == 8,
        rc_value(rc_bytes(rc)) == rc,
{
    lemma_le_limits();
    let n = if rc >= 0 {
        rc as nat
    } else {
        (rc + 0x1_0000_0000_0000_0000) as nat
    };
    lemma_le_value_of_bytes(n, 8);
}

/// Data with a positive count is taken apart into both.
pub proof fn lemma_decoded_counted(data: Seq<u8>, rc: i64)
    ensures
        rc > 0 ==> decoded(data + rc_bytes(rc)) == (Some(data), rc),
        rc <= 0 ==> decoded(rc_bytes(rc)) == (None::<Seq<u8>>, rc),
{
    lemma_rc_round_trip(rc);
    let b = data + rc_bytes(rc);
    assert(b.skip(b.len() - 8) =~= rc_bytes(rc));
    assert(b.take(b.len() - 8) =~= data);
    assert(rc_bytes(rc).skip(0) =~= rc_bytes(rc));
}

fn rc_to_le(rc: i64) -> (out: Vec<u8>)
    ensures
        out@ == rc_bytes(rc),
{
    if rc >= 0 {
        u64_to_le(rc as u64)
    } else {
        let below: i64 = -(rc + 1);
        u64_to_le(0xffff_ffff_ffff_ffffu64 - below as u64)
    }
}

fn rc_from_le(tail: &[u8]) -> (rc: i64)
    requires
        tail@.len() == 8,
    ensures
        rc == rc_value(tail@),
{
    let n: u64 = u64_from_le(tail);
    if n <= 0x7fff_ffff_ffff_ffff {
        n as i64
    } else {
        let below: u64 = 0xffff_ffff_ffff_ffffu64 - n;
        -(below as i64) - 1
    }
}

/// Takes a stored value apart.
pub fn decode_value_with_rc(bytes: &[u8]) -> (r: (Option<Vec<u8>>, i64))
    ensures
        r.1 == decoded(bytes@).1,
        match r.0 {
            Some(data) => decoded(bytes@).0 == Some(data@),
            None => decoded(bytes@).0 is None,
        },
{
    if bytes.len() < 8 {
        return (None, 0);
    }
    let cut: usize = bytes.len() - 8;
    let rc: i64 = rc_from_le(vstd::slice::slice_subrange(bytes, cut, bytes.len()));
    if rc <= 0 {
        (None, rc)
    } else {
        (Some(copy_bytes(vstd::slice::slice_subrange(bytes, 0, cut))), rc)
    }
}

/// What is stored for `data` with a positive count.
pub fn add_positive_refcount(data: &[u8], rc: u32) -> (out: Vec<u8>)
    requires
        rc > 0,
    ensures
        out@ == data@ + rc_bytes(rc as i64),
{
    let mut out = copy_bytes(data);
    let mut tail = rc_to_le(rc as i64);
    out.append(&mut tail);
    out
}

/// The change that takes `rc` from a count.
pub fn encode_negative_refcount(rc: u32) -> (out: Vec<u8>)
    requires
        rc > 0,
    ensures
        out@ == rc_bytes((-rc) as i64),
{
    rc_to_le(-(rc as i64))
}

/// Applies a change of the count to an entry; `None` where nothing is left.
pub fn refcount_merge(existing: Option<&Vec<u8>>, change: &[u8]) -> (r: Option<Vec<u8>>)
    ensures
        crate::bytes::opt_bytes(r) == merged(
            match existing {
                Some(v) => Some(v@),
                None => None,
            },
            change@,
        ),
{
    let (data, rc): (Option<Vec<u8>>, i64) = match existing {
        Some(bytes) => decode_value_with_rc(bytes.as_slice()),
        None => (None, 0),
    };
    let (new_data, delta): (Option<Vec<u8>>, i64) = decode_value_with_rc(change);
    let mut data: Vec<u8> = match data {
        Some(d) => d,
        None => match new_data {
            Some(d) => d,
            None => Vec::new(),
        },
    };
    let rc: i64 = rc.wrapping_add(delta);
    if rc == 0 {
        None
    } else if rc < 0 {
        Some(rc_to_le(rc))
    } else {
        let mut tail = rc_to_le(rc);
        data.append(&mut tail);
        Some(data)
    }
}

/// What a reader of `column` sees of what is stored under a key.
pub fn get_with_rc_logic(column: DBCol, stored: Option<Vec<u8>>) -> (r: Option<Vec<u8>>)
    ensures
        crate::bytes::opt_bytes(r) == (match stored {
            Some(v) => visible_value(column, v@),
            None => None,
        }),
{
    if !column.is_rc() {
        return stored;
    }
    match stored {
        Some(bytes) => decode_value_with_rc(bytes.as_slice()).0,
        None => None,
    }
}

} // verus!
