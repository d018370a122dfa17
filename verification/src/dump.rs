//! The file form of a column: its entries in turn, each as the length of the
//! key, the key, the length of the value and the value. A length takes four
//! little-endian bytes.

use vstd::prelude::*;

use crate::borsh_format::{lemma_take_sized, sized, take_sized};
use crate::bytes::{copy_bytes, le_bytes, le_value};
use crate::columns::DBCol;
use crate::database::{lists, pairs};
use crate::error::Error;
use crate::transaction::{after_ops, DBOpView};

verus! {

/// The file form of some entries. A length that does not fit in four bytes is
/// cut to its low four bytes.
pub open spec fn dump_encoding(entries: Seq<(Seq<u8>, Seq<u8>)>) -> Seq<u8>
    decreases entries.len(),
{
    if entries.len() == 0 {
        Seq::empty()
    } else {
        sized(entries[0].0) + sized(entries[0].1) + dump_encoding(entries.skip(1))
    }
}

/// The entries that a file holds; `None` where the last one is cut short.
/// Fewer than four bytes at the end are passed over.
pub open spec fn dump_decoding(b: Seq<u8>) -> Option<Seq<(Seq<u8>, Seq<u8>)>>
    decreases b.len(),
{
    if b.len() < 4 {
        Some(Seq::empty())
    } else {
        match take_sized(b) {
            None => None,
            Some((key, b1)) => match take_sized(b1) {
                None => None,
                Some((value, rest)) => if rest.len() < b.len() {
                    match dump_decoding(rest) {
                        None => None,
                        Some(others) => Some(seq![(key, value)] + others),
                    }
                } else {
                    None
                },
            },
        }
    }
}

/// Every length fits in four bytes.
pub open spec fn dumpable(entries: Seq<(Seq<u8>, Seq<u8>)>) -> bool {
    forall|i: int|
        0 <= i < entries.len() ==> (#[trigger] entries[i]).0.len() <= u32::MAX
            && entries[i].1.len() <= u32::MAX
}

/// The entries of a file are those that it was written with.
pub proof fn law_dump_round_trip(entries: Seq<(Seq<u8>, Seq<u8>)>)
    requires
        dumpable(entries),
    ensures
        dump_decoding(dump_encoding(entries)) == Some(entries),
    decreases entries.len(),
{
    if entries.len() == 0 {
        assert(entries =~= Seq::<(Seq<u8>, Seq<u8>)>::empty());
    } else {
        let (key, value) = entries[0];
        let tail = entries.skip(1);
        assert(dumpable(tail)) by {
            assert forall|i: int| 0 <= i < tail.len() implies (#[trigger] tail[i]).0.len()
                <= u32::MAX && tail[i].1.len() <= u32::MAX by {
                assert(entries[i + 1].0.len() <= u32::MAX);
            }
        }
        law_dump_round_trip(tail);
        let rest = dump_encoding(tail);
        assert(dump_encoding(entries) =~= sized(key) + (sized(value) + rest));
        lemma_take_sized(key, sized(value) + rest);
        lemma_take_sized(value, rest);
        crate::bytes::lemma_le_bytes_len(key.len(), 4);
        assert(seq![(key, value)] + tail =~= entries);
    }
}

/// The changes that bind the keys of some entries in `col` to their values.
pub open spec fn put_ops(col: DBCol, entries: Seq<(Seq<u8>, Seq<u8>)>) -> Seq<DBOpView> {
    entries.map_values(
        |e: (Seq<u8>, Seq<u8>)| DBOpView::Put { col, key: e.0, value: e.1 },
    )
}

/// Binding the listed entries of `m` adds them to what is stored, in place of
/// what their keys were bound to.
proof fn lemma_put_listed(
    stored: Map<Seq<u8>, Seq<u8>>,
    col: DBCol,
    entries: Seq<(Seq<u8>, Seq<u8>)>,
    m: Map<Seq<u8>, Seq<u8>>,
)
    requires
        lists(entries, m),
    ensures
        after_ops(stored, col, put_ops(col, entries)) == stored.union_prefer_right(m),
{
    let after = after_ops(stored, col, put_ops(col, entries));
    let both = stored.union_prefer_right(m);
    assert forall|k: Seq<u8>| #[trigger] after.dom().contains(k) == both.dom().contains(k) by {
        lemma_put_one(stored, col, entries, m, k);
    }
    assert forall|k: Seq<u8>| #[trigger] both.dom().contains(k) implies after[k] == both[k] by {
        lemma_put_one(stored, col, entries, m, k);
    }
    assert(after =~= both);
}

proof fn lemma_put_one(
    stored: Map<Seq<u8>, Seq<u8>>,
    col: DBCol,
    entries: Seq<(Seq<u8>, Seq<u8>)>,
    m: Map<Seq<u8>, Seq<u8>>,
    k: Seq<u8>,
)
    requires
        lists(entries, m),
    ensures
        ({
            let after = after_ops(stored, col, put_ops(col, entries));
            let both = stored.union_prefer_right(m);
            &&& after.contains_key(k) == both.contains_key(k)
            &&& both.contains_key(k) ==> after[k] == both[k]
        }),
{
    lemma_put_some(stored, col, entries, entries.len());
    assert(put_ops(col, entries).take(entries.len() as int) =~= put_ops(col, entries));
    if m.contains_key(k) {
        let i = choose|i: int| 0 <= i < entries.len() && (#[trigger] entries[i]).0 == k;
        assert(bound_by(entries, entries.len(), k, i));
    } else {
        assert forall|i: int| !bound_by(entries, entries.len(), k, i) by {
            if bound_by(entries, entries.len(), k, i) {
                assert(m.contains_key(entries[i].0));
            }
        }
        assert(unbound(entries, entries.len(), k));
    }
}

spec fn bound_by(entries: Seq<(Seq<u8>, Seq<u8>)>, n: nat, k: Seq<u8>, i: int) -> bool {
    0 <= i < n && i < entries.len() && entries[i].0 == k
}

spec fn unbound(entries: Seq<(Seq<u8>, Seq<u8>)>, n: nat, k: Seq<u8>) -> bool {
    forall|i: int| !bound_by(entries, n, k, i)
}

proof fn lemma_put_some(
    stored: Map<Seq<u8>, Seq<u8>>,
    col: DBCol,
    entries: Seq<(Seq<u8>, Seq<u8>)>,
    n: nat,
)
    requires
        n <= entries.len(),
        forall|i: int, j: int|
            0 <= i < j < entries.len() ==> crate::bytes::lex_lt(
                (#[trigger] entries[i]).0,
                (#[trigger] entries[j]).0,
            ),
    ensures
        forall|k: Seq<u8>, i: int| #[trigger]
            bound_by(entries, n, k, i) ==> after_ops(
                stored,
                col,
                put_ops(col, entries).take(n as int),
            ).contains_key(k) && after_ops(stored, col, put_ops(col, entries).take(n as int))[k]
                == entries[i].1,
        forall|k: Seq<u8>| #[trigger]
            unbound(entries, n, k) ==> after_ops(
                stored,
                col,
                put_ops(col, entries).take(n as int),
            ).contains_key(k) == stored.contains_key(k) && (stored.contains_key(k) ==> after_ops(
                stored,
                col,
                put_ops(col, entries).take(n as int),
            )[k] == stored[k]),
    decreases n,
{
    let ops = put_ops(col, entries);
    if n == 0 {
        assert(ops.take(0) =~= Seq::<DBOpView>::empty());
    } else {
        let p = (n - 1) as nat;
        lemma_put_some(stored, col, entries, p);
        assert(ops.take(n as int).drop_last() =~= ops.take(p as int));
        let before = after_ops(stored, col, ops.take(p as int));
        let after = after_ops(stored, col, ops.take(n as int));
        let (key, value) = entries[p as int];
        assert(ops.take(n as int).last() == DBOpView::Put { col, key, value });
        assert(after == before.insert(key, value));
        assert forall|k: Seq<u8>, i: int| #[trigger]
            bound_by(entries, n, k, i) implies after.contains_key(k) && after[k]
            == entries[i].1 by {
            if i < p {
                assert(bound_by(entries, p, k, i));
                assert(crate::bytes::lex_lt(entries[i].0, entries[p as int].0));
                crate::bytes::lemma_lex_irreflexive(k);
            }
        }
        assert forall|k: Seq<u8>| #[trigger] unbound(entries, n, k) implies after.contains_key(k)
            == stored.contains_key(k) && (stored.contains_key(k) ==> after[k] == stored[k]) by {
            assert(!bound_by(entries, n, k, p as int));
            assert forall|i: int| !bound_by(entries, p, k, i) by {
                assert(!bound_by(entries, n, k, i));
            }
            assert(unbound(entries, p, k));
        }
    }
}

/// What is loaded from the file of a column is what the column held, where
/// every length fits in four bytes: a column that was empty holds it
/// afterwards, and another keeps only the keys that the file has not.
pub proof fn law_save_then_load(
    m: Map<Seq<u8>, Seq<u8>>,
    entries: Seq<(Seq<u8>, Seq<u8>)>,
    stored: Map<Seq<u8>, Seq<u8>>,
    col: DBCol,
)
    requires
        lists(entries, m),
        dumpable(entries),
    ensures
        dump_decoding(dump_encoding(entries)) == Some(entries),
        after_ops(stored, col, put_ops(col, entries)) == stored.union_prefer_right(m),
        stored == Map::<Seq<u8>, Seq<u8>>::empty() ==> after_ops(
            stored,
            col,
            put_ops(col, entries),
        ) == m,
{
    law_dump_round_trip(entries);
    lemma_put_listed(stored, col, entries, m);
    assert(Map::<Seq<u8>, Seq<u8>>::empty().union_prefer_right(m) =~= m);
}

/// `byteorder::WriteBytesExt::write_u32` with `byteorder::LittleEndian` on a
/// vector: it never fails and appends the four bytes.
#[verifier::external_body]
fn write_u32(out: &mut Vec<u8>, n: u32) -> (r: Result<(), std::io::Error>)
    ensures
        r is Ok,
        final(out)@ == old(out)@ + le_bytes(n as nat, 4),
{
    byteorder::WriteBytesExt::write_u32::<byteorder::LittleEndian>(out, n)
}

/// `byteorder::ReadBytesExt::read_u32` with `byteorder::LittleEndian` on a
/// slice: it fails on fewer than four bytes and reads the first four.
#[verifier::external_body]
fn read_u32(b: &[u8]) -> (r: Result<u32, std::io::Error>)
    ensures
        r is Ok <==> b@.len() >= 4,
        r matches Ok(n) ==> n as nat == le_value(b@.take(4)),
{
    let mut reader: &[u8] = b;
    byteorder::ReadBytesExt::read_u32::<byteorder::LittleEndian>(&mut reader)
}

proof fn lemma_le_bytes_step(a: nat, b: nat, width: nat)
    requires
        a % 256 == b % 256,
        le_bytes(a / 256, width) == le_bytes(b / 256, width),
    ensures
        le_bytes(a, width + 1) == le_bytes(b, width + 1),
{
}

proof fn lemma_le_bytes_cut(n: nat)
    ensures
        le_bytes(n % 0x1_0000_0000, 4) == le_bytes(n, 4),
{
    let q = n / 0x1_0000_0000;
    let a0 = n % 0x1_0000_0000;
    let (a1, n1) = (a0 / 256, n / 256);
    let (a2, n2) = (a1 / 256, n1 / 256);
    let (a3, n3) = (a2 / 256, n2 / 256);
    assert(n == q * 0x1_0000_0000 + a0);
    assert(n1 == q * 0x100_0000 + a1);
    assert(n2 == q * 0x1_0000 + a2);
    assert(n3 == q * 0x100 + a3);
    lemma_le_bytes_step(a3, n3, 0);
    lemma_le_bytes_step(a2, n2, 1);
    lemma_le_bytes_step(a1, n1, 2);
    lemma_le_bytes_step(a0, n, 3);
}

/// Appends a byte string with its length in front.
fn push_sized(out: &mut Vec<u8>, s: &[u8])
    ensures
        final(out)@ == old(out)@ + sized(s@),
{
    let len: u32 = (s.len() as u64 % 0x1_0000_0000) as u32;
    let _ = write_u32(out, len);
    let mut content = copy_bytes(s);
    out.append(&mut content);
    proof {
        lemma_le_bytes_cut(s@.len());
        assert(out@ =~= old(out)@ + sized(s@));
    }
}

/// The file form of some entries.
pub fn encode_dump(entries: &Vec<(Vec<u8>, Vec<u8>)>) -> (out: Vec<u8>)
    ensures
        out@ == dump_encoding(pairs(entries@)),
{
    let mut out: Vec<u8> = Vec::new();
    let mut i: usize = 0;
    let ghost all = pairs(entries@);
    proof {
        assert(all.skip(0) =~= all);
        assert(out@ + dump_encoding(all) =~= dump_encoding(all));
    }
    while i < entries.len()
        invariant
            i <= entries@.len(),
            all == pairs(entries@),
            out@ + dump_encoding(all.skip(i as int)) == dump_encoding(all),
        decreases entries@.len() - i,
    {
        let ghost before = out@;
        push_sized(&mut out, entries[i].0.as_slice());
        push_sized(&mut out, entries[i].1.as_slice());
        proof {
            let rest = all.skip(i as int);
            assert(rest.skip(1) =~= all.skip(i + 1));
            assert(rest[0] == (entries@[i as int].0@, entries@[i as int].1@));
            assert(before + dump_encoding(rest) =~= out@ + dump_encoding(rest.skip(1)));
        }
        i = i + 1;
    }
    proof {
        assert(all.skip(i as int) =~= Seq::<(Seq<u8>, Seq<u8>)>::empty());
        assert(out@ + Seq::<u8>::empty() =~= out@);
    }
    out
}

/// Takes a byte string with its length in front from position `at`: the
/// string, and where it ends.
fn read_sized(b: &[u8], at: usize) -> (r: Option<(Vec<u8>, usize)>)
    requires
        at <= b@.len(),
    ensures
        match r {
            Some((s, end)) => at < end <= b@.len() && take_sized(b@.skip(at as int)) == Some(
                (s@, b@.skip(end as int)),
            ),
            None => take_sized(b@.skip(at as int)) is None,
        },
{
    let rest = vstd::slice::slice_subrange(b, at, b.len());
    proof {
        assert(rest@ =~= b@.skip(at as int));
    }
    let n: u32 = match read_u32(rest) {
        Ok(n) => n,
        Err(_) => return None,
    };
    if (rest.len() - 4) as u64 >= n as u64 {
        let end: usize = 4 + n as usize;
        let s = copy_bytes(vstd::slice::slice_subrange(rest, 4, end));
        proof {
            assert(rest@.skip(end as int) =~= b@.skip(at + end));
        }
        Some((s, at + end))
    } else {
        None
    }
}

/// The entries that a file holds.
pub fn decode_dump(b: &[u8]) -> (r: Result<Vec<(Vec<u8>, Vec<u8>)>, Error>)
    ensures
        match r {
            Ok(entries) => dump_decoding(b@) == Some(pairs(entries@)),
            Err(e) => dump_decoding(b@) is None && e == Error::UnexpectedEof,
        },
{
    let mut out: Vec<(Vec<u8>, Vec<u8>)> = Vec::new();
    let mut at: usize = 0;
    proof {
        assert(b@.skip(0) =~= b@);
        if dump_decoding(b@) is Some {
            assert(pairs(out@) + dump_decoding(b@)->0 =~= dump_decoding(b@)->0);
        }
    }
    while b.len() - at >= 4
        invariant
            at <= b@.len(),
            dump_decoding(b@) == (match dump_decoding(b@.skip(at as int)) {
                None => None,
                Some(others) => Some(pairs(out@) + others),
            }),
        decreases b@.len() - at,
    {
        let ghost here = b@.skip(at as int);
        let (key, behind) = match read_sized(b, at) {
            Some(r) => r,
            None => return Err(Error::UnexpectedEof),
        };
        let (value, end) = match read_sized(b, behind) {
            Some(r) => r,
            None => return Err(Error::UnexpectedEof),
        };
        let ghost before = pairs(out@);
        out.push((key, value));
        proof {
            assert(pairs(out@) =~= before.push((key@, value@)));
            match dump_decoding(b@.skip(end as int)) {
                Some(others) => {
                    assert(before + (seq![(key@, value@)] + others) =~= pairs(out@) + others);
                },
                None => {},
            }
        }
        at = end;
    }
    proof {
        assert(pairs(out@) + Seq::<(Seq<u8>, Seq<u8>)>::empty() =~= pairs(out@));
    }
    Ok(out)
}

} // verus!
