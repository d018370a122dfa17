//! What the layouts in bytes and in text are.

use vstd::arithmetic::power::{lemma_pow0, lemma_pow1, lemma_pow_adds, lemma_pow_positive, pow};
use vstd::prelude::*;
use vstd::utf8::{decode_utf8_encode_utf8, encode_utf8, valid_utf8};

use crate::base58::base58;
use crate::borsh_format::{
    access_decoding, access_encoding, account_decoding, account_encoding, counters_decoding,
    counters_encoding, data_decoding, data_encoding, hashes_decoding, hashes_encoding,
    lemma_take_sized, names_decoding, sized, sized_text, take_sized, take_text, take_texts, texts,
    KeyBytes, LimitsView,
};
use crate::bytes::{
    has_prefix, le_bytes, le_value, lemma_le_bytes_len, lemma_le_bytes_of_value, lemma_le_limits,
    lemma_le_value_of_bytes, lemma_lex_irreflexive, lemma_lex_total, lemma_lex_transitive, lex_lt,
    order_of,
};
use crate::codec::{Borsh, ReceiptView};
use crate::columns::DBCol;
use crate::dump::{dump_decoding, dump_encoding, put_ops};
use crate::refcount::rc_bytes;
use crate::store::{op_line, op_lines};
use crate::transaction::DBOpView;
use crate::trie_key::{is_access_key, is_raw_access_key, TrieKey, TrieKeyView};
use crate::types::{
    valid_account_name, AccessKey, AccessKeyPermission, Account, CryptoHash, DelayedReceiptIndices,
    PublicKey, Receipt, ReceivedData,
};

verus! {

/// The byte at position `i` of a number is its `i`-th digit in base 256.
pub proof fn law_le_bytes(n: nat, width: nat, i: nat)
    requires
        i < width,
    ensures
        le_bytes(n, width).len() == width,
        le_bytes(n, width)[i as int] == (n as int / pow(256, i)) % 256,
    decreases width,
{
    lemma_le_bytes_len(n, width);
    lemma_pow_positive(256, i);
    if i == 0 {
        lemma_pow0(256);
    } else {
        let j = (i - 1) as nat;
        law_le_bytes(n / 256, (width - 1) as nat, j);
        lemma_pow_adds(256, 1, j);
        lemma_pow1(256);
        lemma_pow_positive(256, j);
        vstd::arithmetic::div_mod::lemma_div_denominator(n as int, 256, pow(256, j));
    }
}

/// A count is stored as eight digits in base 256, the lowest first; a negative
/// one as what is left of it modulo 2^64.
pub proof fn law_count_bytes(count: i64, i: nat)
    requires
        i < 8,
    ensures
        rc_bytes(count).len() == 8,
        rc_bytes(count)[i as int] == ((count as int) % 0x1_0000_0000_0000_0000 / pow(256, i)) % 256,
{
    let n = if count >= 0 {
        count as nat
    } else {
        (count + 0x1_0000_0000_0000_0000) as nat
    };
    assert(n == (count as int) % 0x1_0000_0000_0000_0000);
    law_le_bytes(n, 8, i);
}

/// A byte string has a prefix if and only if it is the prefix and a rest.
pub proof fn law_prefix(prefix: Seq<u8>, rest: Seq<u8>, s: Seq<u8>)
    ensures
        has_prefix(prefix + rest, prefix),
        has_prefix(s, prefix) ==> s == prefix + s.skip(prefix.len() as int),
{
    assert((prefix + rest).take(prefix.len() as int) =~= prefix);
    if has_prefix(s, prefix) {
        assert(s =~= prefix + s.skip(prefix.len() as int));
    }
}

/// Of two byte strings the one comes first that has the lower byte where they
/// first differ, or that ends there.
pub proof fn law_order_of_bytes(start: Seq<u8>, x: u8, s: Seq<u8>, y: u8, t: Seq<u8>)
    ensures
        x != y ==> (lex_lt(start + seq![x] + s, start + seq![y] + t) <==> x < y),
        lex_lt(start, start + seq![y] + t),
        !lex_lt(start + seq![x] + s, start),
        !lex_lt(start, start),
    decreases start.len(),
{
    let a = start + seq![x] + s;
    let b = start + seq![y] + t;
    if start.len() > 0 {
        let tail = start.skip(1);
        law_order_of_bytes(tail, x, s, y, t);
        assert(a.skip(1) =~= tail + seq![x] + s);
        assert(b.skip(1) =~= tail + seq![y] + t);
    }
}

/// Two byte strings are the same or one comes first.
pub proof fn law_how_bytes_stand(a: Seq<u8>, b: Seq<u8>)
    ensures
        order_of(a, b) is Same <==> a == b,
        order_of(a, b) is Before <==> lex_lt(a, b),
        order_of(a, b) is After <==> lex_lt(b, a),
{
    lemma_lex_total(a, b);
    lemma_lex_irreflexive(a);
    if lex_lt(a, b) && lex_lt(b, a) {
        lemma_lex_transitive(a, b, a);
    }
}

/// The file form of a column: the length of the key in four bytes, the key, the
/// length of the value in four bytes, the value, and then the other entries.
pub proof fn law_file_form(key: Seq<u8>, value: Seq<u8>, rest: Seq<(Seq<u8>, Seq<u8>)>)
    ensures
        dump_encoding(Seq::empty()) == Seq::<u8>::empty(),
        dump_encoding(seq![(key, value)] + rest) == le_bytes(key.len(), 4) + key + le_bytes(
            value.len(),
            4,
        ) + value + dump_encoding(rest),
{
    let all = seq![(key, value)] + rest;
    assert(all.skip(1) =~= rest);
    assert(dump_encoding(all) =~= le_bytes(key.len(), 4) + key + le_bytes(value.len(), 4) + value
        + dump_encoding(rest));
}

/// A file is read back as the entries that it was written with, also where up
/// to three bytes follow. Where the last entry is cut short behind the length
/// of its key, nothing is read.
pub proof fn law_file_is_read_back(
    entries: Seq<(Seq<u8>, Seq<u8>)>,
    junk: Seq<u8>,
    key: Seq<u8>,
    value: Seq<u8>,
    cut: int,
)
    requires
        forall|i: int|
            0 <= i < entries.len() ==> (#[trigger] entries[i]).0.len() <= u32::MAX
                && entries[i].1.len() <= u32::MAX,
        key.len() <= u32::MAX,
        value.len() <= u32::MAX,
        junk.len() < 4,
        4 <= cut < 8 + key.len() + value.len(),
    ensures
        dump_decoding(dump_encoding(entries)) == Some(entries),
        dump_decoding(dump_encoding(entries) + junk) == Some(entries),
        dump_decoding(
            dump_encoding(entries) + (le_bytes(key.len(), 4) + key + le_bytes(value.len(), 4)
                + value).take(cut),
        ) is None,
{
    let record = le_bytes(key.len(), 4) + key + le_bytes(value.len(), 4) + value;
    lemma_entries_then(entries, Seq::empty());
    lemma_entries_then(entries, junk);
    lemma_entries_then(entries, record.take(cut));
    lemma_cut(key, value, cut);
    assert(dump_encoding(entries) + Seq::<u8>::empty() =~= dump_encoding(entries));
    assert(entries + Seq::<(Seq<u8>, Seq<u8>)>::empty() =~= entries);
}

proof fn lemma_entries_then(entries: Seq<(Seq<u8>, Seq<u8>)>, end: Seq<u8>)
    requires
        forall|i: int|
            0 <= i < entries.len() ==> (#[trigger] entries[i]).0.len() <= u32::MAX
                && entries[i].1.len() <= u32::MAX,
    ensures
        dump_decoding(dump_encoding(entries) + end) == (match dump_decoding(end) {
            None => None,
            Some(others) => Some(entries + others),
        }),
    decreases entries.len(),
{
    if entries.len() == 0 {
        assert(dump_encoding(entries) + end =~= end);
        if let Some(others) = dump_decoding(end) {
            assert(entries + others =~= others);
        }
    } else {
        let (k, v) = entries[0];
        let tail = entries.skip(1);
        assert forall|i: int| 0 <= i < tail.len() implies (#[trigger] tail[i]).0.len() <= u32::MAX
            && tail[i].1.len() <= u32::MAX by {
            assert(entries[i + 1].0.len() <= u32::MAX);
        }
        lemma_entries_then(tail, end);
        lemma_next_entry(k, v, dump_encoding(tail) + end);
        assert(dump_encoding(entries) + end =~= sized(k) + (sized(v) + (dump_encoding(tail)
            + end)));
        if let Some(others) = dump_decoding(end) {
            assert(seq![(k, v)] + (tail + others) =~= entries + others);
        }
    }
}

proof fn lemma_next_entry(key: Seq<u8>, value: Seq<u8>, rest: Seq<u8>)
    requires
        key.len() <= u32::MAX,
        value.len() <= u32::MAX,
    ensures
        dump_decoding(sized(key) + (sized(value) + rest)) == (match dump_decoding(rest) {
            None => None,
            Some(others) => Some(seq![(key, value)] + others),
        }),
{
    lemma_take_sized(key, sized(value) + rest);
    lemma_take_sized(value, rest);
    lemma_le_bytes_len(key.len(), 4);
    lemma_le_bytes_len(value.len(), 4);
}

proof fn lemma_cut(key: Seq<u8>, value: Seq<u8>, cut: int)
    requires
        key.len() <= u32::MAX,
        value.len() <= u32::MAX,
        4 <= cut < 8 + key.len() + value.len(),
    ensures
        dump_decoding(
            (le_bytes(key.len(), 4) + key + le_bytes(value.len(), 4) + value).take(cut),
        ) is None,
{
    lemma_le_bytes_len(key.len(), 4);
    lemma_le_bytes_len(value.len(), 4);
    lemma_le_limits();
    lemma_le_value_of_bytes(key.len(), 4);
    lemma_le_value_of_bytes(value.len(), 4);
    let end = (le_bytes(key.len(), 4) + key + le_bytes(value.len(), 4) + value).take(cut);
    assert(end.take(4) =~= le_bytes(key.len(), 4));
    if cut >= 4 + key.len() {
        let behind = end.skip(4 + key.len() as int);
        if behind.len() >= 4 {
            assert(behind.take(4) =~= le_bytes(value.len(), 4));
        }
        assert(take_sized(behind) is None);
    }
}

/// The changes that load a file bind its keys to its values in their order.
pub proof fn law_loaded_changes(col: DBCol, entries: Seq<(Seq<u8>, Seq<u8>)>, i: int)
    ensures
        put_ops(col, entries).len() == entries.len(),
        0 <= i < entries.len() ==> put_ops(col, entries)[i] == (DBOpView::Put {
            col,
            key: entries[i].0,
            value: entries[i].1,
        }),
{
}

/// The keys of the state in bytes.
pub proof fn law_key_layout(account: Seq<u8>, id: Seq<u8>, short: Seq<u8>, long: Seq<u8>)
    ensures
        (TrieKeyView::Account { account_id: account }).raw() == seq![0u8] + account,
        (TrieKeyView::ContractCode { account_id: account }).raw() == seq![1u8] + account,
        (TrieKeyView::AccessKey { account_id: account, public_key: KeyBytes::Short(short) }).raw()
            == seq![2u8] + account + seq![2u8] + (seq![0u8] + short),
        (TrieKeyView::AccessKey { account_id: account, public_key: KeyBytes::Long(long) }).raw()
            == seq![2u8] + account + seq![2u8] + (seq![1u8] + long),
        (TrieKeyView::ReceivedData { receiver_id: account, data_id: id }).raw() == seq![3u8]
            + account + seq![44u8] + id,
        (TrieKeyView::PostponedReceipt { receiver_id: account, receipt_id: id }).raw() == seq![6u8]
            + account + seq![44u8] + id,
        TrieKeyView::DelayedReceiptIndices.raw() == seq![7u8],
        (TrieKeyView::ContractData { account_id: account, key: id }).raw() == seq![9u8] + account
            + seq![44u8] + id,
        crate::trie_key::access_keys_prefix(account) == seq![2u8] + account + seq![2u8],
        crate::trie_key::contract_data_prefix(account) == seq![9u8] + account + seq![44u8],
{
}

/// What the contracts say of a key of the state is all that the key holds.
pub proof fn law_keys_are_told_in_full(k: TrieKey)
    ensures
        match k {
            TrieKey::Account { account_id } => k@ == (TrieKeyView::Account {
                account_id: account_id@,
            }),
            TrieKey::ContractCode { account_id } => k@ == (TrieKeyView::ContractCode {
                account_id: account_id@,
            }),
            TrieKey::AccessKey { account_id, public_key } => k@ == (TrieKeyView::AccessKey {
                account_id: account_id@,
                public_key: match public_key {
                    PublicKey::ED25519(short) => KeyBytes::Short(short@),
                    PublicKey::SECP256K1(long) => KeyBytes::Long(long@),
                },
            }),
            TrieKey::ReceivedData { receiver_id, data_id } => k@ == (TrieKeyView::ReceivedData {
                receiver_id: receiver_id@,
                data_id: data_id.0@,
            }),
            TrieKey::PostponedReceipt { receiver_id, receipt_id } => k@ == (
            TrieKeyView::PostponedReceipt {
                receiver_id: receiver_id@,
                receipt_id: receipt_id.0@,
            }),
            TrieKey::DelayedReceiptIndices => k@ == TrieKeyView::DelayedReceiptIndices,
            TrieKey::ContractData { account_id, key } => k@ == (TrieKeyView::ContractData {
                account_id: account_id@,
                key: key@,
            }),
        },
{
}

/// Every access key of a valid account name is found by its bytes, and bytes
/// that are found are those of one.
pub proof fn law_raw_access_keys(account: Seq<u8>, public_key: KeyBytes, raw: Seq<u8>)
    requires
        valid_account_name(account),
        public_key matches KeyBytes::Short(s) ==> s.len() == 32,
        public_key matches KeyBytes::Long(s) ==> s.len() == 64,
    ensures
        is_raw_access_key((TrieKeyView::AccessKey { account_id: account, public_key }).raw()),
        is_raw_access_key(raw) ==> exists|a: Seq<u8>, k: KeyBytes|
            valid_account_name(a) && raw == #[trigger] (TrieKeyView::AccessKey {
                account_id: a,
                public_key: k,
            }).raw(),
{
    let key = TrieKeyView::AccessKey { account_id: account, public_key };
    assert(is_access_key(key.raw(), account, public_key));
    if is_raw_access_key(raw) {
        let (a, k) = choose|a: Seq<u8>, k: KeyBytes| is_access_key(raw, a, k);
        assert(raw == (TrieKeyView::AccessKey { account_id: a, public_key: k }).raw());
    }
}

/// The names that an account can have: from 2 to 64 characters, each a
/// lower-case letter, a digit, `-`, `.` or `_`, of which the last three stand
/// neither first, nor last, nor side by side.
pub proof fn law_account_names(s: Seq<u8>)
    ensures
        valid_account_name(s) <==> {
            let mark = |c: u8| c == 45 || c == 46 || c == 95;
            &&& 2 <= s.len() <= 64
            &&& forall|i: int|
                0 <= i < s.len() ==> mark(#[trigger] s[i]) || 97 <= s[i] <= 122 || 48 <= s[i] <= 57
            &&& !mark(s[0])
            &&& !mark(s[s.len() - 1])
            &&& forall|i: int, j: int|
                0 <= i && j == i + 1 && j < s.len() ==> !(mark(#[trigger] s[i]) && mark(
                    #[trigger] s[j],
                ))
        },
{
    let mark = |c: u8| c == 45 || c == 46 || c == 95;
    if valid_account_name(s) {
        assert forall|i: int| 0 <= i < s.len() implies mark(#[trigger] s[i]) || 97 <= s[i] <= 122
            || 48 <= s[i] <= 57 by {
            assert(crate::types::is_account_char(s[i]));
        }
    }
}

/// Which records can be written.
pub proof fn law_what_can_be_written(
    bytes: Seq<u8>,
    hashes: Seq<Seq<u8>>,
    text: Seq<char>,
    limits: LimitsView,
    nonce: u64,
    a: u128,
    b: u128,
    n: u64,
    m: (u64, u64),
)
    ensures
        CryptoHash::encodable(bytes) <==> bytes.len() == 32,
        Vec::<CryptoHash>::encodable(hashes) <==> hashes.len() <= u32::MAX && forall|i: int|
            0 <= i < hashes.len() ==> (#[trigger] hashes[i]).len() == 32,
        DelayedReceiptIndices::encodable(m),
        Account::encodable((a, b, bytes, n)) <==> bytes.len() == 32,
        ReceivedData::encodable(None),
        ReceivedData::encodable(Some(bytes)) <==> bytes.len() <= u32::MAX,
        PublicKey::encodable(KeyBytes::Short(bytes)) <==> bytes.len() == 32,
        PublicKey::encodable(KeyBytes::Long(bytes)) <==> bytes.len() == 64,
        AccessKey::encodable((nonce, None)),
        AccessKey::encodable((nonce, Some(limits))) <==> encode_utf8(limits.receiver_id).len()
            <= u32::MAX && limits.method_names.len() <= u32::MAX && forall|i: int|
            0 <= i < limits.method_names.len() ==> encode_utf8(
                #[trigger] limits.method_names[i],
            ).len() <= u32::MAX,
        Vec::<u8>::encodable(bytes) <==> bytes.len() <= u32::MAX,
        String::encodable(text) <==> encode_utf8(text).len() <= u32::MAX,
        forall|x: u8| u8::encodable(x),
        forall|x: u16| u16::encodable(x),
        forall|x: u32| u32::encodable(x),
        forall|x: u64| u64::encodable(x),
        forall|x: u128| u128::encodable(x),
{
    if AccessKey::encodable((nonce, Some(limits))) {
        assert forall|i: int| 0 <= i < limits.method_names.len() implies encode_utf8(
            #[trigger] limits.method_names[i],
        ).len() <= u32::MAX by {
            assert(crate::borsh_format::text_fits(limits.method_names[i]));
        }
    }
}

/// A receipt can be written if and only if its body can, given valid names and
/// a hash of 32 bytes.
pub proof fn law_what_receipts_can_be_written<B: Borsh>(m: ReceiptView<B::Model>)
    ensures
        Receipt::<B>::encodable(m) <==> valid_account_name(m.predecessor_id)
            && valid_account_name(m.receiver_id) && m.receipt_id.len() == 32 && B::encodable(
            m.receipt,
        ),
{
}

/// What the contracts say of a record is all that the record holds.
pub proof fn law_records_are_told_in_full(
    h: CryptoHash,
    account: Account,
    data: ReceivedData,
    indices: DelayedReceiptIndices,
    access: AccessKey,
    key: PublicKey,
    hashes: Vec<CryptoHash>,
    bytes: Vec<u8>,
    text: String,
    i: int,
)
    ensures
        bytes.model() == bytes@,
        text.model() == text@,
        forall|x: u8| #[trigger] x.model() == x,
        forall|x: u16| #[trigger] x.model() == x,
        forall|x: u32| #[trigger] x.model() == x,
        forall|x: u64| #[trigger] x.model() == x,
        forall|x: u128| #[trigger] x.model() == x,
        h.model() == h.0@,
        account.model() == (
            account.amount,
            account.locked,
            account.code_hash.0@,
            account.storage_usage,
        ),
        match data.data {
            Some(bytes) => data.model() == Some(bytes@),
            None => data.model() is None,
        },
        indices.model() == (indices.first_index, indices.next_available_index),
        access.model().0 == access.nonce,
        match access.permission {
            AccessKeyPermission::FullAccess => access.model().1 is None,
            AccessKeyPermission::FunctionCall(p) => access.model().1 matches Some(l) && l.allowance
                == p.allowance && l.receiver_id == p.receiver_id@ && l.method_names.len()
                == p.method_names@.len() && (0 <= i < p.method_names@.len() ==> l.method_names[i]
                == p.method_names@[i]@),
        },
        match key {
            PublicKey::ED25519(k) => key.model() == KeyBytes::Short(k@),
            PublicKey::SECP256K1(k) => key.model() == KeyBytes::Long(k@),
        },
        hashes.model().len() == hashes@.len(),
        0 <= i < hashes@.len() ==> hashes.model()[i] == hashes@[i].0@,
{
}

/// What the contracts say of a receipt is all that the receipt holds.
pub proof fn law_receipts_are_told_in_full<B: Borsh>(r: Receipt<B>)
    ensures
        r.model().predecessor_id == r.predecessor_id@,
        r.model().receiver_id == r.receiver_id@,
        r.model().receipt_id == r.receipt_id.0@,
        r.model().receipt == r.receipt.model(),
{
}

/// Bytes that are read as an integer are its encoding.
pub proof fn law_integers_read_are_as_written(b: Seq<u8>)
    ensures
        u8::decoding(b) matches Some(m) ==> u8::encoding(m) == b,
        u16::decoding(b) matches Some(m) ==> u16::encoding(m) == b,
        u32::decoding(b) matches Some(m) ==> u32::encoding(m) == b,
        u64::decoding(b) matches Some(m) ==> u64::encoding(m) == b,
        u128::decoding(b) matches Some(m) ==> u128::encoding(m) == b,
{
    lemma_le_limits();
    lemma_le_bytes_of_value(b);
}

/// Bytes that are read as one hash or as several are their encoding.
pub proof fn law_hashes_read_are_as_written(b: Seq<u8>)
    ensures
        CryptoHash::decoding(b) matches Some(m) ==> CryptoHash::encoding(m) == b,
        Vec::<CryptoHash>::decoding(b) matches Some(m) ==> Vec::<CryptoHash>::encoding(m) == b,
{
    if let Some(m) = hashes_decoding(b) {
        lemma_le_bytes_of_value(b.take(4));
        let out = hashes_encoding(m);
        assert(out.len() == b.len());
        assert forall|i: int| 0 <= i < out.len() implies out[i] == b[i] by {
            if i < 4 {
                assert(b.take(4)[i] == b[i]);
            } else {
                let at = i - 4;
                let q = at / 32;
                let r = at % 32;
                assert(m[q] == b.subrange(4 + 32 * q, 36 + 32 * q));
                assert(out[i] == m[q][r]);
                assert(m[q][r] == b[4 + 32 * q + r]);
                assert(4 + 32 * q + r == i);
            }
        }
        assert(out =~= b);
    }
}

/// Bytes that are read as queue indices or as an account are their encoding.
pub proof fn law_accounts_read_are_as_written(b: Seq<u8>)
    ensures
        DelayedReceiptIndices::decoding(b) matches Some(m) ==> DelayedReceiptIndices::encoding(m)
            == b,
        Account::decoding(b) matches Some(m) ==> Account::encoding(m) == b,
{
    lemma_le_limits();
    if let Some(m) = counters_decoding(b) {
        lemma_le_bytes_of_value(b.take(8));
        lemma_le_bytes_of_value(b.skip(8));
        assert(counters_encoding(m) =~= b);
    }
    if let Some(m) = account_decoding(b) {
        lemma_le_bytes_of_value(b.take(16));
        lemma_le_bytes_of_value(b.subrange(16, 32));
        lemma_le_bytes_of_value(b.skip(64));
        assert(account_encoding(m) =~= b);
    }
}

/// Bytes that are read as a byte string, a text or received data are their
/// encoding.
pub proof fn law_strings_read_are_as_written(b: Seq<u8>)
    ensures
        Vec::<u8>::decoding(b) matches Some(m) ==> Vec::<u8>::encoding(m) == b,
        String::decoding(b) matches Some(m) ==> String::encoding(m) == b,
        ReceivedData::decoding(b) matches Some(m) ==> ReceivedData::encoding(m) == b,
{
    lemma_sized_back(b);
    lemma_text_back(b);
    if let Some(m) = Vec::<u8>::decoding(b) {
        assert(sized(m) =~= b);
    }
    if let Some(m) = String::decoding(b) {
        assert(sized_text(m) =~= b);
    }
    if let Some(m) = data_decoding(b) {
        if b[0] == 1 {
            lemma_sized_back(b.skip(1));
        }
        assert(data_encoding(m) =~= b);
    }
}

/// Bytes that are read as a public key or as an access key are their encoding.
pub proof fn law_keys_read_are_as_written(b: Seq<u8>)
    ensures
        PublicKey::decoding(b) matches Some(m) ==> PublicKey::encoding(m) == b,
        AccessKey::decoding(b) matches Some(m) ==> AccessKey::encoding(m) == b,
{
    if PublicKey::decoding(b) is Some {
        assert(seq![b[0]] + b.skip(1) =~= b);
    }
    lemma_access_back(b);
}

/// Bytes that are read as a receipt are its encoding, where this holds of its
/// body.
pub proof fn law_receipts_read_are_as_written<B: Borsh>(b: Seq<u8>)
    requires
        forall|x: Seq<u8>| (#[trigger] B::decoding(x)) matches Some(m) ==> B::encoding(m) == x,
    ensures
        Receipt::<B>::decoding(b) matches Some(m) ==> Receipt::<B>::encoding(m) == b,
{
    if let Some(m) = Receipt::<B>::decoding(b) {
        lemma_sized_back(b);
        if let Some((sender, b1)) = take_sized(b) {
            lemma_sized_back(b1);
            if let Some((receiver, b2)) = take_sized(b1) {
                assert(b2 =~= b2.take(32) + b2.skip(32));
                assert(B::decoding(b2.skip(32)) is Some);
                assert(Receipt::<B>::encoding(m) =~= b);
            }
        }
    }
}

proof fn lemma_sized_back(b: Seq<u8>)
    ensures
        take_sized(b) matches Some((s, rest)) ==> b == sized(s) + rest,
{
    if let Some((s, rest)) = take_sized(b) {
        lemma_le_bytes_of_value(b.take(4));
        assert(b =~= sized(s) + rest);
    }
}

proof fn lemma_text_back(b: Seq<u8>)
    ensures
        take_text(b) matches Some((s, rest)) ==> b == sized_text(s) + rest,
{
    lemma_sized_back(b);
    if let Some((s, rest)) = take_sized(b) {
        if valid_utf8(s) {
            decode_utf8_encode_utf8(s);
        }
    }
}

proof fn lemma_texts_back(n: nat, b: Seq<u8>)
    ensures
        take_texts(n, b) matches Some((s, rest)) ==> s.len() == n && b == texts(s) + rest,
    decreases n,
{
    if n == 0 {
        assert(texts(Seq::empty()) + b =~= b);
    } else if let Some((first, behind)) = take_text(b) {
        lemma_text_back(b);
        lemma_texts_back((n - 1) as nat, behind);
        if let Some((others, rest)) = take_texts((n - 1) as nat, behind) {
            let s = seq![first] + others;
            assert(s.skip(1) =~= others);
            assert(b =~= texts(s) + rest);
        }
    }
}

proof fn lemma_names_back(allowance: Option<u128>, b: Seq<u8>)
    ensures
        names_decoding(allowance, b) matches Some(l) ==> l.allowance == allowance && b
            == sized_text(l.receiver_id) + (le_bytes(l.method_names.len(), 4) + texts(
            l.method_names,
        )),
{
    lemma_text_back(b);
    if let Some((receiver_id, behind)) = take_text(b) {
        if behind.len() >= 4 {
            lemma_le_bytes_of_value(behind.take(4));
            lemma_texts_back(le_value(behind.take(4)), behind.skip(4));
            if let Some((names, rest)) = take_texts(le_value(behind.take(4)), behind.skip(4)) {
                if rest.len() == 0 {
                    assert(behind =~= le_bytes(names.len(), 4) + texts(names));
                }
            }
        }
    }
}

proof fn lemma_access_back(b: Seq<u8>)
    ensures
        access_decoding(b) matches Some(m) ==> access_encoding(m.0, m.1) == b,
{
    if let Some(m) = access_decoding(b) {
        lemma_le_limits();
        lemma_le_bytes_of_value(b.take(8));
        match m.1 {
            None => {
                assert(access_encoding(m.0, m.1) =~= b);
            },
            Some(l) => {
                let inner = b.skip(9);
                if inner[0] == 0 {
                    lemma_names_back(None, inner.skip(1));
                } else {
                    lemma_le_bytes_of_value(inner.subrange(1, 17));
                    lemma_names_back(l.allowance, inner.skip(17));
                }
                assert(access_encoding(m.0, m.1) =~= b);
            },
        }
    }
}

/// An update is shown change by change: a mark, the column, the key in base 58
/// and the end of the line.
pub proof fn law_shown_changes(
    ops: Seq<DBOpView>,
    col: DBCol,
    key: Seq<u8>,
    value: Seq<u8>,
    op: DBOpView,
)
    ensures
        op_lines(Seq::empty()) == Seq::<char>::empty(),
        op_lines(ops.push(op)) == op_lines(ops) + op_line(op),
        op_line(DBOpView::Insert { col, key, value }) == "  + "@ + col.name()@ + " "@ + base58(key)
            + "\n"@,
        op_line(DBOpView::Put { col, key, value }) == "  * "@ + col.name()@ + " "@ + base58(key)
            + "\n"@,
        op_line(DBOpView::UpdateRefcount { col, key, value }) == "  +- "@ + col.name()@ + " "@
            + base58(key) + "\n"@,
        op_line(DBOpView::Delete { col, key }) == "  - "@ + col.name()@ + " "@ + base58(key)
            + "\n"@,
        op_line(DBOpView::DeleteAll { col }) == "  delete all "@ + col.name()@ + "\n"@,
{
    assert(ops.push(op).drop_last() =~= ops);
}

/// Which columns have counts, and which are written once.
pub proof fn law_columns(col: DBCol)
    ensures
        col.is_rc() <==> col is State || col is Transactions || col is Receipts
            || col is ReceiptIdToShardId,
        col.is_insert_only() <==> col is Block || col is BlockExtra || col is BlockInfo
            || col is ChunkExtra || col is Chunks || col is InvalidChunks || col is NextBlockHashes
            || col is OutcomeIds || col is OutgoingReceipts || col is PartialChunks
            || col is StateChangesForSplitStates || col is TransactionResultForBlock,
{
}

/// A column is called by its name.
pub proof fn law_column_names()
    ensures
        DBCol::DbVersion.name()@ == "DbVersion"@,
        DBCol::BlockMisc.name()@ == "BlockMisc"@,
        DBCol::Block.name()@ == "Block"@,
        DBCol::BlockHeader.name()@ == "BlockHeader"@,
        DBCol::State.name()@ == "State"@,
        DBCol::ChunkExtra.name()@ == "ChunkExtra"@,
        DBCol::OutgoingReceipts.name()@ == "OutgoingReceipts"@,
        DBCol::IncomingReceipts.name()@ == "IncomingReceipts"@,
        DBCol::Peers.name()@ == "Peers"@,
        DBCol::EpochInfo.name()@ == "EpochInfo"@,
        DBCol::BlockInfo.name()@ == "BlockInfo"@,
        DBCol::Chunks.name()@ == "Chunks"@,
        DBCol::PartialChunks.name()@ == "PartialChunks"@,
        DBCol::BlocksToCatchup.name()@ == "BlocksToCatchup"@,
        DBCol::StateDlInfos.name()@ == "StateDlInfos"@,
        DBCol::ChallengedBlocks.name()@ == "ChallengedBlocks"@,
        DBCol::StateHeaders.name()@ == "StateHeaders"@,
        DBCol::InvalidChunks.name()@ == "InvalidChunks"@,
        DBCol::BlockExtra.name()@ == "BlockExtra"@,
        DBCol::BlockPerHeight.name()@ == "BlockPerHeight"@,
        DBCol::StateParts.name()@ == "StateParts"@,
        DBCol::EpochStart.name()@ == "EpochStart"@,
        DBCol::AccountAnnouncements.name()@ == "AccountAnnouncements"@,
        DBCol::NextBlockHashes.name()@ == "NextBlockHashes"@,
        DBCol::EpochLightClientBlocks.name()@ == "EpochLightClientBlocks"@,
        DBCol::ReceiptIdToShardId.name()@ == "ReceiptIdToShardId"@,
        DBCol::PeerComponent.name()@ == "PeerComponent"@,
        DBCol::ComponentEdges.name()@ == "ComponentEdges"@,
        DBCol::LastComponentNonce.name()@ == "LastComponentNonce"@,
        DBCol::Transactions.name()@ == "Transactions"@,
        DBCol::StateChanges.name()@ == "StateChanges"@,
        DBCol::BlockRefCount.name()@ == "BlockRefCount"@,
        DBCol::TrieChanges.name()@ == "TrieChanges"@,
        DBCol::BlockMerkleTree.name()@ == "BlockMerkleTree"@,
        DBCol::ChunkHashesByHeight.name()@ == "ChunkHashesByHeight"@,
        DBCol::BlockOrdinal.name()@ == "BlockOrdinal"@,
        DBCol::OutcomeIds.name()@ == "OutcomeIds"@,
        DBCol::ProcessedBlockHeights.name()@ == "ProcessedBlockHeights"@,
        DBCol::Receipts.name()@ == "Receipts"@,
        DBCol::CachedContractCode.name()@ == "CachedContractCode"@,
        DBCol::EpochValidatorInfo.name()@ == "EpochValidatorInfo"@,
        DBCol::HeaderHashesByHeight.name()@ == "HeaderHashesByHeight"@,
        DBCol::StateChangesForSplitStates.name()@ == "StateChangesForSplitStates"@,
        DBCol::TransactionResultForBlock.name()@ == "TransactionResultForBlock"@,
{
}

/// The records in bytes: integers from the lowest byte up, hashes and keys as
/// they are, lists and texts with their length in four bytes, options with 0 or
/// 1 in front, a public key with 0 or 1 for its curve, and an access key with 0
/// in front of its limits or 1 for none.
pub proof fn law_record_layout(
    bytes: Seq<u8>,
    hashes: Seq<Seq<u8>>,
    text: Seq<char>,
    limits: LimitsView,
    nonce: u64,
    a: u128,
    b: u128,
    n: u64,
)
    ensures
        CryptoHash::encoding(bytes) == bytes,
        Vec::<CryptoHash>::encoding(hashes) == le_bytes(hashes.len(), 4) + Seq::new(
            32 * hashes.len(),
            |i: int| hashes[i / 32][i % 32],
        ),
        DelayedReceiptIndices::encoding((nonce, n)) == le_bytes(nonce as nat, 8) + le_bytes(
            n as nat,
            8,
        ),
        Account::encoding((a, b, bytes, n)) == le_bytes(a as nat, 16) + le_bytes(b as nat, 16)
            + bytes + le_bytes(n as nat, 8),
        ReceivedData::encoding(None) == seq![0u8],
        ReceivedData::encoding(Some(bytes)) == seq![1u8] + (le_bytes(bytes.len(), 4) + bytes),
        PublicKey::encoding(KeyBytes::Short(bytes)) == seq![0u8] + bytes,
        PublicKey::encoding(KeyBytes::Long(bytes)) == seq![1u8] + bytes,
        AccessKey::encoding((nonce, None)) == le_bytes(nonce as nat, 8) + seq![1u8],
        AccessKey::encoding((nonce, Some(limits))) == le_bytes(nonce as nat, 8) + (seq![0u8] + (
        match limits.allowance {
            None => seq![0u8],
            Some(x) => seq![1u8] + le_bytes(x as nat, 16),
        }) + (String::encoding(limits.receiver_id) + (le_bytes(limits.method_names.len(), 4)
            + texts(limits.method_names)))),
        texts(Seq::empty()) == Seq::<u8>::empty(),
        texts(seq![text] + limits.method_names) == String::encoding(text) + texts(
            limits.method_names,
        ),
        String::encoding(text) == le_bytes(encode_utf8(text).len(), 4) + encode_utf8(text),
        Vec::<u8>::encoding(bytes) == le_bytes(bytes.len(), 4) + bytes,
        forall|x: u8| #[trigger] u8::encoding(x) == le_bytes(x as nat, 1),
        forall|x: u16| #[trigger] u16::encoding(x) == le_bytes(x as nat, 2),
        forall|x: u32| #[trigger] u32::encoding(x) == le_bytes(x as nat, 4),
        forall|x: u64| #[trigger] u64::encoding(x) == le_bytes(x as nat, 8),
        forall|x: u128| #[trigger] u128::encoding(x) == le_bytes(x as nat, 16),
{
    assert((seq![text] + limits.method_names).skip(1) =~= limits.method_names);
}

/// A receipt in bytes: both names with their lengths in four bytes, the hash,
/// and the body.
pub proof fn law_receipt_layout<B: Borsh>(m: ReceiptView<B::Model>)
    ensures
        Receipt::<B>::encoding(m) == le_bytes(m.predecessor_id.len(), 4) + m.predecessor_id
            + le_bytes(m.receiver_id.len(), 4) + m.receiver_id + m.receipt_id + B::encoding(
            m.receipt,
        ),
{
    assert(Receipt::<B>::encoding(m) =~= le_bytes(m.predecessor_id.len(), 4) + m.predecessor_id
        + le_bytes(m.receiver_id.len(), 4) + m.receiver_id + m.receipt_id + B::encoding(
        m.receipt,
    ));
}

} // verus!
