//! What the store keeps of the genesis of the chain.

use vstd::prelude::*;

use crate::codec::Borsh;
use crate::columns::DBCol;
use crate::database::Database;
use crate::error::Error;
use crate::laws::{law_record_is_read_back, untouched_from};
use crate::refcount::visible;
use crate::store::{record_result, Store, StoreUpdate};
use crate::transaction::{after_ops, overwrites_itself, DBOpView};
use crate::types::{CryptoHash, StateRoot};

verus! {

/// The key of the hash of the genesis: `GENESIS_JSON_HASH`.
pub const GENESIS_JSON_HASH_KEY: [u8; 17] = [
    71, 69, 78, 69, 83, 73, 83, 95, 74, 83, 79, 78, 95, 72, 65, 83, 72,
];

/// The key of the state roots of the genesis: `GENESIS_STATE_ROOTS`.
pub const GENESIS_STATE_ROOTS_KEY: [u8; 19] = [
    71, 69, 78, 69, 83, 73, 83, 95, 83, 84, 65, 84, 69, 95, 82, 79, 79, 84, 83,
];

/// The state roots of the genesis. An error of the database is handed on.
pub fn get_genesis_state_roots<D: Database>(store: &Store<D>) -> (r: Result<
    Option<Vec<StateRoot>>,
    Error,
>)
    requires
        store.valid(),
    ensures
        store.get_ser_outcome::<Vec<StateRoot>>(
            DBCol::BlockMisc,
            GENESIS_STATE_ROOTS_KEY@,
            record_result(r),
        ),
{
    let key = GENESIS_STATE_ROOTS_KEY;
    store.get_ser::<Vec<StateRoot>>(DBCol::BlockMisc, &key)
}

/// The hash of the genesis. An error of the database is handed on.
pub fn get_genesis_hash<D: Database>(store: &Store<D>) -> (r: Result<Option<CryptoHash>, Error>)
    requires
        store.valid(),
    ensures
        store.get_ser_outcome::<CryptoHash>(
            DBCol::BlockMisc,
            GENESIS_JSON_HASH_KEY@,
            record_result(r),
        ),
{
    let key = GENESIS_JSON_HASH_KEY;
    store.get_ser::<CryptoHash>(DBCol::BlockMisc, &key)
}

/// Sets the hash of the genesis.
pub fn set_genesis_hash(store_update: &mut StoreUpdate, genesis_hash: &CryptoHash)
    ensures
        final(store_update)@ == old(store_update)@.push(
            DBOpView::Put {
                col: DBCol::BlockMisc,
                key: GENESIS_JSON_HASH_KEY@,
                value: CryptoHash::encoding(genesis_hash@),
            },
        ),
{
    let key = GENESIS_JSON_HASH_KEY;
    let _ = store_update.set_ser::<CryptoHash>(DBCol::BlockMisc, &key, genesis_hash);
}

/// Sets the state roots of the genesis.
pub fn set_genesis_state_roots(store_update: &mut StoreUpdate, genesis_roots: &Vec<StateRoot>)
    requires
        genesis_roots@.len() <= u32::MAX,
    ensures
        final(store_update)@ == old(store_update)@.push(
            DBOpView::Put {
                col: DBCol::BlockMisc,
                key: GENESIS_STATE_ROOTS_KEY@,
                value: Vec::<StateRoot>::encoding(genesis_roots.model()),
            },
        ),
{
    let key = GENESIS_STATE_ROOTS_KEY;
    let _ = store_update.set_ser::<Vec<StateRoot>>(DBCol::BlockMisc, &key, genesis_roots);
}

/// The hash and the state roots of the genesis can be set in one update, and
/// both are read back.
pub proof fn law_genesis_is_read_back(
    m: Map<Seq<u8>, Seq<u8>>,
    hash: Seq<u8>,
    roots: Seq<Seq<u8>>,
)
    requires
        CryptoHash::encodable(hash),
        Vec::<StateRoot>::encodable(roots),
    ensures
        ({
            let col = DBCol::BlockMisc;
            let ops = seq![
                DBOpView::Put {
                    col,
                    key: GENESIS_JSON_HASH_KEY@,
                    value: CryptoHash::encoding(hash),
                },
                DBOpView::Put {
                    col,
                    key: GENESIS_STATE_ROOTS_KEY@,
                    value: Vec::<StateRoot>::encoding(roots),
                },
            ];
            let entries = visible(col, after_ops(m, col, ops));
            &&& !overwrites_itself(ops)
            &&& entries.contains_key(GENESIS_JSON_HASH_KEY@)
            &&& CryptoHash::decoding(entries[GENESIS_JSON_HASH_KEY@]) == Some(hash)
            &&& entries.contains_key(GENESIS_STATE_ROOTS_KEY@)
            &&& Vec::<StateRoot>::decoding(entries[GENESIS_STATE_ROOTS_KEY@]) == Some(roots)
        }),
{
    let col = DBCol::BlockMisc;
    let ops = seq![
        DBOpView::Put { col, key: GENESIS_JSON_HASH_KEY@, value: CryptoHash::encoding(hash) },
        DBOpView::Put {
            col,
            key: GENESIS_STATE_ROOTS_KEY@,
            value: Vec::<StateRoot>::encoding(roots),
        },
    ];
    assert(GENESIS_JSON_HASH_KEY@.len() != GENESIS_STATE_ROOTS_KEY@.len());
    assert(untouched_from(ops, 1, col, GENESIS_JSON_HASH_KEY@));
    law_record_is_read_back::<CryptoHash>(m, col, ops, GENESIS_JSON_HASH_KEY@, 0, hash);
    law_record_is_read_back::<Vec<StateRoot>>(m, col, ops, GENESIS_STATE_ROOTS_KEY@, 1, roots);
}

} // verus!
