use near_store::columns::DBCol;
use near_store::contract_cache::StoreCompiledContractCache;
use near_store::error::Error;
use near_store::genesis::{
    get_genesis_hash, get_genesis_state_roots, set_genesis_hash, set_genesis_state_roots,
};
use near_store::store::create_test_store;
use near_store::types::CryptoHash;

#[test]
fn genesis_is_read_back() {
    let mut store = create_test_store(0);
    assert!(get_genesis_hash(&store).unwrap().is_none());
    assert!(get_genesis_state_roots(&store).unwrap().is_none());
    let roots = vec![CryptoHash([1; 32]), CryptoHash([2; 32])];
    let mut update = store.store_update();
    set_genesis_hash(&mut update, &CryptoHash([3; 32]));
    set_genesis_state_roots(&mut update, &roots);
    assert!(!update.overwrites_itself());
    update.commit(&mut store).unwrap();
    assert_eq!(get_genesis_hash(&store).unwrap().unwrap().0, [3; 32]);
    let read = get_genesis_state_roots(&store).unwrap().unwrap();
    assert_eq!(read.len(), 2);
    assert_eq!(read[0].0, [1; 32]);
    assert_eq!(read[1].0, [2; 32]);
}

#[test]
fn genesis_lies_under_its_keys() {
    let mut store = create_test_store(0);
    let mut update = store.store_update();
    set_genesis_hash(&mut update, &CryptoHash([3; 32]));
    set_genesis_state_roots(&mut update, &vec![CryptoHash([4; 32])]);
    update.commit(&mut store).unwrap();
    assert_eq!(
        store.get(DBCol::BlockMisc, b"GENESIS_JSON_HASH").unwrap(),
        Some(vec![3; 32])
    );
    let roots = [vec![1, 0, 0, 0], vec![4; 32]].concat();
    assert_eq!(store.get(DBCol::BlockMisc, b"GENESIS_STATE_ROOTS").unwrap(), Some(roots));
}

#[test]
fn genesis_that_is_no_record_is_an_error() {
    let mut store = create_test_store(0);
    let mut update = store.store_update();
    update.set(DBCol::BlockMisc, b"GENESIS_JSON_HASH", b"short");
    update.set(DBCol::BlockMisc, b"GENESIS_STATE_ROOTS", &[2, 0, 0, 0, 1]);
    update.commit(&mut store).unwrap();
    assert_eq!(get_genesis_hash(&store).unwrap_err(), Error::Deserialization);
    assert_eq!(get_genesis_state_roots(&store).unwrap_err(), Error::Deserialization);
}

#[test]
fn compiled_contracts_are_kept() {
    let mut cache = StoreCompiledContractCache { store: create_test_store(0) };
    assert_eq!(cache.get(b"key").unwrap(), None);
    cache.put(b"key", b"code").unwrap();
    cache.put(b"other", b"").unwrap();
    assert_eq!(cache.get(b"key").unwrap(), Some(b"code".to_vec()));
    assert_eq!(cache.get(b"other").unwrap(), Some(Vec::new()));
    assert_eq!(
        cache.store.get(DBCol::CachedContractCode, b"key").unwrap(),
        Some(b"code".to_vec())
    );
    cache.put(b"key", b"better").unwrap();
    assert_eq!(cache.get(b"key").unwrap(), Some(b"better".to_vec()));
}
