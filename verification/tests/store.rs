use near_store::columns::DBCol;
use near_store::config::StoreConfig;
use near_store::contract_cache::StoreCompiledContractCache;
use near_store::database::{Database, StoreStatistics, TestDB};
use near_store::error::Error;
use near_store::genesis::{get_genesis_hash, get_genesis_state_roots};
use near_store::store::{create_test_store, Store, StoreUpdate};
use near_store::transaction::DBTransaction;
use near_store::tries::ShardTries;
use near_store::types::CryptoHash;
use rand::Rng;

#[test]
fn test_no_cache_disabled() {
    // The nodes that a commit brings are kept in memory.
    let mut store = create_test_store(0);
    let key = [7u8; 40];
    let mut update = StoreUpdate::new_with_tries(ShardTries::new(1, 0));
    update.increment_refcount(DBCol::State, &key, b"node");
    let tries = update.commit(&mut store).unwrap().unwrap();
    assert_eq!(tries.cached(&key), Some(b"node".to_vec()), "no cache is enabled");
}

fn test_clear_column(mut store: Store<TestDB>) {
    assert_eq!(store.get(DBCol::State, &[1]).unwrap(), None);
    {
        let mut store_update = store.store_update();
        store_update.increment_refcount(DBCol::State, &[1], &[1]);
        store_update.increment_refcount(DBCol::State, &[2], &[2]);
        store_update.increment_refcount(DBCol::State, &[3], &[3]);
        store_update.commit(&mut store).unwrap();
    }
    assert_eq!(store.get(DBCol::State, &[1]).unwrap(), Some(vec![1]));
    {
        let mut store_update = store.store_update();
        store_update.delete_all(DBCol::State);
        store_update.commit(&mut store).unwrap();
    }
    assert_eq!(store.get(DBCol::State, &[1]).unwrap(), None);
}

#[test]
fn clear_column_testdb() {
    test_clear_column(create_test_store(0));
}

/// Asserts that elements in the vector are sorted.
fn assert_sorted(want_count: usize, keys: Vec<Vec<u8>>) {
    assert_eq!(want_count, keys.len());
    for (pos, pair) in keys.windows(2).enumerate() {
        let (fst, snd) = (&pair[0], &pair[1]);
        assert!(fst <= snd, "{fst:?} > {snd:?} at {pos}");
    }
}

/// Checks that keys are sorted when iterating.
fn test_iter_order_impl(mut store: Store<TestDB>, count: usize) {
    // An arbitrary non-rc non-insert-only column we can write data into.
    const COLUMN: DBCol = DBCol::Peers;
    assert!(!COLUMN.is_rc());
    assert!(!COLUMN.is_insert_only());

    // Fill column with random keys.  We're inserting three sets of keys.
    // One set prefixed by "foo", second by "bar" and last by "baz".  Each
    // set is `count` keys (for total of `3*count` keys).
    let mut rng: rand::rngs::StdRng = rand::SeedableRng::seed_from_u64(0x3243f6a8885a308d);
    let mut update = store.store_update();
    let mut buf = [0u8; 20];
    for prefix in [b"foo", b"bar", b"baz"] {
        buf[..prefix.len()].clone_from_slice(prefix);
        for _ in 0..count {
            rng.fill(&mut buf[prefix.len()..]);
            update.set(COLUMN, &buf, &buf);
        }
    }
    assert!(!update.overwrites_itself());
    update.commit(&mut store).unwrap();

    // Check that full scan produces keys in proper order.
    let keys: Vec<Vec<u8>> = store.iter(COLUMN).into_iter().map(|(key, _)| key).collect();
    assert_sorted(3 * count, keys);

    let keys: Vec<Vec<u8>> = store.iter_raw_bytes(COLUMN).into_iter().map(|(key, _)| key).collect();
    assert_sorted(3 * count, keys);

    // Check that prefix scan produces keys in proper order.
    let keys: Vec<Vec<u8>> =
        store.iter_prefix(COLUMN, b"baz").into_iter().map(|(key, _)| key).collect();
    for (pos, key) in keys.iter().enumerate() {
        assert_eq!(b"baz", &key[0..3], "Expected 'baz' prefix but got {key:?} at {pos}");
    }
    assert_sorted(count, keys);
}

#[test]
fn testdb_iter_order() {
    test_iter_order_impl(create_test_store(0), 10_000);
}

#[test]
fn set_values_are_read() {
    let mut store = create_test_store(0);
    let mut update = store.store_update();
    update.set(DBCol::Peers, b"a", b"1");
    update.set(DBCol::Peers, b"b", b"2");
    update.set(DBCol::BlockMisc, b"a", b"3");
    assert!(!update.overwrites_itself());
    update.commit(&mut store).unwrap();
    assert_eq!(store.get(DBCol::Peers, b"a").unwrap(), Some(b"1".to_vec()));
    assert_eq!(store.get(DBCol::Peers, b"b").unwrap(), Some(b"2".to_vec()));
    assert_eq!(store.get(DBCol::BlockMisc, b"a").unwrap(), Some(b"3".to_vec()));
    assert_eq!(store.get(DBCol::Peers, b"c").unwrap(), None);
    assert!(store.key_exists(DBCol::Peers, b"a").unwrap());
    assert!(!store.key_exists(DBCol::Peers, b"c").unwrap());
}

#[test]
fn nothing_is_written_before_commit() {
    let store = create_test_store(0);
    let mut update = store.store_update();
    update.set(DBCol::Peers, b"a", b"1");
    assert_eq!(store.get(DBCol::Peers, b"a").unwrap(), None);
}

#[test]
fn deleted_values_are_gone() {
    let mut store = create_test_store(0);
    let mut update = store.store_update();
    update.set(DBCol::Peers, b"a", b"1");
    update.set(DBCol::Peers, b"b", b"2");
    update.commit(&mut store).unwrap();
    let mut update = store.store_update();
    update.delete(DBCol::Peers, b"a");
    update.delete(DBCol::Peers, b"missing");
    update.commit(&mut store).unwrap();
    assert_eq!(store.iter(DBCol::Peers), vec![(b"b".to_vec(), b"2".to_vec())]);
}

#[test]
fn deleting_a_column_leaves_the_others() {
    let mut store = create_test_store(0);
    let mut update = store.store_update();
    update.set(DBCol::Peers, b"a", b"1");
    update.set(DBCol::BlockMisc, b"a", b"2");
    update.commit(&mut store).unwrap();
    let mut update = store.store_update();
    update.delete_all(DBCol::Peers);
    update.commit(&mut store).unwrap();
    assert!(store.iter(DBCol::Peers).is_empty());
    assert_eq!(store.get(DBCol::BlockMisc, b"a").unwrap(), Some(b"2".to_vec()));
}

#[test]
fn the_last_change_decides() {
    let mut store = create_test_store(0);
    let mut update = store.store_update();
    update.set(DBCol::Peers, b"a", b"1");
    update.delete_all(DBCol::Peers);
    update.set(DBCol::Peers, b"b", b"2");
    update.commit(&mut store).unwrap();
    assert_eq!(store.iter(DBCol::Peers), vec![(b"b".to_vec(), b"2".to_vec())]);
}

#[test]
fn inserted_values_are_read_and_may_be_inserted_again() {
    let mut store = create_test_store(0);
    for _ in 0..2 {
        let mut update = store.store_update();
        update.insert(DBCol::Block, b"hash", b"block");
        update.commit(&mut store).unwrap();
        assert_eq!(store.iter(DBCol::Block), vec![(b"hash".to_vec(), b"block".to_vec())]);
    }
}

#[test]
fn the_order_of_changes_makes_no_difference() {
    let mut results = Vec::new();
    for order in [[0, 1, 2], [2, 1, 0], [1, 2, 0]] {
        let mut store = create_test_store(0);
        let mut update = store.store_update();
        update.set(DBCol::Peers, b"c", b"old");
        update.commit(&mut store).unwrap();
        let mut update = store.store_update();
        for change in order {
            match change {
                0 => update.set(DBCol::Peers, b"a", b"1"),
                1 => update.set(DBCol::Peers, b"b", b"2"),
                _ => update.delete(DBCol::Peers, b"c"),
            }
        }
        update.commit(&mut store).unwrap();
        results.push(store.iter(DBCol::Peers));
    }
    assert_eq!(results[0].len(), 2);
    assert_eq!(results[0], results[1]);
    assert_eq!(results[0], results[2]);
}

#[test]
fn merged_updates_are_applied_in_turn() {
    let mut first = StoreUpdate::new(0);
    first.set(DBCol::Peers, b"a", b"1");
    first.set(DBCol::Peers, b"b", b"1");
    let mut second = StoreUpdate::new(0);
    second.delete_all(DBCol::Peers);
    second.set(DBCol::Peers, b"c", b"2");
    let mut in_turn = create_test_store(0);
    first.commit(&mut in_turn).unwrap();
    second.commit(&mut in_turn).unwrap();

    let mut update = StoreUpdate::new(0);
    update.set(DBCol::Peers, b"a", b"1");
    update.set(DBCol::Peers, b"b", b"1");
    let mut other = StoreUpdate::new(0);
    other.delete_all(DBCol::Peers);
    other.set(DBCol::Peers, b"c", b"2");
    update.merge(other);
    let mut merged = create_test_store(0);
    update.commit(&mut merged).unwrap();
    assert_eq!(in_turn.iter(DBCol::Peers), merged.iter(DBCol::Peers));
    assert_eq!(merged.iter(DBCol::Peers), vec![(b"c".to_vec(), b"2".to_vec())]);
}

#[test]
fn merging_takes_tries_only_where_there_are_none() {
    let mut update = StoreUpdate::new(0);
    let other = StoreUpdate::new_with_tries(ShardTries::new(5, 0));
    assert!(update.tries_match(&other));
    update.merge(other);
    let other = StoreUpdate::new_with_tries(ShardTries::new(6, 0));
    assert!(!update.tries_match(&other));
    assert!(update.tries_match(&StoreUpdate::new_with_tries(ShardTries::new(5, 0))));
    update.merge(other);
    let mut store = create_test_store(0);
    let tries = update.commit(&mut store).unwrap().unwrap();
    assert!(tries.is_same(&ShardTries::new(5, 0)));
    assert!(!tries.is_same(&ShardTries::new(6, 0)));
}

#[test]
fn updates_that_overwrite_themselves_are_told() {
    let mut update = StoreUpdate::new(0);
    update.set(DBCol::Peers, b"a", b"1");
    update.set(DBCol::BlockMisc, b"a", b"1");
    update.increment_refcount(DBCol::State, b"a", b"1");
    update.increment_refcount(DBCol::State, b"a", b"1");
    update.delete_all(DBCol::Peers);
    update.delete_all(DBCol::Peers);
    assert!(!update.overwrites_itself());
    update.delete(DBCol::Peers, b"a");
    assert!(update.overwrites_itself());
}

#[test]
fn tries_have_to_be_on_the_same_database() {
    assert!(StoreUpdate::new(3).tries_agree());
    let update = StoreUpdate::new_with_tries(ShardTries::new(1, 3));
    assert!(update.tries_agree());
    assert_eq!(update.storage_id(), 3);
    let mut update = StoreUpdate::new(4);
    update.merge(StoreUpdate::new_with_tries(ShardTries::new(1, 3)));
    assert!(!update.tries_agree());

    let (one, other) = (create_test_store(1), create_test_store(2));
    let mut update = one.store_update();
    let foreign = ShardTries::new(7, other.store_update().storage_id());
    update.merge(StoreUpdate::new_with_tries(foreign));
    assert!(!update.tries_agree());
    assert_ne!(one.store_update().storage_id(), other.store_update().storage_id());
}

#[test]
fn counts_add_up() {
    let mut store = create_test_store(0);
    let mut update = store.store_update();
    update.increment_refcount_by(DBCol::State, b"k", b"data", 3);
    update.decrement_refcount(DBCol::State, b"k");
    update.increment_refcount(DBCol::State, b"k", b"data");
    update.commit(&mut store).unwrap();
    assert_eq!(store.get(DBCol::State, b"k").unwrap(), Some(b"data".to_vec()));
    let stored = [b"data".to_vec(), vec![3, 0, 0, 0, 0, 0, 0, 0]].concat();
    assert_eq!(store.iter_raw_bytes(DBCol::State), vec![(b"k".to_vec(), stored)]);

    let mut update = store.store_update();
    update.decrement_refcount_by(DBCol::State, b"k", 3);
    update.commit(&mut store).unwrap();
    assert_eq!(store.get(DBCol::State, b"k").unwrap(), None);
    assert!(store.iter_raw_bytes(DBCol::State).is_empty());
}

#[test]
fn counts_add_up_over_commits_and_between_other_changes() {
    let mut store = create_test_store(0);
    let mut update = store.store_update();
    update.increment_refcount_by(DBCol::State, b"k", b"data", 2);
    update.increment_refcount(DBCol::State, b"other", b"x");
    update.set(DBCol::Peers, b"k", b"v");
    update.decrement_refcount(DBCol::State, b"k");
    update.increment_refcount(DBCol::Receipts, b"k", b"y");
    update.commit(&mut store).unwrap();
    let mut update = store.store_update();
    update.delete_all(DBCol::Peers);
    update.increment_refcount_by(DBCol::State, b"k", b"data", 4);
    update.decrement_refcount(DBCol::State, b"other");
    update.commit(&mut store).unwrap();
    let stored = [b"data".to_vec(), vec![5, 0, 0, 0, 0, 0, 0, 0]].concat();
    assert_eq!(store.iter_raw_bytes(DBCol::State), vec![(b"k".to_vec(), stored)]);
}

#[test]
fn a_negative_count_is_kept_without_data() {
    let mut store = create_test_store(0);
    let mut update = store.store_update();
    update.decrement_refcount_by(DBCol::State, b"k", 2);
    update.commit(&mut store).unwrap();
    assert_eq!(store.get(DBCol::State, b"k").unwrap(), None);
    assert!(store.iter(DBCol::State).is_empty());
    let minus_two = vec![254, 255, 255, 255, 255, 255, 255, 255];
    assert_eq!(store.iter_raw_bytes(DBCol::State), vec![(b"k".to_vec(), minus_two)]);

    let mut update = store.store_update();
    update.increment_refcount_by(DBCol::State, b"k", b"data", 3);
    update.commit(&mut store).unwrap();
    assert_eq!(store.get(DBCol::State, b"k").unwrap(), Some(b"data".to_vec()));
}

#[test]
fn raising_and_lowering_cancel() {
    let mut store = create_test_store(0);
    let mut update = store.store_update();
    update.increment_refcount(DBCol::Receipts, b"k", b"data");
    update.commit(&mut store).unwrap();
    let before = store.iter_raw_bytes(DBCol::Receipts);
    let mut update = store.store_update();
    update.increment_refcount_by(DBCol::Receipts, b"k", b"data", 9);
    update.decrement_refcount_by(DBCol::Receipts, b"k", 9);
    update.commit(&mut store).unwrap();
    assert_eq!(store.iter_raw_bytes(DBCol::Receipts), before);
}

#[test]
fn raw_bytes_hold_the_count() {
    let mut store = create_test_store(0);
    let mut update = store.store_update();
    update.set_raw_bytes(DBCol::State, b"k", &[5, 1, 0, 0, 0, 0, 0, 0, 0]);
    update.set_raw_bytes(DBCol::State, b"l", &[5, 6]);
    update.commit(&mut store).unwrap();
    assert_eq!(store.iter(DBCol::State), vec![(b"k".to_vec(), vec![5])]);
}

#[test]
fn a_listing_by_prefix_is_part_of_the_whole() {
    let mut store = create_test_store(0);
    let mut update = store.store_update();
    for key in ["b", "ab", "a", "", "abc", "ac"] {
        update.set(DBCol::Peers, key.as_bytes(), b"v");
    }
    update.commit(&mut store).unwrap();
    let keys = |items: Vec<(Vec<u8>, Vec<u8>)>| -> Vec<String> {
        items.into_iter().map(|(k, _)| String::from_utf8(k).unwrap()).collect()
    };
    assert_eq!(keys(store.iter(DBCol::Peers)), ["", "a", "ab", "abc", "ac", "b"]);
    assert_eq!(keys(store.iter_prefix(DBCol::Peers, b"ab")), ["ab", "abc"]);
    assert!(store.iter_prefix(DBCol::Peers, b"abcd").is_empty());
}

#[test]
fn records_are_read_back() {
    let mut store = create_test_store(0);
    let hash = CryptoHash([9; 32]);
    let mut update = store.store_update();
    update.set_ser(DBCol::BlockMisc, b"HEAD", &hash).unwrap();
    update.insert_ser(DBCol::Block, b"b", &hash).unwrap();
    update.set(DBCol::BlockMisc, b"HEAP", b"short");
    update.commit(&mut store).unwrap();
    let read: CryptoHash = store.get_ser(DBCol::BlockMisc, b"HEAD").unwrap().unwrap();
    assert_eq!(read.0, hash.0);
    let read: CryptoHash = store.get_ser(DBCol::Block, b"b").unwrap().unwrap();
    assert_eq!(read.0, hash.0);
    assert!(store.get_ser::<CryptoHash>(DBCol::BlockMisc, b"TAIL").unwrap().is_none());
    assert_eq!(
        store.get_ser::<CryptoHash>(DBCol::BlockMisc, b"HEAP").unwrap_err(),
        Error::Deserialization
    );
    let all = store.iter_prefix_ser::<CryptoHash>(DBCol::BlockMisc, b"HEA");
    assert_eq!(all.len(), 2);
    let (key, read) = all[0].as_ref().unwrap();
    assert_eq!(key.as_slice(), b"HEAD");
    assert_eq!(read.0, hash.0);
    assert_eq!(*all[1].as_ref().unwrap_err(), Error::Deserialization);
}

#[test]
fn plain_values_are_records() {
    let mut store = create_test_store(0);
    let mut update = store.store_update();
    update.set_ser(DBCol::BlockMisc, b"byte", &7u8).unwrap();
    update.set_ser(DBCol::BlockMisc, b"short", &0x0102u16).unwrap();
    update.set_ser(DBCol::BlockMisc, b"text", &"tail".to_string()).unwrap();
    update.commit(&mut store).unwrap();
    assert_eq!(store.get_ser::<u8>(DBCol::BlockMisc, b"byte"), Ok(Some(7)));
    assert_eq!(store.get_ser::<u16>(DBCol::BlockMisc, b"short"), Ok(Some(0x0102)));
    assert_eq!(store.get(DBCol::BlockMisc, b"short").unwrap(), Some(vec![2, 1]));
    assert_eq!(store.get_ser::<u8>(DBCol::BlockMisc, b"short"), Err(Error::Deserialization));
    assert_eq!(store.get_ser::<u16>(DBCol::BlockMisc, b"none"), Ok(None));
    assert_eq!(store.get_ser::<String>(DBCol::BlockMisc, b"text"), Ok(Some("tail".to_string())));
}

#[test]
fn updates_are_shown_line_by_line() {
    let mut update = StoreUpdate::new(0);
    update.insert(DBCol::Block, &[0, 0, 1], b"v");
    update.set(DBCol::Peers, b"Hello World!", b"v");
    update.increment_refcount(DBCol::State, &[57], b"v");
    update.delete(DBCol::Peers, &[58]);
    update.delete_all(DBCol::State);
    assert_eq!(
        update.to_text(),
        "Store Update {\n  + Block 112\n  * Peers 2NEpo7TZRRrLZSi2U\n  +- State z\n  - Peers 21\n  \
         delete all State\n}\n"
    );
}

#[test]
fn malformed_state_keys_stop_a_commit_with_tries() {
    let mut store = create_test_store(0);
    let mut update = StoreUpdate::new_with_tries(ShardTries::new(1, 0));
    update.set(DBCol::Peers, b"a", b"1");
    update.increment_refcount(DBCol::State, b"too short", b"node");
    let failure = update.commit(&mut store).unwrap_err();
    assert_eq!(failure.error, Error::MalformedStateKey);
    assert!(failure.tries.unwrap().is_same(&ShardTries::new(1, 0)));
    assert_eq!(store.get(DBCol::Peers, b"a").unwrap(), None);
}

#[test]
fn nodes_in_memory_follow_the_changes() {
    let mut store = create_test_store(0);
    let (small, large) = ([1u8; 40], [2u8; 40]);
    let mut update = StoreUpdate::new_with_tries(ShardTries::new(1, 0));
    update.increment_refcount(DBCol::State, &small, &[1; 999]);
    update.increment_refcount(DBCol::State, &large, &[2; 1000]);
    let tries = update.commit(&mut store).unwrap().unwrap();
    assert_eq!(tries.cached(&small), store.get(DBCol::State, &small).unwrap());
    assert_eq!(tries.cached(&large), None);

    let mut update = StoreUpdate::new_with_tries(tries);
    update.decrement_refcount(DBCol::State, &small);
    let tries = update.commit(&mut store).unwrap().unwrap();
    assert_eq!(tries.cached(&small), None);

    let mut update = StoreUpdate::new_with_tries(tries);
    update.increment_refcount(DBCol::State, &small, b"node");
    let tries = update.commit(&mut store).unwrap().unwrap();
    let mut update = StoreUpdate::new_with_tries(tries);
    update.delete_all(DBCol::State);
    let tries = update.commit(&mut store).unwrap().unwrap();
    assert_eq!(tries.cached(&small), None);
}

/// A database that fails on every operation.
struct BrokenDB;

impl Database for BrokenDB {
    fn get_raw_bytes(&self, _col: DBCol, _key: &[u8]) -> Result<Option<Vec<u8>>, Error> {
        Err(Error::Database(5))
    }

    fn iter_raw_bytes(&self, _col: DBCol) -> Vec<(Vec<u8>, Vec<u8>)> {
        Vec::new()
    }

    fn write(&mut self, _transaction: DBTransaction) -> Result<(), Error> {
        Err(Error::Database(6))
    }

    fn flush(&self) -> Result<(), Error> {
        Err(Error::Database(7))
    }

    fn get_store_statistics(&self) -> Option<StoreStatistics> {
        None
    }
}

#[test]
fn failures_of_the_database_are_passed_on() {
    let mut store = Store::new(9, BrokenDB);
    assert_eq!(store.get(DBCol::Peers, b"a"), Err(Error::Database(5)));
    assert_eq!(store.key_exists(DBCol::Peers, b"a"), Err(Error::Database(5)));
    assert_eq!(
        store.get_ser::<CryptoHash>(DBCol::Peers, b"a").unwrap_err(),
        Error::Database(5)
    );
    let failure = store.store_update().commit(&mut store).unwrap_err();
    assert_eq!(failure.error, Error::Database(6));
    assert!(failure.tries.is_none());
    let mut update = StoreUpdate::new_with_tries(ShardTries::new(1, 9));
    update.increment_refcount(DBCol::State, &[3; 40], b"node");
    let failure = update.commit(&mut store).unwrap_err();
    assert_eq!(failure.error, Error::Database(6));
    assert_eq!(failure.tries.unwrap().cached(&[3; 40]), Some(b"node".to_vec()));
    assert_eq!(store.load_from_bytes(DBCol::Peers, &[]), Err(Error::Database(6)));
    assert_eq!(store.flush(), Err(Error::Database(7)));
    assert!(get_genesis_hash(&store).unwrap_err() == Error::Database(5));
    assert!(get_genesis_state_roots(&store).unwrap_err() == Error::Database(5));
    let mut cache = StoreCompiledContractCache { store };
    assert_eq!(cache.get(b"k"), Err(Error::Database(5)));
    assert_eq!(cache.put(b"k", b"v"), Err(Error::Database(6)));
}

#[test]
fn the_database_in_memory_has_no_statistics() {
    let store = create_test_store(0);
    assert!(store.get_store_statistics().is_none());
    assert_eq!(store.flush(), Ok(()));
}

#[test]
fn an_opener_knows_where_the_data_lies() {
    let config = StoreConfig::test_config();
    let opener = Store::opener("/home/node", &config);
    assert_eq!(opener.home_dir, "/home/node");
    assert_eq!(opener.data_dir(), "data");
    let config = StoreConfig { path: Some("elsewhere".to_string()), ..config };
    assert_eq!(Store::opener("/home/node", &config).data_dir(), "elsewhere");
}

#[test]
fn no_column_is_both_counted_and_insert_only() {
    assert!(DBCol::State.is_rc() && !DBCol::State.is_insert_only());
    assert!(DBCol::Block.is_insert_only() && !DBCol::Block.is_rc());
    assert!(DBCol::Transactions.is_rc() && !DBCol::Transactions.is_insert_only());
}
