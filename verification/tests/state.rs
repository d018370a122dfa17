use near_store::error::StorageError;
use near_store::state::{
    get, get_access_key, get_access_key_raw, get_account, get_code, get_delayed_receipt_indices,
    get_postponed_receipt, get_received_data, remove_access_key, remove_account,
    remove_postponed_receipt, set_access_key, set_account, set_code, set_postponed_receipt,
    set_received_data,
};
use near_store::trie_key::{
    get_raw_prefix_for_access_keys, get_raw_prefix_for_contract_data,
    parse_data_key_from_contract_data_key, parse_public_key_from_access_key_key,
    parse_trie_key_access_key_from_raw_key, TrieKey,
};
use near_store::trie_update::{Trie, TrieUpdate};
use near_store::types::{
    AccessKey, AccessKeyPermission, Account, AccountId, ContractCode, CryptoHash,
    DelayedReceiptIndices, PublicKey, Receipt, ReceivedData,
};

fn keys(state: &TrieUpdate, prefix: &[u8]) -> Vec<Vec<u8>> {
    state.iter(prefix).into_iter().map(|item| item.unwrap()).collect()
}

fn id(name: &str) -> AccountId {
    AccountId::from_bytes(name.as_bytes()).unwrap()
}

fn some_account() -> Account {
    Account { amount: 10, locked: 0, code_hash: CryptoHash([1; 32]), storage_usage: 100 }
}

fn full_access(nonce: u64) -> AccessKey {
    AccessKey { nonce, permission: AccessKeyPermission::FullAccess }
}

fn data_key(name: &str, key: &[u8]) -> TrieKey {
    TrieKey::ContractData { account_id: id(name), key: key.to_vec() }
}

const KEY: PublicKey = PublicKey::ED25519([5; 32]);

#[test]
fn keys_are_laid_out_in_bytes() {
    assert_eq!(TrieKey::Account { account_id: id("alice") }.to_vec(), b"\x00alice");
    assert_eq!(TrieKey::ContractCode { account_id: id("alice") }.to_vec(), b"\x01alice");
    let want = [b"\x02alice\x02\x00".to_vec(), vec![5; 32]].concat();
    assert_eq!(TrieKey::AccessKey { account_id: id("alice"), public_key: KEY }.to_vec(), want);
    let hash = CryptoHash([4; 32]);
    let want = [b"\x03alice,".to_vec(), vec![4; 32]].concat();
    assert_eq!(TrieKey::ReceivedData { receiver_id: id("alice"), data_id: hash }.to_vec(), want);
    let want = [b"\x06alice,".to_vec(), vec![4; 32]].concat();
    assert_eq!(
        TrieKey::PostponedReceipt { receiver_id: id("alice"), receipt_id: hash }.to_vec(),
        want
    );
    assert_eq!(TrieKey::DelayedReceiptIndices.to_vec(), [7]);
    assert_eq!(data_key("alice", b"k").to_vec(), b"\x09alice,k");
    assert_eq!(get_raw_prefix_for_access_keys(&id("alice")), b"\x02alice\x02");
    assert_eq!(get_raw_prefix_for_contract_data(&id("alice"), b"k"), b"\x09alice,k");
}

#[test]
fn keys_are_taken_apart() {
    let raw = TrieKey::AccessKey { account_id: id("alice"), public_key: KEY }.to_vec();
    assert!(matches!(
        parse_public_key_from_access_key_key(&raw, &id("alice")),
        Ok(PublicKey::ED25519(k)) if k == [5; 32]
    ));
    assert!(parse_public_key_from_access_key_key(&raw[..20], &id("alice")).is_err());
    assert!(parse_public_key_from_access_key_key(&raw[..3], &id("alice")).is_err());
    assert_eq!(
        parse_data_key_from_contract_data_key(b"\x09alice,key", &id("alice")),
        Ok(b"key".to_vec())
    );
    assert!(parse_data_key_from_contract_data_key(b"\x09al", &id("alice")).is_err());
    assert_eq!(parse_trie_key_access_key_from_raw_key(&raw).unwrap().to_vec(), raw);
    for wrong in [&[][..], b"\x00alice", b"\x02alice", b"\x02alice\x02", b"\x02A\x02\x00"] {
        assert!(parse_trie_key_access_key_from_raw_key(wrong).is_err());
    }
}

#[test]
fn accounts_are_written_and_read() {
    let mut state = TrieUpdate::new(Trie::new());
    assert!(get_account(&state, &id("alice")).unwrap().is_none());
    set_account(&mut state, id("alice"), &some_account());
    let read = get_account(&state, &id("alice")).unwrap().unwrap();
    assert_eq!((read.amount, read.locked, read.storage_usage), (10, 0, 100));
    assert_eq!(read.code_hash.0, [1; 32]);
    assert!(get_account(&state, &id("bob")).unwrap().is_none());
}

#[test]
fn received_data_is_written_and_read() {
    let mut state = TrieUpdate::new(Trie::new());
    let hash = CryptoHash([2; 32]);
    set_received_data(&mut state, id("alice"), hash, &ReceivedData { data: Some(vec![1, 2]) });
    let read = get_received_data(&state, &id("alice"), hash).unwrap().unwrap();
    assert_eq!(read.data, Some(vec![1, 2]));
    assert!(get_received_data(&state, &id("alice"), CryptoHash([3; 32])).unwrap().is_none());
}

#[test]
fn postponed_receipts_are_written_read_and_removed() {
    let mut state = TrieUpdate::new(Trie::new());
    let hash = CryptoHash([2; 32]);
    let receipt = Receipt {
        predecessor_id: id("alice"),
        receiver_id: id("bob"),
        receipt_id: hash,
        receipt: ReceivedData { data: None },
    };
    set_postponed_receipt(&mut state, &receipt);
    let read: Receipt<ReceivedData> =
        get_postponed_receipt(&state, &id("bob"), hash).unwrap().unwrap();
    assert_eq!(read.predecessor_id.as_bytes(), b"alice");
    assert_eq!(read.receipt.data, None);
    assert!(get_postponed_receipt::<ReceivedData>(&state, &id("alice"), hash).unwrap().is_none());
    remove_postponed_receipt(&mut state, &id("bob"), hash);
    assert!(get_postponed_receipt::<ReceivedData>(&state, &id("bob"), hash).unwrap().is_none());
}

#[test]
fn the_queue_of_delayed_receipts_is_empty_at_first() {
    let mut state = TrieUpdate::new(Trie::new());
    assert_eq!(get_delayed_receipt_indices(&state).unwrap(), DelayedReceiptIndices::default());
    let indices = DelayedReceiptIndices { first_index: 3, next_available_index: 8 };
    near_store::state::set(&mut state, TrieKey::DelayedReceiptIndices, &indices);
    assert_eq!(get_delayed_receipt_indices(&state).unwrap(), indices);
}

#[test]
fn access_keys_are_written_read_and_removed() {
    let mut state = TrieUpdate::new(Trie::new());
    set_access_key(&mut state, id("alice"), KEY, &full_access(7));
    assert_eq!(get_access_key(&state, &id("alice"), &KEY).unwrap().unwrap().nonce, 7);
    let raw = TrieKey::AccessKey { account_id: id("alice"), public_key: KEY }.to_vec();
    assert_eq!(get_access_key_raw(&state, &raw).unwrap().unwrap().nonce, 7);
    let other = PublicKey::SECP256K1([5; 64]);
    assert!(get_access_key(&state, &id("alice"), &other).unwrap().is_none());
    remove_access_key(&mut state, id("alice"), KEY);
    assert!(get_access_key(&state, &id("alice"), &KEY).unwrap().is_none());
    assert!(get_access_key_raw(&state, &raw).unwrap().is_none());
}

#[test]
fn code_is_read_with_its_hash() {
    let mut state = TrieUpdate::new(Trie::new());
    assert!(get_code(&state, &id("alice"), None).unwrap().is_none());
    set_code(&mut state, id("alice"), &ContractCode::new(b"abc".to_vec(), None));
    let code = get_code(&state, &id("alice"), None).unwrap().unwrap();
    assert_eq!(code.code(), b"abc");
    // The SHA-256 digest of "abc".
    let digest = [
        0xba, 0x78, 0x16, 0xbf, 0x8f, 0x01, 0xcf, 0xea, 0x41, 0x41, 0x40, 0xde, 0x5d, 0xae, 0x22,
        0x23, 0xb0, 0x03, 0x61, 0xa3, 0x96, 0x17, 0x7a, 0x9c, 0xb4, 0x10, 0xff, 0x61, 0xf2, 0x00,
        0x15, 0xad,
    ];
    assert_eq!(code.hash().0, digest);
    let given = get_code(&state, &id("alice"), Some(CryptoHash([6; 32]))).unwrap().unwrap();
    assert_eq!(given.hash().0, [6; 32]);
}

#[test]
fn bytes_that_are_no_record_are_an_inconsistency() {
    let mut trie = Trie::new();
    trie.insert(b"\x00alice".to_vec(), b"short".to_vec());
    let state = TrieUpdate::new(trie);
    match get_account(&state, &id("alice")) {
        Err(StorageError::StorageInconsistentState(text)) => {
            assert_eq!(text, "Failed to deserialize")
        }
        _ => panic!("no record"),
    }
    assert!(get::<Account>(&state, &TrieKey::Account { account_id: id("bob") }).unwrap().is_none());
}

#[test]
fn missing_nodes_stop_a_read_of_what_was_not_changed() {
    let mut trie = Trie::new();
    trie.forget(b"\x00al".to_vec());
    let mut state = TrieUpdate::new(trie);
    assert!(matches!(get_account(&state, &id("alice")), Err(StorageError::TrieNodeMissing)));
    assert!(get_account(&state, &id("bob")).unwrap().is_none());
    set_account(&mut state, id("alice"), &some_account());
    assert!(get_account(&state, &id("alice")).unwrap().is_some());
    set_account(&mut state, id("ab"), &some_account());
    set_account(&mut state, id("bob"), &some_account());
    assert_eq!(
        state.iter(b"\x00"),
        vec![Ok(b"\x00ab".to_vec()), Err(StorageError::TrieNodeMissing)]
    );
    assert_eq!(state.iter(b"\x00alice"), vec![Err(StorageError::TrieNodeMissing)]);
    assert_eq!(state.iter(b"\x00b"), vec![Ok(b"\x00bob".to_vec())]);
    assert!(state.iter(b"\x01").is_empty());
}

#[test]
fn keys_are_walked_in_order_with_the_changes() {
    let mut trie = Trie::new();
    for key in [&b"\x09alice,b"[..], b"\x09alice,d", b"\x09alice,c", b"\x09bob,a"] {
        trie.insert(key.to_vec(), vec![1]);
    }
    let mut state = TrieUpdate::new(trie);
    state.set(data_key("alice", b"a"), vec![2]);
    state.set(data_key("alice", b"b"), vec![2]);
    state.remove(data_key("alice", b"c"));
    assert_eq!(
        keys(&state, b"\x09alice,"),
        vec![b"\x09alice,a".to_vec(), b"\x09alice,b".to_vec(), b"\x09alice,d".to_vec()]
    );
    assert_eq!(state.get(&data_key("alice", b"b")).unwrap(), Some(vec![2]));
    assert_eq!(state.get(&data_key("alice", b"c")).unwrap(), None);
    assert_eq!(state.get(&data_key("alice", b"d")).unwrap(), Some(vec![1]));
}

fn fill(state: &mut TrieUpdate, name: &str) {
    set_account(state, id(name), &some_account());
    set_code(state, id(name), &ContractCode::new(vec![1, 2, 3], None));
    set_access_key(state, id(name), KEY, &full_access(1));
    set_access_key(state, id(name), PublicKey::SECP256K1([8; 64]), &full_access(2));
    state.set(data_key(name, b""), vec![1]);
    state.set(data_key(name, b"key"), vec![2]);
    let data = ReceivedData { data: None };
    set_received_data(state, id(name), CryptoHash([1; 32]), &data);
}

#[test]
fn a_removed_account_is_gone_and_others_stay() {
    let mut trie = Trie::new();
    trie.insert(b"\x09alice,in the trie".to_vec(), vec![3]);
    let mut state = TrieUpdate::new(trie);
    fill(&mut state, "alice");
    fill(&mut state, "alice.near");
    fill(&mut state, "alic");
    remove_account(&mut state, &id("alice")).unwrap();

    assert!(get_account(&state, &id("alice")).unwrap().is_none());
    assert!(get_code(&state, &id("alice"), None).unwrap().is_none());
    assert!(get_access_key(&state, &id("alice"), &KEY).unwrap().is_none());
    assert!(state.iter(b"\x02alice\x02").is_empty());
    assert!(state.iter(b"\x09alice,").is_empty());
    assert!(get_received_data(&state, &id("alice"), CryptoHash([1; 32])).unwrap().is_some());
    for other in ["alice.near", "alic"] {
        assert!(get_account(&state, &id(other)).unwrap().is_some());
        assert!(get_code(&state, &id(other), None).unwrap().is_some());
        assert_eq!(keys(&state, &get_raw_prefix_for_access_keys(&id(other))).len(), 2);
        let prefix = get_raw_prefix_for_contract_data(&id(other), &[]);
        assert_eq!(keys(&state, &prefix).len(), 2);
    }
}

#[test]
fn a_removal_stops_at_missing_nodes() {
    let mut trie = Trie::new();
    trie.forget(b"\x02alice\x02".to_vec());
    let mut state = TrieUpdate::new(trie);
    fill(&mut state, "alice");
    assert!(matches!(
        remove_account(&mut state, &id("alice")),
        Err(StorageError::TrieNodeMissing)
    ));
    assert!(get_account(&state, &id("alice")).unwrap().is_none());
    assert!(get_access_key(&state, &id("alice"), &KEY).unwrap().is_some());

    let mut trie = Trie::new();
    trie.forget(b"\x09alice,key".to_vec());
    let mut state = TrieUpdate::new(trie);
    fill(&mut state, "alice");
    assert!(matches!(
        remove_account(&mut state, &id("alice")),
        Err(StorageError::TrieNodeMissing)
    ));
    assert!(get_access_key(&state, &id("alice"), &KEY).unwrap().is_none());
    assert_eq!(state.get(&data_key("alice", b"")).unwrap(), Some(vec![1]));
}

#[test]
fn a_removal_stops_at_an_access_key_without_public_key() {
    let mut trie = Trie::new();
    trie.insert(b"\x02alice\x02no key".to_vec(), vec![1]);
    let mut state = TrieUpdate::new(trie);
    fill(&mut state, "alice");
    match remove_account(&mut state, &id("alice")) {
        Err(StorageError::StorageInconsistentState(text)) => {
            assert_eq!(text, "Can't parse public key from raw key for AccessKey")
        }
        _ => panic!("not parsed"),
    }
    assert!(get_account(&state, &id("alice")).unwrap().is_none());
    assert!(get_access_key(&state, &id("alice"), &KEY).unwrap().is_some());
}

#[test]
fn a_removal_stops_at_the_first_error() {
    // The key that is no access key comes before the missing node.
    let mut trie = Trie::new();
    trie.insert(b"\x02alice\x02a".to_vec(), vec![1]);
    trie.forget(b"\x02alice\x02b".to_vec());
    let mut state = TrieUpdate::new(trie);
    assert!(matches!(
        remove_account(&mut state, &id("alice")),
        Err(StorageError::StorageInconsistentState(_))
    ));

    // The missing node comes first.
    let mut trie = Trie::new();
    trie.insert(b"\x02alice\x02c".to_vec(), vec![1]);
    trie.forget(b"\x02alice\x02b".to_vec());
    let mut state = TrieUpdate::new(trie);
    assert_eq!(
        remove_account(&mut state, &id("alice")),
        Err(StorageError::TrieNodeMissing)
    );
}
