use near_store::codec::Borsh;
use near_store::error::Error;
use near_store::types::{
    AccessKey, AccessKeyPermission, Account, AccountId, CryptoHash, DelayedReceiptIndices,
    FunctionCallPermission, PublicKey, Receipt, ReceivedData,
};

fn account(name: &str) -> AccountId {
    AccountId::from_bytes(name.as_bytes()).unwrap()
}

#[test]
fn hashes_are_written_as_they_are() {
    let hash = CryptoHash([7; 32]);
    assert_eq!(hash.try_to_vec().unwrap(), vec![7; 32]);
    assert_eq!(CryptoHash::try_from_slice(&[7; 32]).unwrap().0, [7; 32]);
    assert_eq!(CryptoHash::try_from_slice(&[7; 31]).unwrap_err(), Error::Deserialization);
    assert_eq!(CryptoHash::try_from_slice(&[7; 33]).unwrap_err(), Error::Deserialization);
}

#[test]
fn lists_of_hashes_have_their_number_in_front() {
    let hashes = vec![CryptoHash([1; 32]), CryptoHash([2; 32])];
    let want = [vec![2, 0, 0, 0], vec![1; 32], vec![2; 32]].concat();
    assert_eq!(hashes.try_to_vec().unwrap(), want);
    let read = Vec::<CryptoHash>::try_from_slice(&want).unwrap();
    assert_eq!(read.len(), 2);
    assert_eq!(read[1].0, [2; 32]);
    assert!(Vec::<CryptoHash>::try_from_slice(&want[..67]).is_err());
    assert!(Vec::<CryptoHash>::try_from_slice(&[want, vec![0]].concat()).is_err());
    assert!(Vec::<CryptoHash>::try_from_slice(&[0, 0, 0, 0]).unwrap().is_empty());
    assert!(Vec::<CryptoHash>::try_from_slice(&[0, 0, 0]).is_err());
}

#[test]
fn accounts_take_72_bytes() {
    let code_hash = CryptoHash([9; 32]);
    let value = Account { amount: 1, locked: 256, code_hash, storage_usage: 3 };
    let mut want = vec![0; 72];
    want[0] = 1;
    want[17] = 1;
    want[32..64].fill(9);
    want[64] = 3;
    assert_eq!(value.try_to_vec().unwrap(), want);
    let read = Account::try_from_slice(&want).unwrap();
    assert_eq!((read.amount, read.locked, read.storage_usage), (1, 256, 3));
    assert_eq!(read.code_hash.0, [9; 32]);
    assert!(Account::try_from_slice(&want[..71]).is_err());
}

#[test]
fn queue_indices_take_sixteen_bytes() {
    let value = DelayedReceiptIndices { first_index: 1, next_available_index: 0x0102 };
    let want = vec![1, 0, 0, 0, 0, 0, 0, 0, 2, 1, 0, 0, 0, 0, 0, 0];
    assert_eq!(value.try_to_vec().unwrap(), want);
    assert_eq!(DelayedReceiptIndices::try_from_slice(&want).unwrap(), value);
    assert!(DelayedReceiptIndices::try_from_slice(&want[..15]).is_err());
    let none = DelayedReceiptIndices::default();
    assert_eq!((none.first_index, none.next_available_index), (0, 0));
}

#[test]
fn received_data_may_be_absent() {
    let none = ReceivedData { data: None };
    assert_eq!(none.try_to_vec().unwrap(), vec![0]);
    let some = ReceivedData { data: Some(vec![8, 9]) };
    assert_eq!(some.try_to_vec().unwrap(), vec![1, 2, 0, 0, 0, 8, 9]);
    assert_eq!(ReceivedData::try_from_slice(&[0]).unwrap().data, None);
    assert_eq!(
        ReceivedData::try_from_slice(&[1, 2, 0, 0, 0, 8, 9]).unwrap().data,
        Some(vec![8, 9])
    );
    for wrong in [&[][..], &[2], &[0, 0], &[1, 2, 0, 0, 0, 8], &[1, 1, 0, 0, 0, 8, 9]] {
        assert_eq!(ReceivedData::try_from_slice(wrong).unwrap_err(), Error::Deserialization);
    }
}

#[test]
fn public_keys_have_their_curve_in_front() {
    let short = PublicKey::ED25519([5; 32]);
    assert_eq!(short.try_to_vec().unwrap(), [vec![0], vec![5; 32]].concat());
    let long = PublicKey::SECP256K1([6; 64]);
    assert_eq!(long.try_to_vec().unwrap(), [vec![1], vec![6; 64]].concat());
    assert!(matches!(
        PublicKey::try_from_slice(&[vec![0], vec![5; 32]].concat()),
        Ok(PublicKey::ED25519(k)) if k == [5; 32]
    ));
    assert!(matches!(
        PublicKey::try_from_slice(&[vec![1], vec![6; 64]].concat()),
        Ok(PublicKey::SECP256K1(k)) if k == [6; 64]
    ));
    assert!(PublicKey::try_from_slice(&[vec![1], vec![6; 32]].concat()).is_err());
    assert!(PublicKey::try_from_slice(&[vec![2], vec![6; 32]].concat()).is_err());
}

#[test]
fn access_keys_are_limited_or_not() {
    let full = AccessKey { nonce: 4, permission: AccessKeyPermission::FullAccess };
    assert_eq!(full.try_to_vec().unwrap(), vec![4, 0, 0, 0, 0, 0, 0, 0, 1]);
    let limited = AccessKey {
        nonce: 5,
        permission: AccessKeyPermission::FunctionCall(FunctionCallPermission {
            allowance: Some(3),
            receiver_id: "bob".to_string(),
            method_names: vec!["f".to_string(), "gh".to_string()],
        }),
    };
    let mut want = vec![5, 0, 0, 0, 0, 0, 0, 0, 0, 1, 3];
    want.extend(vec![0; 15]);
    want.extend([3, 0, 0, 0, b'b', b'o', b'b', 2, 0, 0, 0]);
    want.extend([1, 0, 0, 0, b'f', 2, 0, 0, 0, b'g', b'h']);
    assert_eq!(limited.try_to_vec().unwrap(), want);
    match AccessKey::try_from_slice(&want).unwrap().permission {
        AccessKeyPermission::FunctionCall(p) => {
            assert_eq!(p.allowance, Some(3));
            assert_eq!(p.receiver_id, "bob");
            assert_eq!(p.method_names, ["f", "gh"]);
        }
        AccessKeyPermission::FullAccess => panic!("limited"),
    }
    assert!(matches!(
        AccessKey::try_from_slice(&[4, 0, 0, 0, 0, 0, 0, 0, 1]),
        Ok(AccessKey { nonce: 4, permission: AccessKeyPermission::FullAccess })
    ));
    assert!(AccessKey::try_from_slice(&want[..want.len() - 1]).is_err());
    assert!(AccessKey::try_from_slice(&[4, 0, 0, 0, 0, 0, 0, 0, 2]).is_err());
    let not_text = vec![0, 0, 0, 0, 0, 0, 0, 0, 0, 0, 1, 0, 0, 0, 255, 0, 0, 0, 0];
    assert!(AccessKey::try_from_slice(&not_text).is_err());
}

#[test]
fn receipts_are_their_header_and_their_body() {
    let receipt = Receipt {
        predecessor_id: account("alice"),
        receiver_id: account("bob.near"),
        receipt_id: CryptoHash([3; 32]),
        receipt: ReceivedData { data: Some(vec![1]) },
    };
    let mut want = [vec![5, 0, 0, 0], b"alice".to_vec(), vec![8, 0, 0, 0]].concat();
    want.extend(b"bob.near");
    want.extend([3; 32]);
    want.extend([1, 1, 0, 0, 0, 1]);
    assert_eq!(receipt.try_to_vec().unwrap(), want);
    let read = Receipt::<ReceivedData>::try_from_slice(&want).unwrap();
    assert_eq!(read.predecessor_id.as_bytes(), b"alice");
    assert_eq!(read.receiver_id.as_bytes(), b"bob.near");
    assert_eq!(read.receipt_id.0, [3; 32]);
    assert_eq!(read.receipt.data, Some(vec![1]));
    assert!(Receipt::<ReceivedData>::try_from_slice(&want[..40]).is_err());
    want[4] = b'A';
    assert!(Receipt::<ReceivedData>::try_from_slice(&want).is_err());
}

#[test]
fn account_names_follow_the_rules() {
    for good in ["ok", "alice", "a-b.c_d", "00", "app.alice.near"] {
        assert_eq!(account(good).as_bytes(), good.as_bytes());
    }
    let long = "a".repeat(65);
    for bad in ["", "a", ".a", "a.", "a..b", "a._b", "Alice", "a b", "a,b", long.as_str()] {
        assert!(AccountId::from_bytes(bad.as_bytes()).is_none(), "{bad}");
    }
    assert!(AccountId::from_bytes("a".repeat(64).as_bytes()).is_some());
}

#[test]
fn integers_are_little_endian() {
    assert_eq!(7u8.try_to_vec().unwrap(), [7]);
    assert_eq!(0x0102u16.try_to_vec().unwrap(), [2, 1]);
    assert_eq!(0x01020304u32.try_to_vec().unwrap(), [4, 3, 2, 1]);
    assert_eq!(1u64.try_to_vec().unwrap(), [1, 0, 0, 0, 0, 0, 0, 0]);
    assert_eq!(u128::MAX.try_to_vec().unwrap(), [255; 16]);
    assert_eq!(u8::try_from_slice(&[7]), Ok(7));
    assert_eq!(u16::try_from_slice(&[2, 1]), Ok(0x0102));
    assert_eq!(u32::try_from_slice(&[4, 3, 2, 1]), Ok(0x01020304));
    assert_eq!(u64::try_from_slice(&[1, 0, 0, 0, 0, 0, 0, 0]), Ok(1));
    assert_eq!(u128::try_from_slice(&[255; 16]), Ok(u128::MAX));
    assert_eq!(u8::try_from_slice(&[]), Err(Error::Deserialization));
    assert_eq!(u16::try_from_slice(&[1]), Err(Error::Deserialization));
    assert_eq!(u32::try_from_slice(&[1; 5]), Err(Error::Deserialization));
    assert_eq!(u64::try_from_slice(&[1; 7]), Err(Error::Deserialization));
    assert_eq!(u128::try_from_slice(&[1; 17]), Err(Error::Deserialization));
}

#[test]
fn texts_and_byte_strings_have_their_length_in_front() {
    let bytes: Vec<u8> = vec![8, 9];
    assert_eq!(Borsh::try_to_vec(&bytes).unwrap(), [2, 0, 0, 0, 8, 9]);
    assert_eq!(Vec::<u8>::try_from_slice(&[2, 0, 0, 0, 8, 9]), Ok(bytes));
    assert!(Vec::<u8>::try_from_slice(&[2, 0, 0, 0, 8]).is_err());
    assert!(Vec::<u8>::try_from_slice(&[0, 0, 0, 0, 8]).is_err());
    let text = "\u{e9}".to_string();
    assert_eq!(text.try_to_vec().unwrap(), [2, 0, 0, 0, 0xc3, 0xa9]);
    assert_eq!(String::try_from_slice(&[2, 0, 0, 0, 0xc3, 0xa9]), Ok(text));
    assert!(String::try_from_slice(&[1, 0, 0, 0, 0xc3]).is_err());
    assert!(String::try_from_slice(&[1, 0, 0]).is_err());
}
