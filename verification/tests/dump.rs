use near_store::columns::DBCol;
use near_store::dump::{decode_dump, encode_dump};
use near_store::error::Error;
use near_store::store::create_test_store;

#[test]
fn the_file_form_has_lengths_in_front() {
    let entries = vec![(b"ab".to_vec(), b"xyz".to_vec()), (Vec::new(), vec![0; 258])];
    let mut want = vec![2, 0, 0, 0, b'a', b'b', 3, 0, 0, 0, b'x', b'y', b'z'];
    want.extend([0, 0, 0, 0, 2, 1, 0, 0]);
    want.extend(vec![0; 258]);
    assert_eq!(encode_dump(&entries), want);
    assert_eq!(decode_dump(&want), Ok(entries));
}

#[test]
fn a_saved_column_is_loaded_again() {
    let mut store = create_test_store(0);
    let mut update = store.store_update();
    update.increment_refcount_by(DBCol::State, b"a", b"1", 2);
    update.decrement_refcount(DBCol::State, b"b");
    update.increment_refcount(DBCol::State, b"c", b"3");
    update.commit(&mut store).unwrap();
    let file = store.save_to_bytes(DBCol::State);

    let mut other = create_test_store(1);
    other.load_from_bytes(DBCol::State, &file).unwrap();
    assert_eq!(other.iter_raw_bytes(DBCol::State), store.iter_raw_bytes(DBCol::State));
    assert_eq!(other.get(DBCol::State, b"a").unwrap(), Some(b"1".to_vec()));
}

#[test]
fn loading_keeps_what_the_file_has_not() {
    let mut store = create_test_store(0);
    let mut update = store.store_update();
    update.set(DBCol::Peers, b"a", b"old");
    update.set(DBCol::Peers, b"b", b"old");
    update.commit(&mut store).unwrap();
    let file = encode_dump(&vec![(b"b".to_vec(), b"new".to_vec())]);
    store.load_from_bytes(DBCol::Peers, &file).unwrap();
    assert_eq!(
        store.iter(DBCol::Peers),
        vec![(b"a".to_vec(), b"old".to_vec()), (b"b".to_vec(), b"new".to_vec())]
    );
}

#[test]
fn a_file_that_is_cut_short_is_not_loaded() {
    let file = encode_dump(&vec![
        (b"a".to_vec(), b"1".to_vec()),
        (b"key".to_vec(), b"value".to_vec()),
    ]);
    let first = 10;
    for end in first + 4..file.len() {
        let mut store = create_test_store(0);
        assert_eq!(
            store.load_from_bytes(DBCol::Peers, &file[..end]),
            Err(Error::UnexpectedEof),
            "{end}"
        );
        assert!(store.iter(DBCol::Peers).is_empty());
    }
}

#[test]
fn fewer_than_four_bytes_at_the_end_are_passed_over() {
    let mut file = encode_dump(&vec![(b"a".to_vec(), b"1".to_vec())]);
    file.extend([1, 2, 3]);
    assert_eq!(decode_dump(&file), Ok(vec![(b"a".to_vec(), b"1".to_vec())]));
    assert_eq!(decode_dump(&[]), Ok(Vec::new()));
}
