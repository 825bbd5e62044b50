use mockdb::db::MockDB;
use mockdb::key::Key;
use mockdb::state::{BlockStateWrite, Error, MerkleTreeStores};

fn sample_stores() -> MerkleTreeStores {
    MerkleTreeStores {
        base_root: vec![1u8; 32],
        base_store: b"base-store-blob".to_vec(),
        account_root: vec![2u8; 32],
        account_store: b"account-store-blob".to_vec(),
        ibc_root: vec![3u8; 32],
        ibc_store: b"ibc-store-blob".to_vec(),
        pos_root: vec![4u8; 32],
        pos_store: b"pos-store-blob".to_vec(),
    }
}

fn sample_block(height: u64, epoch: u64, header: Option<Vec<u8>>) -> BlockStateWrite {
    BlockStateWrite {
        merkle_tree_stores: sample_stores(),
        header,
        hash: vec![0xAB; 32],
        height,
        epoch,
        pred_epochs: vec![0, 10, 20],
        next_epoch_min_start_height: height + 1,
        next_epoch_min_start_time: 1_700_000_000,
        address_gen: 42,
        results: vec![1, 0, 1],
    }
}

#[test]
fn test_read_last_block_none_when_empty() {
    let mut db = MockDB::open("unused");
    let r = db.read_last_block().expect("read should succeed");
    assert!(r.is_none());
}

#[test]
fn test_write_block_round_trip() {
    let mut db = MockDB::open("unused");
    let w = sample_block(5, 2, Some(b"header-bytes".to_vec()));
    db.write_block(w.clone()).expect("write_block");
    let b = db
        .read_last_block()
        .expect("read_last_block")
        .expect("a block was committed");
    assert_eq!(b.height, 5);
    assert_eq!(b.epoch, 2);
    assert_eq!(b.hash, vec![0xAB; 32]);
    assert_eq!(b.pred_epochs, vec![0, 10, 20]);
    assert_eq!(b.next_epoch_min_start_height, 6);
    assert_eq!(b.next_epoch_min_start_time, 1_700_000_000);
    assert_eq!(b.address_gen, 42);
    assert_eq!(b.results, vec![1, 0, 1]);
    assert_eq!(b.merkle_tree_stores, sample_stores());
    let h = db.read_block_header(5).expect("read_block_header");
    assert_eq!(h, Some(b"header-bytes".to_vec()));
}

#[test]
fn test_latest_height_wins() {
    // Committing height 5 and then height 6 must yield height 6's data.
    let mut db = MockDB::open("unused");
    db.write_block(sample_block(5, 2, None)).expect("write 5");
    let mut w6 = sample_block(6, 3, None);
    w6.hash = vec![0xCD; 32];
    db.write_block(w6).expect("write 6");
    let b = db
        .read_last_block()
        .expect("read_last_block")
        .expect("blocks were committed");
    assert_eq!(b.height, 6);
    assert_eq!(b.epoch, 3);
    assert_eq!(b.hash, vec![0xCD; 32]);
}

#[test]
fn test_header_absent_is_not_an_error() {
    let mut db = MockDB::open("unused");
    db.write_block(sample_block(5, 2, None)).expect("write_block");
    assert_eq!(db.read_block_header(5).expect("read"), None);
    // The rest of the state is still fully readable.
    assert!(db.read_last_block().expect("read").is_some());
}

#[test]
fn test_partial_state_rejected_as_temporary() {
    let mut db = MockDB::open("unused");
    db.write_block(sample_block(5, 2, None)).expect("write_block");
    // Drop one required per-height scalar; the rest stays.
    let removed = db.remove_raw(b"5/hash");
    assert!(removed.is_some());
    let r = db.read_last_block();
    assert_eq!(r, Err(Error::Temporary));
}

#[test]
fn test_missing_results_rejected_as_temporary() {
    let mut db = MockDB::open("unused");
    db.write_block(sample_block(5, 2, None)).expect("write_block");
    assert!(db.remove_raw(b"results/5").is_some());
    assert_eq!(db.read_last_block(), Err(Error::Temporary));
}

#[test]
fn test_missing_store_part_rejected_as_temporary() {
    let mut db = MockDB::open("unused");
    db.write_block(sample_block(5, 2, None)).expect("write_block");
    assert!(db.remove_raw(b"5/tree/ibc/store").is_some());
    assert_eq!(db.read_last_block(), Err(Error::Temporary));
}

#[test]
fn test_unknown_key_rejected() {
    let mut db = MockDB::open("unused");
    db.write_block(sample_block(5, 2, None)).expect("write_block");
    db.insert_raw(b"5/bogus".to_vec(), vec![0]);
    let r = db.read_last_block();
    assert_eq!(
        r,
        Err(Error::UnknownKey {
            key: b"5/bogus".to_vec()
        })
    );
}

#[test]
fn test_undecodable_value_is_coding_error() {
    let mut db = MockDB::open("unused");
    db.write_block(sample_block(5, 2, None)).expect("write_block");
    // An epoch must be exactly 8 little-endian bytes.
    db.insert_raw(b"5/epoch".to_vec(), vec![1, 2, 3]);
    assert_eq!(db.read_last_block(), Err(Error::CodingError));
}

#[test]
fn test_undecodable_height_is_coding_error() {
    let mut db = MockDB::open("unused");
    db.insert_raw(b"height".to_vec(), b"not-a-height".to_vec());
    assert_eq!(db.read_last_block(), Err(Error::CodingError));
}

#[test]
fn test_stored_encodings_are_borsh() {
    // The stored bytes follow borsh's format: integers as little-endian
    // fixed-width bytes, vectors length-prefixed with a little-endian u32.
    let mut db = MockDB::open("unused");
    db.write_block(sample_block(5, 2, None)).expect("write_block");
    assert_eq!(db.read_raw(b"height"), Some(&vec![5, 0, 0, 0, 0, 0, 0, 0]));
    assert_eq!(db.read_raw(b"5/epoch"), Some(&vec![2, 0, 0, 0, 0, 0, 0, 0]));
    let mut pred = vec![3u8, 0, 0, 0];
    pred.extend_from_slice(&[0u8; 8]);
    pred.extend_from_slice(&[10, 0, 0, 0, 0, 0, 0, 0]);
    pred.extend_from_slice(&[20, 0, 0, 0, 0, 0, 0, 0]);
    assert_eq!(db.read_raw(b"5/pred_epochs"), Some(&pred));
    let mut results = vec![3u8, 0, 0, 0];
    results.extend_from_slice(&[1, 0, 1]);
    assert_eq!(db.read_raw(b"results/5"), Some(&results));
    // Store blobs are persisted raw.
    assert_eq!(db.read_raw(b"5/tree/base/store"), Some(&b"base-store-blob".to_vec()));
}

#[test]
fn test_read_merkle_tree_stores_all_or_nothing() {
    let mut db = MockDB::open("unused");
    db.write_block(sample_block(5, 2, None)).expect("write_block");
    let t = db
        .read_merkle_tree_stores(5)
        .expect("read")
        .expect("all parts present");
    assert_eq!(t, sample_stores());
    // No block was committed at height 7.
    assert_eq!(db.read_merkle_tree_stores(7).expect("read"), None);
    // Any single missing part makes the whole read absent.
    assert!(db.remove_raw(b"5/tree/pos/root").is_some());
    assert_eq!(db.read_merkle_tree_stores(5).expect("read"), None);
}

#[test]
fn test_subspace_read_write_delete() {
    let mut db = MockDB::open("unused");
    let key = Key::from_segment(b"balance").expect("valid segment");
    assert_eq!(db.read_subspace_val(&key).expect("read"), None);
    let d = db.write_subspace_val(1, &key, b"12345").expect("write");
    assert_eq!(d, 5);
    assert_eq!(db.read_subspace_val(&key).expect("read"), Some(b"12345".to_vec()));
    let freed = db.delete_subspace_val(1, &key).expect("delete");
    assert_eq!(freed, 5);
    assert_eq!(db.read_subspace_val(&key).expect("read"), None);
}

#[test]
fn test_write_delta_on_overwrite() {
    let mut db = MockDB::open("unused");
    let key = Key::from_segment(b"k").expect("valid segment");
    assert_eq!(db.write_subspace_val(1, &key, b"abc").expect("write"), 3);
    // Overwriting a 3-byte value with a 1-byte one frees 2 bytes.
    assert_eq!(db.write_subspace_val(1, &key, b"z").expect("write"), -2);
    assert_eq!(db.write_subspace_val(1, &key, b"zzzzzz").expect("write"), 5);
}

#[test]
fn test_delete_absent_key_is_idempotent() {
    let mut db = MockDB::open("unused");
    db.write_block(sample_block(5, 2, None)).expect("write_block");
    let before = db.read_last_block();
    let key = Key::from_segment(b"never-written").expect("valid segment");
    assert_eq!(db.delete_subspace_val(1, &key).expect("delete"), 0);
    assert_eq!(db.delete_subspace_val(1, &key).expect("delete"), 0);
    // The backend is unchanged.
    assert_eq!(db.read_last_block(), before);
    assert_eq!(db.read_subspace_val(&key).expect("read"), None);
}

#[test]
fn test_historical_read_is_declined() {
    let db = MockDB::open("unused");
    let key = Key::from_segment(b"k").expect("valid segment");
    assert_eq!(
        db.read_subspace_val_with_height(&key, 3, 5),
        Err(Error::Temporary)
    );
}

#[test]
fn test_batch_writes_match_direct_writes() {
    let mut db = MockDB::open("unused");
    let key = Key::from_segment(b"staged").expect("valid segment");
    let mut batch = MockDB::batch();
    assert_eq!(
        db.batch_write_subspace_val(&mut batch, 1, &key, b"abcd")
            .expect("batch write"),
        4
    );
    assert_eq!(
        db.batch_write_subspace_val(&mut batch, 1, &key, b"ab")
            .expect("batch write"),
        -2
    );
    db.exec_batch(batch).expect("exec_batch");
    assert_eq!(db.read_subspace_val(&key).expect("read"), Some(b"ab".to_vec()));
    let mut batch = MockDB::batch();
    assert_eq!(
        db.batch_delete_subspace_val(&mut batch, 1, &key)
            .expect("batch delete"),
        2
    );
    db.exec_batch(batch).expect("exec_batch");
    assert_eq!(db.read_subspace_val(&key).expect("read"), None);
}

#[test]
fn test_empty_fields_round_trip() {
    let mut db = MockDB::open("unused");
    let w = BlockStateWrite {
        merkle_tree_stores: MerkleTreeStores {
            base_root: vec![],
            base_store: vec![],
            account_root: vec![],
            account_store: vec![],
            ibc_root: vec![],
            ibc_store: vec![],
            pos_root: vec![],
            pos_store: vec![],
        },
        header: None,
        hash: vec![],
        height: 0,
        epoch: 0,
        pred_epochs: vec![],
        next_epoch_min_start_height: 0,
        next_epoch_min_start_time: 0,
        address_gen: 0,
        results: vec![],
    };
    db.write_block(w).expect("write_block");
    let b = db
        .read_last_block()
        .expect("read_last_block")
        .expect("a block was committed");
    assert_eq!(b.height, 0);
    assert_eq!(b.hash, Vec::<u8>::new());
    assert_eq!(b.pred_epochs, Vec::<u64>::new());
    assert_eq!(b.results, Vec::<u8>::new());
    assert_eq!(b.merkle_tree_stores.pos_store, Vec::<u8>::new());
}

#[test]
fn test_empty_value_write_and_delete() {
    let mut db = MockDB::open("unused");
    let key = Key::from_segment(b"empty").expect("valid segment");
    assert_eq!(db.write_subspace_val(1, &key, b"").expect("write"), 0);
    assert_eq!(db.read_subspace_val(&key).expect("read"), Some(Vec::new()));
    assert_eq!(db.delete_subspace_val(1, &key).expect("delete"), 0);
    assert_eq!(db.read_subspace_val(&key).expect("read"), None);
}

#[test]
fn test_flush_is_accepted() {
    let db = MockDB::open("unused");
    assert_eq!(db.flush(true), Ok(()));
    assert_eq!(db.flush(false), Ok(()));
}

#[test]
fn test_unknown_key_error_reports_the_key() {
    let r = mockdb::db::unknown_key_error(b"5/strange");
    assert_eq!(
        r,
        Err(Error::UnknownKey {
            key: b"5/strange".to_vec()
        })
    );
}
