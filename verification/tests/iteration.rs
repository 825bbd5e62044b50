use mockdb::db::MockDB;
use mockdb::key::Key;
use mockdb::state::{BlockStateWrite, MerkleTreeStores};

fn drain(mut it: mockdb::iter::MockPrefixIterator) -> Vec<(Vec<u8>, Vec<u8>, u64)> {
    let mut out = Vec::new();
    while let Some(triple) = it.next() {
        out.push(triple);
    }
    out
}

#[test]
fn test_prefix_iteration_is_complete_and_costed() {
    let mut db = MockDB::open("unused");
    let base = Key::from_segment(b"accounts").expect("valid segment");
    let k1 = base.push(b"alice").expect("valid segment");
    let k2 = base.push(b"bob").expect("valid segment");
    let other = Key::from_segment(b"zoo").expect("valid segment");
    db.write_subspace_val(1, &k1, b"100").expect("write");
    db.write_subspace_val(1, &k2, b"7").expect("write");
    db.write_subspace_val(1, &other, b"elephant").expect("write");
    let got = drain(db.iter_prefix(&base));
    // Exactly the two entries under the prefix, in ascending key order,
    // each costed with logical-key bytes plus value bytes.
    assert_eq!(got.len(), 2);
    assert_eq!(got[0].0, b"accounts/alice".to_vec());
    assert_eq!(got[0].1, b"100".to_vec());
    assert_eq!(got[0].2, ("accounts/alice".len() + "100".len()) as u64);
    assert_eq!(got[1].0, b"accounts/bob".to_vec());
    assert_eq!(got[1].1, b"7".to_vec());
    assert_eq!(got[1].2, ("accounts/bob".len() + "7".len()) as u64);
}

#[test]
fn test_prefix_iteration_skips_block_metadata() {
    // A subspace scan must never observe block metadata.
    let mut db = MockDB::open("unused");
    db.write_block(BlockStateWrite {
        merkle_tree_stores: MerkleTreeStores {
            base_root: vec![1],
            base_store: vec![2],
            account_root: vec![3],
            account_store: vec![4],
            ibc_root: vec![5],
            ibc_store: vec![6],
            pos_root: vec![7],
            pos_store: vec![8],
        },
        header: None,
        hash: vec![9],
        height: 5,
        epoch: 1,
        pred_epochs: vec![0],
        next_epoch_min_start_height: 6,
        next_epoch_min_start_time: 0,
        address_gen: 0,
        results: vec![0],
    })
    .expect("write_block");
    let key = Key::from_segment(b"app").expect("valid segment");
    db.write_subspace_val(5, &key, b"v").expect("write");
    let got = drain(db.iter_prefix(&key));
    assert_eq!(got.len(), 1);
    assert_eq!(got[0].0, b"app".to_vec());
}

#[test]
fn test_prefix_iteration_empty_prefix_yields_nothing_for_absent() {
    let mut db = MockDB::open("unused");
    let key = Key::from_segment(b"present").expect("valid segment");
    db.write_subspace_val(1, &key, b"v").expect("write");
    let absent = Key::from_segment(b"missing").expect("valid segment");
    let got = drain(db.iter_prefix(&absent));
    assert!(got.is_empty());
}

#[test]
fn test_prefix_iteration_is_restartable() {
    let mut db = MockDB::open("unused");
    let key = Key::from_segment(b"k").expect("valid segment");
    db.write_subspace_val(1, &key, b"v").expect("write");
    let first = drain(db.iter_prefix(&key));
    let second = drain(db.iter_prefix(&key));
    assert_eq!(first, second);
    assert_eq!(first.len(), 1);
}

#[test]
fn test_results_iteration_yields_raw_encoded_results() {
    let mut db = MockDB::open("unused");
    db.write_block(BlockStateWrite {
        merkle_tree_stores: MerkleTreeStores {
            base_root: vec![1],
            base_store: vec![2],
            account_root: vec![3],
            account_store: vec![4],
            ibc_root: vec![5],
            ibc_store: vec![6],
            pos_root: vec![7],
            pos_store: vec![8],
        },
        header: None,
        hash: vec![9],
        height: 5,
        epoch: 1,
        pred_epochs: vec![0],
        next_epoch_min_start_height: 6,
        next_epoch_min_start_time: 0,
        address_gen: 0,
        results: vec![1, 2, 3],
    })
    .expect("write_block");
    let got = drain(db.iter_results());
    assert_eq!(got.len(), 1);
    // The logical key is the height with the namespace stripped.
    assert_eq!(got[0].0, b"5".to_vec());
    // The value is the stored encoding: a 4-byte little-endian length
    // prefix followed by the results bytes.
    assert_eq!(got[0].1, vec![3, 0, 0, 0, 1, 2, 3]);
    assert_eq!(got[0].2, (1 + 7) as u64);
}
