use mockdb::key::Key;
use mockdb::state::Error;

#[test]
fn test_key_from_segment_rejects_invalid() {
    assert_eq!(Key::from_segment(b"").unwrap_err(), Error::KeyError);
    assert_eq!(Key::from_segment(b"a/b").unwrap_err(), Error::KeyError);
    assert!(Key::from_segment(b"plain").is_ok());
}

#[test]
fn test_key_push_rejects_invalid() {
    let k = Key::from_segment(b"a").expect("valid segment");
    assert_eq!(k.push(b"").unwrap_err(), Error::KeyError);
    assert_eq!(k.push(b"x/y").unwrap_err(), Error::KeyError);
    let k2 = k.push(b"b").expect("valid segment");
    assert_eq!(k2.len(), 2);
}

#[test]
fn test_key_canonical_bytes() {
    let k = Key::from_segment(b"a")
        .expect("valid")
        .push(b"b")
        .expect("valid")
        .push(b"c")
        .expect("valid");
    assert_eq!(k.to_db_bytes(), b"a/b/c".to_vec());
}

#[test]
fn test_key_join_prefixes_namespace() {
    let ns = Key::from_segment(b"ns").expect("valid");
    let k = Key::from_segment(b"x").expect("valid").push(b"y").expect("valid");
    let joined = ns.join(&k);
    assert_eq!(joined.to_db_bytes(), b"ns/x/y".to_vec());
    assert_eq!(joined.len(), 3);
}

#[test]
fn test_distinct_keys_encode_distinctly() {
    let k1 = Key::from_segment(b"ab").expect("valid");
    let k2 = Key::from_segment(b"a").expect("valid").push(b"b").expect("valid");
    assert_ne!(k1.to_db_bytes(), k2.to_db_bytes());
}
