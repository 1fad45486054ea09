use wunderdrive::hash::{from_hex, hash_bytes, to_hex, ContentHasher};

#[test]
fn hex_roundtrip() {
    let d = hash_bytes(b"hello world");
    let s = to_hex(&d);
    assert_eq!(from_hex(&s), Some(d));
}

#[test]
fn blake3_of_known_input() {
    let d = hash_bytes(b"hello world");
    assert_eq!(to_hex(&d), "d74981efa70a0c880b8d8c1985d075dbcbf679b99a5f9914e5aaf96b831a9e24");
    assert_ne!(hash_bytes(b"hello world"), hash_bytes(b"hello worle"));
}

#[test]
fn to_hex_is_lowercase_pairs() {
    let mut d = [0u8; 32];
    d[0] = 0xab;
    d[31] = 0x0f;
    let s = to_hex(&d);
    assert_eq!(s.len(), 64);
    assert!(s.starts_with("ab00"));
    assert!(s.ends_with("0f"));
}

#[test]
fn from_hex_rejects_bad_input() {
    assert_eq!(from_hex("abc"), None);
    let upper = "AB".repeat(32);
    assert_eq!(from_hex(&upper), None);
    let bad = "zz".repeat(32);
    assert_eq!(from_hex(&bad), None);
    let ok = "01".repeat(32);
    assert_eq!(from_hex(&ok), Some([1u8; 32]));
}

#[test]
fn incremental_hash_matches_whole() {
    let mut h = ContentHasher::new();
    h.update(b"hello ");
    h.update(b"");
    h.update(b"world");
    assert_eq!(h.finalize(), hash_bytes(b"hello world"));
    assert_eq!(ContentHasher::new().finalize(), hash_bytes(b""));
}

#[test]
fn canonical_hex_decodes_back_to_itself() {
    let s = "00ff10".repeat(10) + "abcd";
    let d = from_hex(&s).unwrap();
    assert_eq!(to_hex(&d), s);
}
