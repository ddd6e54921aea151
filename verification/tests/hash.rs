use cb::fingerprint::{hash_content, side_file_name};

#[test]
fn test_hash_deterministic() {
    let h1 = hash_content(b"hello");
    let h2 = hash_content(b"hello");
    assert_eq!(h1, h2);
}

#[test]
fn test_hash_different_inputs() {
    let h1 = hash_content(b"hello");
    let h2 = hash_content(b"world");
    assert_ne!(h1, h2);
}

#[test]
fn test_hash_is_hex_sha256() {
    let h = hash_content(b"hello");
    assert_eq!(h.len(), 64);
    assert!(h.chars().all(|c| c.is_ascii_hexdigit()));
}

#[test]
fn hash_matches_known_digest() {
    // The SHA-256 digest of "abc", a published test vector.
    assert_eq!(
        hash_content(b"abc"),
        "ba7816bf8f01cfea414140de5dae2223b00361a396177a9cb410ff61f20015ad"
    );
    assert_eq!(
        hash_content(b""),
        "e3b0c44298fc1c149afbf4c8996fb92427ae41e4649b934ca495991b7852b855"
    );
}

#[test]
fn side_file_name_uses_hash_prefix() {
    let h = hash_content(b"hello");
    let name = side_file_name(&h);
    assert_eq!(name.len(), 20);
    assert!(name.ends_with(".png"));
    assert!(h.starts_with(&name[..16]));
}
