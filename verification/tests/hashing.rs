use cross_platform_clipboard::hashing::{content_hash, image_hash_bytes, to_hex_lower};

#[test]
fn hash_is_deterministic_for_the_same_text() {
    assert_eq!(content_hash(b"bonjour"), content_hash(b"bonjour"));
}

#[test]
fn hash_changes_when_text_changes() {
    assert_ne!(content_hash(b"bonjour"), content_hash(b"au revoir"));
}

#[test]
fn content_hash_is_the_hex_sha256_digest() {
    assert_eq!(
        content_hash(b"abc"),
        "ba7816bf8f01cfea414140de5dae2223b00361a396177a9cb410ff61f20015ad"
    );
    assert_eq!(
        content_hash(b""),
        "e3b0c44298fc1c149afbf4c8996fb92427ae41e4649b934ca495991b7852b855"
    );
}

#[test]
fn content_hash_is_64_lower_hex_digits() {
    let hash = content_hash("adresse à conserver".as_bytes());
    assert_eq!(hash.len(), 64);
    assert!(hash.chars().all(|c| c.is_ascii_digit() || ('a'..='f').contains(&c)));
}

#[test]
fn hex_is_two_lower_digits_per_byte() {
    assert_eq!(to_hex_lower(&[0x00, 0x0f, 0xa0, 0xff]), "000fa0ff");
    assert_eq!(to_hex_lower(&[]), "");
}

#[test]
fn image_hash_input_starts_with_little_endian_sides() {
    assert_eq!(
        image_hash_bytes(&[10, 20, 30, 255], 1, 0x01020304),
        vec![1, 0, 0, 0, 4, 3, 2, 1, 10, 20, 30, 255]
    );
}
