use clipvault::clip::{clipboard_entry_hash, content_key, content_ser};
use clipvault::types::ClipboardContent;

#[test]
fn content_ser_tags_the_variant() {
    let text = ClipboardContent::Text(String::from("1"));
    let image = ClipboardContent::ImageBase64(String::from("1"));
    assert_eq!(content_ser(&text), vec![0u8, b'1']);
    assert_eq!(content_ser(&image), vec![1u8, b'1']);
}

#[test]
fn fingerprint_matches_blake3_of_tagged_bytes() {
    let content = ClipboardContent::Text(String::from("hello"));
    let mut bytes: Vec<u8> = vec![0u8];
    bytes.extend_from_slice(b"hello");
    let expected = blake3::hash(&bytes);
    assert_eq!(&clipboard_entry_hash(&content)[..], expected.as_bytes());
}

#[test]
fn content_key_is_lowercase_hex_of_fingerprint() {
    let content = ClipboardContent::ImageBase64(String::from("aGVsbG8="));
    let mut bytes: Vec<u8> = vec![1u8];
    bytes.extend_from_slice(b"aGVsbG8=");
    let expected = blake3::hash(&bytes).to_hex().to_string();
    let key = content_key(&content);
    assert_eq!(key.len(), 64);
    assert_eq!(key, expected);
    assert!(key.chars().all(|c| c.is_ascii_hexdigit() && !c.is_ascii_uppercase()));
}

#[test]
fn same_payload_different_variant_gets_different_key() {
    let text = ClipboardContent::Text(String::from("payload"));
    let image = ClipboardContent::ImageBase64(String::from("payload"));
    assert_ne!(content_key(&text), content_key(&image));
}

#[test]
fn equal_content_gets_equal_key() {
    let a = ClipboardContent::Text(String::from("dup"));
    let b = ClipboardContent::Text(String::from("dup"));
    assert_eq!(content_key(&a), content_key(&b));
}

#[test]
fn unicode_payload_hashes_over_utf8() {
    let content = ClipboardContent::Text(String::from("héllo ✂"));
    let mut bytes: Vec<u8> = vec![0u8];
    bytes.extend_from_slice("héllo ✂".as_bytes());
    let expected = blake3::hash(&bytes).to_hex().to_string();
    assert_eq!(content_key(&content), expected);
}
