use clipvault::codec::{decode_model, encode_model};
use clipvault::types::{ClipboardContent, ClipboardEntry, StoreError};

fn sample_entries() -> Vec<ClipboardEntry> {
    vec![
        ClipboardEntry { ts: 0, content: ClipboardContent::Text(String::from("")) },
        ClipboardEntry { ts: 1700000000123, content: ClipboardContent::Text(String::from("hello")) },
        ClipboardEntry { ts: u64::MAX, content: ClipboardContent::ImageBase64(String::from("aGVsbG8=")) },
        ClipboardEntry { ts: 7, content: ClipboardContent::Text(String::from("héllo ✂ ☃")) },
    ]
}

#[test]
fn empty_model_has_exact_framing() {
    let bytes = encode_model(1, &Vec::new());
    assert_eq!(bytes, vec![1u8, 0, 0, 0, 0, 0, 0, 0, 0]);
}

#[test]
fn single_entry_has_exact_framing() {
    let entries = vec![ClipboardEntry { ts: 2, content: ClipboardContent::Text(String::from("ab")) }];
    let bytes = encode_model(3, &entries);
    let mut expected: Vec<u8> = vec![3u8];
    expected.extend_from_slice(&1u64.to_le_bytes());
    expected.extend_from_slice(&2u64.to_le_bytes());
    expected.push(0u8);
    expected.extend_from_slice(&2u64.to_le_bytes());
    expected.extend_from_slice(b"ab");
    assert_eq!(bytes, expected);
}

#[test]
fn round_trip_preserves_everything() {
    let entries = sample_entries();
    let bytes = encode_model(1, &entries);
    let model = decode_model(&bytes).unwrap();
    assert_eq!(model.version, 1);
    assert_eq!(model.entries, entries);
}

#[test]
fn round_trip_of_empty_model() {
    let bytes = encode_model(1, &Vec::new());
    let model = decode_model(&bytes).unwrap();
    assert_eq!(model.version, 1);
    assert!(model.entries.is_empty());
}

#[test]
fn trailing_garbage_is_rejected() {
    let mut bytes = encode_model(1, &sample_entries());
    bytes.push(0u8);
    assert_eq!(decode_model(&bytes).unwrap_err(), StoreError::SerializationFailure);
}

#[test]
fn truncation_is_rejected() {
    let bytes = encode_model(1, &sample_entries());
    for cut in 0..bytes.len() {
        let prefix: Vec<u8> = bytes[..cut].to_vec();
        assert_eq!(decode_model(&prefix).unwrap_err(), StoreError::SerializationFailure);
    }
}

#[test]
fn unknown_variant_tag_is_rejected() {
    let entries = vec![ClipboardEntry { ts: 1, content: ClipboardContent::Text(String::from("x")) }];
    let mut bytes = encode_model(1, &entries);
    // The tag byte sits after the version, the count and the timestamp.
    let tag_at = 1 + 8 + 8;
    assert_eq!(bytes[tag_at], 0);
    bytes[tag_at] = 2;
    assert_eq!(decode_model(&bytes).unwrap_err(), StoreError::SerializationFailure);
}

#[test]
fn invalid_utf8_payload_is_rejected() {
    let mut bytes: Vec<u8> = vec![1u8];
    bytes.extend_from_slice(&1u64.to_le_bytes());
    bytes.extend_from_slice(&9u64.to_le_bytes());
    bytes.push(0u8);
    bytes.extend_from_slice(&1u64.to_le_bytes());
    bytes.push(0xFF);
    assert_eq!(decode_model(&bytes).unwrap_err(), StoreError::SerializationFailure);
}

#[test]
fn count_beyond_contents_is_rejected() {
    let mut bytes: Vec<u8> = vec![1u8];
    bytes.extend_from_slice(&2u64.to_le_bytes());
    bytes.extend_from_slice(&5u64.to_le_bytes());
    bytes.push(0u8);
    bytes.extend_from_slice(&0u64.to_le_bytes());
    assert_eq!(decode_model(&bytes).unwrap_err(), StoreError::SerializationFailure);
}
