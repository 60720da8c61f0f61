use clipvault::crypto::derivate_crypto_params;
use clipvault::json::{parse_meta, render_meta};
use clipvault::storage::Store;
use clipvault::types::{ClipboardContent, Meta, StoreError};

fn text(s: &str) -> ClipboardContent {
    ClipboardContent::Text(String::from(s))
}

fn open_fresh(pass: &str) -> (Store, Vec<u8>) {
    let (key, seed) = derivate_crypto_params(String::from(pass));
    Store::open_or_create(key, seed, None, None).unwrap()
}

/// Runs the full save protocol as the surrounding application would:
/// snapshot, pretend the rename happened, commit.  Returns the ciphertext
/// now "on disk" and the new sidecar bytes.
fn full_save(store: &mut Store) -> (Vec<u8>, Vec<u8>) {
    let ct = store.save_snapshot().unwrap().expect("dirty store must produce a snapshot");
    let meta = store.commit_save();
    (ct, meta)
}

#[test]
fn fresh_store_is_empty_with_counter_one() {
    let (store, meta) = open_fresh("pw");
    assert!(store.entries().is_empty());
    assert_eq!(parse_meta(&meta).unwrap(), Meta { version: 1, next_counter: 1 });
    assert!(!store.autosave_due());
}

#[test]
fn put_same_content_twice_keeps_one_entry_with_second_timestamp() {
    let (mut store, _) = open_fresh("pw");
    store.put(100, text("clip"));
    store.put(200, text("clip"));
    let entries = store.entries();
    assert_eq!(entries.len(), 1);
    assert_eq!(entries[0].ts, 200);
    assert_eq!(entries[0].content, text("clip"));
}

#[test]
fn touch_moves_entry_to_most_recent_position() {
    let (mut store, _) = open_fresh("pw");
    store.put(1, text("a"));
    store.put(2, text("b"));
    store.put(3, text("c"));
    store.put(4, text("a"));
    let entries = store.entries();
    assert_eq!(entries.len(), 3);
    assert_eq!(entries[0].content, text("b"));
    assert_eq!(entries[1].content, text("c"));
    assert_eq!(entries[2].content, text("a"));
    assert_eq!(entries[2].ts, 4);
}

#[test]
fn distinct_variants_do_not_dedup() {
    let (mut store, _) = open_fresh("pw");
    store.put(1, text("same"));
    store.put(2, ClipboardContent::ImageBase64(String::from("same")));
    assert_eq!(store.entries().len(), 2);
}

#[test]
fn clear_empties_the_history() {
    let (mut store, _) = open_fresh("pw");
    store.put(1, text("a"));
    store.put(2, text("b"));
    store.clear();
    assert!(store.entries().is_empty());
    let (ct, meta) = full_save(&mut store);
    let (key, seed) = derivate_crypto_params(String::from("pw"));
    let (reopened, _) = Store::open_or_create(key, seed, Some(&meta), Some(&ct)).unwrap();
    assert!(reopened.entries().is_empty());
}

#[test]
fn autosave_due_after_threshold_operations() {
    let (mut store, _) = open_fresh("pw");
    let mut i = 0u64;
    while i < 9 {
        store.put(i, text(&format!("c{}", i)));
        assert!(!store.autosave_due(), "due too early at {}", i);
        i += 1;
    }
    store.put(9, text("c9"));
    assert!(store.autosave_due());
    let _ = full_save(&mut store);
    assert!(!store.autosave_due());
}

#[test]
fn save_is_a_no_op_when_clean() {
    let (mut store, _) = open_fresh("pw");
    assert!(store.save_snapshot().unwrap().is_none());
    store.put(1, text("x"));
    let _ = full_save(&mut store);
    assert!(store.save_snapshot().unwrap().is_none());
}

#[test]
fn end_to_end_save_and_reopen() {
    let (key, seed) = derivate_crypto_params(String::from("opensesame"));
    let (mut store, _meta0) = Store::open_or_create(key, seed, None, None).unwrap();
    store.put(42, text("hello"));
    let (ct, meta) = full_save(&mut store);
    assert_eq!(parse_meta(&meta).unwrap(), Meta { version: 1, next_counter: 2 });

    let (key2, seed2) = derivate_crypto_params(String::from("opensesame"));
    let (reopened, meta_again) = Store::open_or_create(key2, seed2, Some(&meta), Some(&ct)).unwrap();
    let entries = reopened.entries();
    assert_eq!(entries.len(), 1);
    assert_eq!(entries[0].ts, 42);
    assert_eq!(entries[0].content, text("hello"));
    assert_eq!(parse_meta(&meta_again).unwrap(), Meta { version: 1, next_counter: 2 });
}

#[test]
fn wrong_passphrase_is_unlock_failure() {
    let (key, seed) = derivate_crypto_params(String::from("right"));
    let (mut store, _) = Store::open_or_create(key, seed, None, None).unwrap();
    store.put(1, text("secret"));
    let (ct, meta) = full_save(&mut store);

    let (bad_key, bad_seed) = derivate_crypto_params(String::from("wrong"));
    let err = match Store::open_or_create(bad_key, bad_seed, Some(&meta), Some(&ct)) {
        Err(e) => e,
        Ok(_) => panic!("unlock with the wrong passphrase must fail"),
    };
    assert_eq!(err, StoreError::UnlockFailure);
}

#[test]
fn crash_between_rename_and_sidecar_update_is_recovered() {
    // First, one fully committed save so a real sidecar exists.
    let (key, seed) = derivate_crypto_params(String::from("pw"));
    let (mut store, _) = Store::open_or_create(key, seed, None, None).unwrap();
    store.put(1, text("old"));
    let (_ct1, meta1) = full_save(&mut store);

    // Second save: the ciphertext replaces the file, then the crash comes
    // before commit_save's sidecar reaches the disk.
    store.put(2, text("new"));
    let ct2 = store.save_snapshot().unwrap().unwrap();

    // On disk now: ct2 (sealed under counter 2), but the sidecar still says
    // next_counter = 2, pointing one past nothing.  The second candidate
    // must recover it.
    assert_eq!(parse_meta(&meta1).unwrap(), Meta { version: 1, next_counter: 2 });
    let (reopened, _) = Store::open_or_create(key, seed, Some(&meta1), Some(&ct2)).unwrap();
    let entries = reopened.entries();
    assert_eq!(entries.len(), 2);
    assert_eq!(entries[1].content, text("new"));
}

#[test]
fn crash_before_rename_keeps_previous_snapshot_readable() {
    // The converse window: the sidecar from the last committed save, and
    // the old ciphertext still in place (the new one never made it).
    let (key, seed) = derivate_crypto_params(String::from("pw"));
    let (mut store, _) = Store::open_or_create(key, seed, None, None).unwrap();
    store.put(1, text("kept"));
    let (ct1, meta1) = full_save(&mut store);

    store.put(2, text("lost"));
    let _ct2_never_written = store.save_snapshot().unwrap().unwrap();

    let (reopened, _) = Store::open_or_create(key, seed, Some(&meta1), Some(&ct1)).unwrap();
    let entries = reopened.entries();
    assert_eq!(entries.len(), 1);
    assert_eq!(entries[0].content, text("kept"));
}

#[test]
fn tampered_snapshot_is_unlock_failure() {
    let (key, seed) = derivate_crypto_params(String::from("pw"));
    let (mut store, _) = Store::open_or_create(key, seed, None, None).unwrap();
    store.put(1, text("data"));
    let (mut ct, meta) = full_save(&mut store);
    ct[0] ^= 0x01;
    let err = match Store::open_or_create(key, seed, Some(&meta), Some(&ct)) {
        Err(e) => e,
        Ok(_) => panic!("a tampered snapshot must not unlock"),
    };
    assert_eq!(err, StoreError::UnlockFailure);
}

#[test]
fn malformed_sidecar_is_serialization_failure() {
    let (key, seed) = derivate_crypto_params(String::from("pw"));
    let bad = b"{\"version\":1,\"next_counter\":oops}".to_vec();
    let ct: Vec<u8> = vec![0u8; 32];
    let err = match Store::open_or_create(key, seed, Some(&bad), Some(&ct)) {
        Err(e) => e,
        Ok(_) => panic!("a malformed sidecar must be rejected"),
    };
    assert_eq!(err, StoreError::SerializationFailure);
}

#[test]
fn zero_counter_sidecar_yields_empty_store() {
    let (key, seed) = derivate_crypto_params(String::from("pw"));
    let meta = render_meta(&Meta { version: 1, next_counter: 0 });
    let ct: Vec<u8> = vec![0u8; 32];
    let (store, meta_out) = Store::open_or_create(key, seed, Some(&meta), Some(&ct)).unwrap();
    assert!(store.entries().is_empty());
    assert_eq!(parse_meta(&meta_out).unwrap(), Meta { version: 1, next_counter: 0 });
}

#[test]
fn counters_advance_by_one_per_save() {
    let (key, seed) = derivate_crypto_params(String::from("pw"));
    let (mut store, _) = Store::open_or_create(key, seed, None, None).unwrap();
    store.put(1, text("a"));
    let (_, m1) = full_save(&mut store);
    store.put(2, text("b"));
    let (_, m2) = full_save(&mut store);
    store.put(3, text("c"));
    let (_, m3) = full_save(&mut store);
    assert_eq!(parse_meta(&m1).unwrap().next_counter, 2);
    assert_eq!(parse_meta(&m2).unwrap().next_counter, 3);
    assert_eq!(parse_meta(&m3).unwrap().next_counter, 4);
}

#[test]
fn snapshots_under_different_counters_differ() {
    // The same entries saved at different counters must yield different
    // ciphertexts: each save gets its own nonce.
    let (key, seed) = derivate_crypto_params(String::from("pw"));
    let (mut store, _) = Store::open_or_create(key, seed, None, None).unwrap();
    store.put(1, text("same state"));
    let (ct1, _) = full_save(&mut store);
    store.put(1, text("same state"));
    let (ct2, _) = full_save(&mut store);
    assert_ne!(ct1, ct2);
}
