use chacha20poly1305::aead::{Aead, KeyInit};
use clipvault::crypto::{decrypt_data, derivate_crypto_params, derive_save_nonce, encrypt_data};
use clipvault::types::StoreError;
use std::collections::HashSet;

#[test]
fn derive_is_deterministic() {
    let (k1, s1) = derivate_crypto_params(String::from("correct horse battery staple"));
    let (k2, s2) = derivate_crypto_params(String::from("correct horse battery staple"));
    assert_eq!(k1, k2);
    assert_eq!(s1, s2);
}

#[test]
fn derive_differs_per_passphrase() {
    let (k1, s1) = derivate_crypto_params(String::from("alpha"));
    let (k2, s2) = derivate_crypto_params(String::from("beta"));
    assert_ne!(k1, k2);
    assert_ne!(s1, s2);
}

#[test]
fn derive_matches_argon2_directly() {
    // The key and seed must be the leading 32 and trailing 24 bytes of the
    // 56-byte Argon2id output over the fixed salt.
    let mut out = [0u8; 56];
    argon2::Argon2::default()
        .hash_password_into(b"swordfish", b"saltyMcSaltface", &mut out)
        .unwrap();
    let (key, seed) = derivate_crypto_params(String::from("swordfish"));
    assert_eq!(&key[..], &out[..32]);
    assert_eq!(&seed[..], &out[32..56]);
}

#[test]
fn save_nonces_do_not_collide() {
    let key = [7u8; 32];
    let seed = [9u8; 24];
    let mut seen: HashSet<[u8; 24]> = HashSet::new();
    let mut counter: u64 = 0;
    while counter < 2000 {
        let nonce = derive_save_nonce(&key, &seed, counter);
        assert!(seen.insert(nonce), "nonce collision at counter {}", counter);
        counter += 1;
    }
    assert_eq!(seen.len(), 2000);
}

#[test]
fn save_nonce_is_deterministic_and_keyed() {
    let key = [1u8; 32];
    let seed = [2u8; 24];
    assert_eq!(derive_save_nonce(&key, &seed, 5), derive_save_nonce(&key, &seed, 5));
    let other_key = [3u8; 32];
    assert_ne!(derive_save_nonce(&key, &seed, 5), derive_save_nonce(&other_key, &seed, 5));
}

#[test]
fn save_nonce_matches_keyed_blake3() {
    // The nonce must be the leading 24 bytes of the keyed BLAKE3 digest of
    // seed || counter as little-endian bytes.
    let key = [4u8; 32];
    let seed = [5u8; 24];
    let counter: u64 = 77;
    let mut hasher = blake3::Hasher::new_keyed(&key);
    hasher.update(&seed);
    hasher.update(&counter.to_le_bytes());
    let digest = hasher.finalize();
    let nonce = derive_save_nonce(&key, &seed, counter);
    assert_eq!(&nonce[..], &digest.as_bytes()[..24]);
}

#[test]
fn encrypt_decrypt_round_trip() {
    let key = [11u8; 32];
    let nonce = [13u8; 24];
    let msg: Vec<u8> = vec![0, 1, 2, 250, 251, 252, 253, 254, 255, 42];
    let ct = encrypt_data(&key, &nonce, &msg).unwrap();
    assert_eq!(ct.len(), msg.len() + 16);
    let pt = decrypt_data(&key, &nonce, &ct).unwrap();
    assert_eq!(pt, msg);
}

#[test]
fn empty_message_round_trip() {
    let key = [0u8; 32];
    let nonce = [0u8; 24];
    let msg: Vec<u8> = Vec::new();
    let ct = encrypt_data(&key, &nonce, &msg).unwrap();
    assert_eq!(ct.len(), 16);
    let pt = decrypt_data(&key, &nonce, &ct).unwrap();
    assert!(pt.is_empty());
}

#[test]
fn flipping_any_bit_breaks_authentication() {
    let key = [21u8; 32];
    let nonce = [22u8; 24];
    let msg: Vec<u8> = b"attack at dawn".to_vec();
    let ct = encrypt_data(&key, &nonce, &msg).unwrap();
    for byte in 0..ct.len() {
        for bit in 0..8 {
            let mut tampered = ct.clone();
            tampered[byte] ^= 1u8 << bit;
            let r = decrypt_data(&key, &nonce, &tampered);
            assert_eq!(r.unwrap_err(), StoreError::UnlockFailure);
        }
    }
}

#[test]
fn wrong_key_or_nonce_fails() {
    let key = [31u8; 32];
    let nonce = [32u8; 24];
    let msg: Vec<u8> = b"secret".to_vec();
    let ct = encrypt_data(&key, &nonce, &msg).unwrap();
    assert_eq!(decrypt_data(&[30u8; 32], &nonce, &ct).unwrap_err(), StoreError::UnlockFailure);
    assert_eq!(decrypt_data(&key, &[33u8; 24], &ct).unwrap_err(), StoreError::UnlockFailure);
}

#[test]
fn ciphertext_matches_xchacha_directly() {
    let key = [41u8; 32];
    let nonce = [42u8; 24];
    let msg: Vec<u8> = b"cross-check".to_vec();
    let ours = encrypt_data(&key, &nonce, &msg).unwrap();
    let cipher = chacha20poly1305::XChaCha20Poly1305::new((&key).into());
    let theirs = cipher.encrypt((&nonce).into(), msg.as_slice()).unwrap();
    assert_eq!(ours, theirs);
}
