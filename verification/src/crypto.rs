//! Key derivation, per-save nonce derivation, and authenticated encryption.
//!
//! The passphrase is stretched by a memory-hard password hash into 56 bytes:
//! a 256-bit symmetric key and a 192-bit base nonce seed.  Each save then
//! gets its own nonce, a keyed hash of the seed and a monotonic counter, so
//! no two snapshots are ever sealed under the same (key, nonce) pair.  The
//! cipher is an AEAD with a 16-byte postfix tag: decryption fails on any
//! ciphertext that does not authenticate, which is the only signal that
//! distinguishes a wrong passphrase or a corrupted file from a good one.

use vstd::prelude::*;
use argon2::Argon2;
use chacha20poly1305::XChaCha20Poly1305;
use chacha20poly1305::aead::{Aead, KeyInit};
use crate::types::StoreError;

verus! {

/// Plaintexts of this many bytes or more are refused by the cipher (its
/// stream counter would overflow): (2^32 - 1) blocks of 64 bytes.
pub const AEAD_MAX_PLAINTEXT: u64 = 274877906880;

/// What the memory-hard password hash returns for a password and salt, with
/// its default parameters and a 56-byte output; a pure function of its
/// arguments, left uninterpreted here.
pub uninterp spec fn argon2_kdf56(pwd: Seq<u8>, salt: Seq<u8>) -> Seq<u8>;

/// Relies on `argon2::Argon2::hash_password_into` (default Argon2id
/// parameters, 56-byte output): deterministic in the password and salt, and
/// succeeds whenever the password is at most 2^32 - 1 bytes and the salt
/// length lies in [8, 2^32 - 1], which the preconditions guarantee.
#[verifier::external_body]
fn argon2_derive56(pwd: &[u8], salt: &[u8]) -> (r: ([u8; 32], [u8; 24]))
    requires
        pwd@.len() <= 0xFFFF_FFFF,
        8 <= salt@.len() <= 0xFFFF_FFFF,
    ensures
        r.0@ == argon2_kdf56(pwd@, salt@).take(32),
        r.1@ == argon2_kdf56(pwd@, salt@).skip(32),
{
    let mut out = [0u8; 56];
    Argon2::default()
        .hash_password_into(pwd, salt, &mut out)
        .expect("valid salt and output length");
    let mut key = [0u8; 32];
    let mut seed = [0u8; 24];
    key.copy_from_slice(&out[..32]);
    seed.copy_from_slice(&out[32..56]);
    (key, seed)
}

/// The fixed, publicly known password salt embedded in the binary: the bytes
/// of `"saltyMcSaltface"`.  A deliberate trade-off: two installations with
/// the same passphrase derive the same key.
pub open spec fn spec_salt() -> Seq<u8> {
    seq![115u8, 97u8, 108u8, 116u8, 121u8, 77u8, 99u8, 83u8, 97u8, 108u8, 116u8, 102u8, 97u8, 99u8, 101u8]
}

/// Builds the fixed salt.
pub fn fixed_salt() -> (r: Vec<u8>)
    ensures
        r@ == spec_salt(),
{
    let mut v: Vec<u8> = Vec::new();
    v.push(115u8);
    v.push(97u8);
    v.push(108u8);
    v.push(116u8);
    v.push(121u8);
    v.push(77u8);
    v.push(99u8);
    v.push(83u8);
    v.push(97u8);
    v.push(108u8);
    v.push(116u8);
    v.push(102u8);
    v.push(97u8);
    v.push(99u8);
    v.push(101u8);
    proof {
        assert(v@ =~= spec_salt());
    }
    v
}

/// The derived symmetric key of a passphrase.
pub open spec fn spec_derived_key(passphrase: Seq<char>) -> Seq<u8> {
    argon2_kdf56(vstd::utf8::encode_utf8(passphrase), spec_salt()).take(32)
}

/// The derived base nonce seed of a passphrase.
pub open spec fn spec_derived_seed(passphrase: Seq<char>) -> Seq<u8> {
    argon2_kdf56(vstd::utf8::encode_utf8(passphrase), spec_salt()).skip(32)
}

/// Turns a passphrase into the symmetric key (leading 32 bytes) and the base
/// nonce seed (trailing 24 bytes) of the 56-byte password-hash output.  A
/// wrong passphrase deterministically yields a wrong key and seed; that is
/// detected downstream by authenticated-decryption failure, not here.
pub fn derivate_crypto_params(passphrase: String) -> (r: ([u8; 32], [u8; 24]))
    requires
        vstd::utf8::encode_utf8(passphrase@).len() <= 0xFFFF_FFFF,
    ensures
        r.0@ == spec_derived_key(passphrase@),
        r.1@ == spec_derived_seed(passphrase@),
{
    let salt = fixed_salt();
    argon2_derive56(passphrase.as_str().as_bytes(), salt.as_slice())
}

/// Law: key derivation is deterministic — equal passphrases always yield the
/// same key and the same seed.
pub proof fn lemma_derive_deterministic(p1: Seq<char>, p2: Seq<char>)
    requires
        p1 == p2,
    ensures
        spec_derived_key(p1) == spec_derived_key(p2),
        spec_derived_seed(p1) == spec_derived_seed(p2),
{
}

/// The keyed BLAKE3 digest of a message; a pure function of key and message,
/// left uninterpreted here.
pub uninterp spec fn blake3_keyed(key: Seq<u8>, msg: Seq<u8>) -> Seq<u8>;

/// The nonce protecting the save made at a given counter: the leading 24
/// bytes of the keyed digest of seed and little-endian counter.
pub open spec fn spec_save_nonce(key: Seq<u8>, seed: Seq<u8>, counter: u64) -> Seq<u8> {
    blake3_keyed(key, seed + vstd::bytes::spec_u64_to_le_bytes(counter)).take(24)
}

/// Derives the unique per-save nonce from the key, the base nonce seed, and
/// the monotonic save counter.
///
/// Relies on `blake3::Hasher::new_keyed` / `update` / `finalize`: the keyed
/// digest is a pure 32-byte function of the key and the concatenated update
/// bytes alone.
#[verifier::external_body]
pub fn derive_save_nonce(key: &[u8; 32], base_nonce: &[u8; 24], counter: u64) -> (r: [u8; 24])
    ensures
        r@ == blake3_keyed(key@, base_nonce@ + vstd::bytes::spec_u64_to_le_bytes(counter)).take(24),
{
    let mut hasher = blake3::Hasher::new_keyed(key);
    hasher.update(base_nonce);
    hasher.update(&counter.to_le_bytes());
    let out = hasher.finalize();
    let mut nonce = [0u8; 24];
    nonce.copy_from_slice(&out.as_bytes()[..24]);
    nonce
}

/// XChaCha20-Poly1305 sealing: the ciphertext-with-tag as a pure function of
/// key, nonce and plaintext, left uninterpreted here.
pub uninterp spec fn xchacha_seal(key: Seq<u8>, nonce: Seq<u8>, plaintext: Seq<u8>) -> Seq<u8>;

/// Relies on `chacha20poly1305::XChaCha20Poly1305` through `aead::Aead::
/// encrypt`: a deterministic AEAD that appends a 16-byte tag and fails
/// exactly when the plaintext reaches the cipher's size limit.
#[verifier::external_body]
fn aead_encrypt(key: &[u8; 32], nonce: &[u8; 24], plaintext: &[u8]) -> (r: Option<Vec<u8>>)
    ensures
        r is Some <==> plaintext@.len() < AEAD_MAX_PLAINTEXT,
        r is Some ==> r->Some_0@ == xchacha_seal(key@, nonce@, plaintext@)
            && r->Some_0@.len() == plaintext@.len() + 16,
{
    let cipher = XChaCha20Poly1305::new(key.into());
    cipher.encrypt(nonce.into(), plaintext).ok()
}

/// Relies on `chacha20poly1305::XChaCha20Poly1305` through `aead::Aead::
/// decrypt`: it succeeds on every ciphertext sealed under the same key and
/// nonce, returning exactly the sealed plaintext, and whenever it succeeds
/// the ciphertext authenticates, i.e. is the sealing of what it returned.
#[verifier::external_body]
fn aead_decrypt(key: &[u8; 32], nonce: &[u8; 24], ciphertext: &[u8]) -> (r: Option<Vec<u8>>)
    ensures
        r is Some ==> ciphertext@ == xchacha_seal(key@, nonce@, r->Some_0@)
            && r->Some_0@.len() + 16 == ciphertext@.len()
            && r->Some_0@.len() < AEAD_MAX_PLAINTEXT,
        forall|pt: Seq<u8>|
            pt.len() < AEAD_MAX_PLAINTEXT && ciphertext@ == #[trigger] xchacha_seal(key@, nonce@, pt)
                ==> r is Some && r->Some_0@ == pt,
{
    let cipher = XChaCha20Poly1305::new(key.into());
    cipher.decrypt(nonce.into(), ciphertext).ok()
}

/// Authenticated encryption of one snapshot payload.  Fails only on
/// construction misuse: a plaintext at or beyond the cipher's size limit.
pub fn encrypt_data(key: &[u8; 32], nonce: &[u8; 24], plaintext: &Vec<u8>) -> (r: Result<Vec<u8>, StoreError>)
    ensures
        r is Ok <==> plaintext@.len() < AEAD_MAX_PLAINTEXT,
        r is Ok ==> r->Ok_0@ == xchacha_seal(key@, nonce@, plaintext@)
            && r->Ok_0@.len() == plaintext@.len() + 16,
        r is Err ==> r->Err_0 == StoreError::CryptoMisuse,
{
    match aead_encrypt(key, nonce, plaintext.as_slice()) {
        Some(ct) => Ok(ct),
        None => Err(StoreError::CryptoMisuse),
    }
}

/// Authenticated decryption of one snapshot payload.
///
/// Round trip: any ciphertext sealed under this key and nonce decrypts to
/// exactly the sealed plaintext.  Tamper evidence: whenever decryption
/// succeeds, the ciphertext authenticates — it is the sealing of the returned
/// plaintext; anything else is reported as `UnlockFailure`, with no partial
/// or unauthenticated plaintext ever returned.
pub fn decrypt_data(key: &[u8; 32], nonce: &[u8; 24], ciphertext: &Vec<u8>) -> (r: Result<Vec<u8>, StoreError>)
    ensures
        r is Ok ==> ciphertext@ == xchacha_seal(key@, nonce@, r->Ok_0@)
            && r->Ok_0@.len() < AEAD_MAX_PLAINTEXT,
        forall|pt: Seq<u8>|
            pt.len() < AEAD_MAX_PLAINTEXT && ciphertext@ == #[trigger] xchacha_seal(key@, nonce@, pt)
                ==> r is Ok && r->Ok_0@ == pt,
        r is Err ==> r->Err_0 == StoreError::UnlockFailure,
{
    match aead_decrypt(key, nonce, ciphertext.as_slice()) {
        Some(pt) => Ok(pt),
        None => Err(StoreError::UnlockFailure),
    }
}

} // verus!
