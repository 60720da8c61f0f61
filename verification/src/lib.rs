//! An encrypted, deduplicated clipboard-history store.
//!
//! The library turns a stream of observed clipboard contents into a durable,
//! tamper-evident, passphrase-protected record: key derivation, per-save nonce
//! derivation, authenticated encryption of the serialized history snapshot,
//! content-addressed deduplication, and the sidecar metadata that lets a later
//! unlock find the right nonce again.  All file, clipboard and UI plumbing is
//! left to the surrounding application, which hands the library plain bytes.

pub mod clip;
pub mod codec;
pub mod crypto;
pub mod json;
pub mod parser;
pub mod paths;
pub mod prefs;
pub mod storage;
pub mod types;
