//! The data model: clipboard contents, history entries, the persisted
//! snapshot and its sidecar metadata, and the error taxonomy.

use vstd::prelude::*;

verus! {

/// One distinct piece of clipboard content.  Images arrive already encoded
/// (base64 of their PNG bytes) and are treated as opaque text here; the
/// codec details live outside this library.
#[derive(Debug, Clone, PartialEq, Eq)]
pub enum ClipboardContent {
    Text(String),
    ImageBase64(String),
}

/// One history entry: the content together with the instant (milliseconds
/// since the epoch) at which it was last observed.  Re-observing the same
/// content updates the timestamp, never the content.
#[derive(Debug, Clone, PartialEq, Eq)]
pub struct ClipboardEntry {
    pub ts: u64,
    pub content: ClipboardContent,
}

/// The plaintext payload that is serialized and encrypted as one unit on
/// every save: a format version and the ordered entry list.
#[derive(Debug, Clone, PartialEq, Eq)]
pub struct FileModel {
    pub version: u8,
    pub entries: Vec<ClipboardEntry>,
}

/// The small unencrypted sidecar: it records which nonce-derivation counter
/// the *next* save will use, so that a later unlock knows which nonces to try.
#[derive(Debug, Clone, Copy, PartialEq, Eq, Structural)]
pub struct Meta {
    pub version: u8,
    pub next_counter: u64,
}

/// The error taxonomy of the store.
///
/// - `UnlockFailure`: every candidate nonce failed authenticated decryption;
///   wrong passphrase and corrupted ciphertext are indistinguishable by design.
/// - `IoFailure`: a read, write or rename failed in the surrounding
///   application; the library never performs I/O itself.
/// - `SerializationFailure`: malformed sidecar metadata, or a malformed
///   plaintext model after successful decryption.
/// - `CryptoMisuse`: construction misuse of the cipher (such as a plaintext
///   beyond the cipher's size limit); never expected in normal operation.
#[derive(Debug, Clone, Copy, PartialEq, Eq, Structural)]
pub enum StoreError {
    UnlockFailure,
    IoFailure,
    SerializationFailure,
    CryptoMisuse,
}

/// The outcome of a passphrase prompt: either derived crypto parameters or a
/// cancelled unlock.
#[derive(Debug)]
pub enum UnlockResult {
    Unlocked { key: [u8; 32], nonce: [u8; 24] },
    Cancelled,
}

/// A request delivered by the global-hotkey listener.
#[derive(Debug, Clone)]
pub enum HotkeyMsg {
    ToggleWindow,
}

/// A request delivered by the tray icon.
#[derive(Debug, Clone, Copy, PartialEq, Eq, Structural)]
pub enum TrayEvent {
    OpenRequested,
    QuitRequested,
    NoEvent,
}

/// A parsed command line.
#[derive(Debug, Clone, Copy, PartialEq, Eq, Structural)]
pub enum CliArgs {
    NoArguments,
    Help,
    CleanHistory,
    Unknown,
}

/// User preferences.
#[derive(Debug, Clone, Copy, PartialEq, Eq, Structural)]
pub struct Prefs {
    pub auto_launch: bool,
}

impl Default for Prefs {
    fn default() -> (r: Prefs)
        ensures
            !r.auto_launch,
    {
        Prefs { auto_launch: false }
    }
}

} // verus!
