//! The encrypted, deduplicated history store.
//!
//! The store owns the symmetric key, the base nonce seed, the ordered entry
//! list, the save counter and the dirty state.  Entries are kept in
//! insertion/touch order — the most recently put-or-touched entry is last —
//! and deduplicated by content fingerprint: re-observing known content moves
//! its entry to the most-recent position and refreshes the timestamp.
//!
//! All file I/O stays with the caller.  A save is a three-step protocol:
//! `save_snapshot` seals the current entries under the nonce of the current
//! counter; the caller writes the ciphertext to a temporary path and
//! atomically renames it over the history path; only then does
//! `commit_save` advance the counter and hand back the new sidecar bytes to
//! persist.  Because the ciphertext becomes visible before the counter
//! advances, a crash between the two steps leaves the sidecar pointing one
//! past the snapshot on disk — exactly the window `open_or_create` tolerates
//! by trying the counter before the recorded one first and the recorded one
//! second.

use vstd::prelude::*;
use crate::types::{ClipboardContent, ClipboardEntry, Meta, StoreError};
use crate::clip::{clipboard_entry_hash, spec_content_digest};
use crate::codec::{
    decode_model, encode_model, spec_dec_model, spec_enc_model, spec_enc_model_m,
    spec_entries_bounded, spec_entries_model, spec_entry_model, lemma_dec_of_enc_model,
    lemma_enc_of_dec_model,
};
use crate::crypto::{
    AEAD_MAX_PLAINTEXT, decrypt_data, derive_save_nonce, encrypt_data, spec_save_nonce,
    xchacha_seal,
};
use crate::json::{parse_meta, render_meta, spec_meta_json, spec_parse_meta};

verus! {

/// A save is triggered once this many operations have accumulated.
pub const AUTOSAVE_OPS_THRESHOLD: usize = 10;

/// The deduplication identity of an entry: its content fingerprint.
pub open spec fn spec_entry_key(e: ClipboardEntry) -> Seq<u8> {
    spec_content_digest(e.content)
}

/// The dedup invariant: no two entries share a content fingerprint.
pub open spec fn spec_distinct_keys(es: Seq<ClipboardEntry>) -> bool {
    forall|i: int, j: int|
        0 <= i < j < es.len() ==> spec_entry_key(#[trigger] es[i]) != spec_entry_key(#[trigger] es[j])
}

/// Does some entry carry this fingerprint?
pub open spec fn spec_has_key(es: Seq<ClipboardEntry>, key: Seq<u8>) -> bool {
    exists|i: int| 0 <= i < es.len() && spec_entry_key(#[trigger] es[i]) == key
}

/// The first index carrying this fingerprint.
pub open spec fn spec_key_index(es: Seq<ClipboardEntry>, key: Seq<u8>) -> int
    decreases es.len(),
{
    if es.len() == 0 {
        0
    } else if spec_entry_key(es[0]) == key {
        0
    } else {
        1 + spec_key_index(es.drop_first(), key)
    }
}

proof fn lemma_key_index_first(es: Seq<ClipboardEntry>, key: Seq<u8>, i: int)
    requires
        0 <= i < es.len(),
        spec_entry_key(es[i]) == key,
        forall|j: int| 0 <= j < i ==> spec_entry_key(#[trigger] es[j]) != key,
    ensures
        spec_key_index(es, key) == i,
    decreases es.len(),
{
    if i > 0 {
        let rest = es.drop_first();
        assert(forall|j: int| 0 <= j < i - 1 ==> rest[j] == #[trigger] es[j + 1]);
        assert(rest[i - 1] == es[i]);
        lemma_key_index_first(rest, key, i - 1);
    }
}

/// What `put` does to the entry sequence: a touch moves the matching entry
/// to the most-recent position with a fresh timestamp; new content is
/// appended.
pub open spec fn spec_put(es: Seq<ClipboardEntry>, ts: u64, content: ClipboardContent) -> Seq<ClipboardEntry> {
    if spec_has_key(es, spec_content_digest(content)) {
        let i = spec_key_index(es, spec_content_digest(content));
        es.remove(i).push(ClipboardEntry { ts, content: es[i].content })
    } else {
        es.push(ClipboardEntry { ts, content })
    }
}

/// Everything `put` guarantees about the resulting sequence, provided the
/// dedup invariant held before.
pub proof fn lemma_put_props(es: Seq<ClipboardEntry>, ts: u64, content: ClipboardContent)
    requires
        spec_distinct_keys(es),
    ensures
        ({
            let es2 = spec_put(es, ts, content);
            &&& spec_distinct_keys(es2)
            &&& es2.len() == if spec_has_key(es, spec_content_digest(content)) {
                es.len()
            } else {
                es.len() + 1
            }
            &&& es2.len() >= 1
            &&& es2.last().ts == ts
            &&& spec_entry_key(es2.last()) == spec_content_digest(content)
            &&& forall|i: int|
                0 <= i < es2.len() - 1 ==> spec_entry_key(#[trigger] es2[i]) != spec_content_digest(content)
        }),
{
    let key = spec_content_digest(content);
    let es2 = spec_put(es, ts, content);
    if spec_has_key(es, key) {
        let i = choose|i: int| 0 <= i < es.len() && spec_entry_key(#[trigger] es[i]) == key;
        assert(forall|j: int| 0 <= j < i ==> spec_entry_key(#[trigger] es[j]) != key);
        lemma_key_index_first(es, key, i);
        let removed = es.remove(i);
        assert(removed.len() == es.len() - 1);
        assert(forall|j: int| 0 <= j < i ==> removed[j] == #[trigger] es[j]);
        assert(forall|j: int| i <= j < removed.len() ==> removed[j] == #[trigger] es[j + 1]);
        assert(spec_entry_key(es2.last()) == spec_entry_key(es[i]));
        assert(forall|a: int| 0 <= a < removed.len() ==> spec_entry_key(#[trigger] removed[a]) != key);
        assert(forall|a: int, b: int|
            0 <= a < b < removed.len() ==> spec_entry_key(#[trigger] removed[a]) != spec_entry_key(
                #[trigger] removed[b],
            ));
        assert(forall|a: int| 0 <= a < es2.len() - 1 ==> es2[a] == #[trigger] removed[a]);
    } else {
        assert(forall|a: int| 0 <= a < es.len() ==> spec_entry_key(#[trigger] es[a]) != key);
        assert(forall|a: int| 0 <= a < es2.len() - 1 ==> es2[a] == #[trigger] es[a]);
    }
}

/// Law: putting the same content twice, at t1 then t2, leaves exactly one
/// entry carrying that content's fingerprint; it sits in the most-recent
/// position and bears the second timestamp, and the history grew by at most
/// one entry.
pub proof fn lemma_put_dedup(es: Seq<ClipboardEntry>, t1: u64, t2: u64, content: ClipboardContent)
    requires
        spec_distinct_keys(es),
    ensures
        ({
            let es2 = spec_put(spec_put(es, t1, content), t2, content);
            &&& spec_distinct_keys(es2)
            &&& es2.len() <= es.len() + 1
            &&& es2.len() >= 1
            &&& es2.last().ts == t2
            &&& spec_entry_key(es2.last()) == spec_content_digest(content)
            &&& forall|i: int|
                0 <= i < es2.len() - 1 ==> spec_entry_key(#[trigger] es2[i]) != spec_content_digest(content)
        }),
{
    lemma_put_props(es, t1, content);
    let es1 = spec_put(es, t1, content);
    lemma_put_props(es1, t2, content);
    assert(spec_has_key(es1, spec_content_digest(content))) by {
        assert(spec_entry_key(es1[es1.len() - 1]) == spec_content_digest(content));
    }
}

/// Two digests are equal exactly when their bytes are.
fn eq_digest(a: &[u8; 32], b: &[u8; 32]) -> (r: bool)
    ensures
        r == (a@ == b@),
{
    let mut i: usize = 0;
    while i < 32
        invariant
            i <= 32,
            forall|k: int| 0 <= k < i ==> a@[k] == #[trigger] b@[k],
        decreases 32 - i,
    {
        if a[i] != b[i] {
            return false;
        }
        i = i + 1;
    }
    proof {
        assert(a@ =~= b@);
    }
    true
}

/// Checks the dedup invariant of a freshly loaded entry list.
fn check_distinct(entries: &Vec<ClipboardEntry>) -> (r: bool)
    ensures
        r == spec_distinct_keys(entries@),
{
    let n = entries.len();
    let mut i: usize = 0;
    while i < n
        invariant
            i <= n,
            n == entries@.len(),
            forall|a: int, b: int|
                0 <= a < b < n && a < i ==> spec_entry_key(#[trigger] entries@[a]) != spec_entry_key(
                    #[trigger] entries@[b],
                ),
        decreases n - i,
    {
        let di = clipboard_entry_hash(&entries[i].content);
        let mut j: usize = i + 1;
        while j < n
            invariant
                i < j <= n,
                n == entries@.len(),
                di@ == spec_entry_key(entries@[i as int]),
                forall|b: int| i < b < j ==> spec_entry_key(entries@[i as int]) != spec_entry_key(
                    #[trigger] entries@[b],
                ),
            decreases n - j,
        {
            let dj = clipboard_entry_hash(&entries[j].content);
            if eq_digest(&di, &dj) {
                return false;
            }
            j = j + 1;
        }
        i = i + 1;
    }
    true
}

/// The stateful aggregate: key material, the ordered deduplicated entry
/// list, and the persistence state.
pub struct Store {
    key: [u8; 32],
    base_nonce: [u8; 24],
    entries: Vec<ClipboardEntry>,
    next_counter: u64,
    ops_since_save: usize,
    dirty: bool,
}

impl Store {
    /// The ordered history, oldest first; the most recently put-or-touched
    /// entry is last.
    pub closed spec fn history(self) -> Seq<ClipboardEntry> {
        self.entries@
    }

    /// The symmetric key.
    pub closed spec fn crypto_key(self) -> Seq<u8> {
        self.key@
    }

    /// The base nonce seed.
    pub closed spec fn nonce_seed(self) -> Seq<u8> {
        self.base_nonce@
    }

    /// The counter whose nonce will protect the *next* save.
    pub closed spec fn save_counter(self) -> u64 {
        self.next_counter
    }

    /// Operations accumulated since the last save.
    pub closed spec fn pending_ops(self) -> usize {
        self.ops_since_save
    }

    /// Is there unsaved state?
    pub closed spec fn is_dirty(self) -> bool {
        self.dirty
    }

    /// The store invariant: the entry list is deduplicated.
    pub open spec fn wf(self) -> bool {
        spec_distinct_keys(self.history())
    }

    /// The ordered entry list; consumers read it in reverse for
    /// most-recent-first display.
    pub fn entries(&self) -> (r: &Vec<ClipboardEntry>)
        ensures
            r@ == self.history(),
    {
        &self.entries
    }

    /// The first entry position carrying this digest, if any.
    fn find_index(&self, digest: &[u8; 32]) -> (r: Option<usize>)
        ensures
            r is Some ==> r->Some_0 < self.history().len()
                && spec_entry_key(self.history()[r->Some_0 as int]) == digest@
                && r->Some_0 == spec_key_index(self.history(), digest@)
                && spec_has_key(self.history(), digest@),
            r is None ==> !spec_has_key(self.history(), digest@),
    {
        let n = self.entries.len();
        let mut i: usize = 0;
        while i < n
            invariant
                i <= n,
                n == self.entries@.len(),
                forall|j: int| 0 <= j < i ==> spec_entry_key(#[trigger] self.entries@[j]) != digest@,
            decreases n - i,
        {
            let d = clipboard_entry_hash(&self.entries[i].content);
            if eq_digest(&d, digest) {
                proof {
                    lemma_key_index_first(self.entries@, digest@, i as int);
                }
                return Some(i);
            }
            i = i + 1;
        }
        None
    }

    fn mark_dirty(&mut self)
        ensures
            final(self).entries == old(self).entries,
            final(self).key == old(self).key,
            final(self).base_nonce == old(self).base_nonce,
            final(self).next_counter == old(self).next_counter,
            final(self).dirty,
            final(self).ops_since_save == if old(self).ops_since_save == usize::MAX {
                usize::MAX
            } else {
                (old(self).ops_since_save + 1) as usize
            },
    {
        self.dirty = true;
        if self.ops_since_save < usize::MAX {
            self.ops_since_save = self.ops_since_save + 1;
        }
    }

    /// Records one observed clipboard content.  Known content (by
    /// fingerprint) is touched: moved to the most-recent position with the
    /// new timestamp, never duplicated.  New content is appended.  Either
    /// way the store becomes dirty and one operation accumulates.
    pub fn put(&mut self, ts: u64, content: ClipboardContent)
        ensures
            final(self).history() == spec_put(old(self).history(), ts, content),
            old(self).wf() ==> final(self).wf(),
            final(self).is_dirty(),
            final(self).crypto_key() == old(self).crypto_key(),
            final(self).nonce_seed() == old(self).nonce_seed(),
            final(self).save_counter() == old(self).save_counter(),
            final(self).pending_ops() == if old(self).pending_ops() == usize::MAX {
                usize::MAX
            } else {
                (old(self).pending_ops() + 1) as usize
            },
    {
        let digest = clipboard_entry_hash(&content);
        match self.find_index(&digest) {
            Some(i) => {
                let e = self.entries.remove(i);
                self.entries.push(ClipboardEntry { ts, content: e.content });
            },
            None => {
                self.entries.push(ClipboardEntry { ts, content });
            },
        }
        self.mark_dirty();
        proof {
            if old(self).wf() {
                lemma_put_props(old(self).history(), ts, content);
            }
        }
    }

    /// Empties the history.  The on-disk file is not touched here; the next
    /// save overwrites it with an empty snapshot.
    pub fn clear(&mut self)
        ensures
            final(self).history().len() == 0,
            final(self).wf(),
            final(self).is_dirty(),
            final(self).crypto_key() == old(self).crypto_key(),
            final(self).nonce_seed() == old(self).nonce_seed(),
            final(self).save_counter() == old(self).save_counter(),
            final(self).pending_ops() == if old(self).pending_ops() == usize::MAX {
                usize::MAX
            } else {
                (old(self).pending_ops() + 1) as usize
            },
    {
        self.entries.clear();
        self.mark_dirty();
    }

    /// Should the caller run a save cycle now?
    pub fn autosave_due(&self) -> (r: bool)
        ensures
            r == (self.is_dirty() && self.pending_ops() >= AUTOSAVE_OPS_THRESHOLD),
    {
        self.dirty && self.ops_since_save >= AUTOSAVE_OPS_THRESHOLD
    }

    /// Seals the current history under the nonce of the current save
    /// counter.  Returns `Ok(None)` when there is nothing to save, the
    /// ciphertext to write otherwise.  Fails only on cipher misuse: a
    /// framed snapshot at or beyond the cipher's size limit.
    pub fn save_snapshot(&self) -> (r: Result<Option<Vec<u8>>, StoreError>)
        ensures
            !self.is_dirty() ==> r is Ok && r->Ok_0 is None,
            r is Ok && r->Ok_0 is None ==> !self.is_dirty(),
            self.is_dirty() && spec_enc_model(1, self.history()).len() < AEAD_MAX_PLAINTEXT
                ==> r is Ok && r->Ok_0 is Some,
            r is Ok && r->Ok_0 is Some ==> self.is_dirty()
                && spec_enc_model(1, self.history()).len() < AEAD_MAX_PLAINTEXT
                && spec_entries_bounded(self.history())
                && r->Ok_0->Some_0@ == xchacha_seal(
                    self.crypto_key(),
                    spec_save_nonce(self.crypto_key(), self.nonce_seed(), self.save_counter()),
                    spec_enc_model(1, self.history()),
                )
                && (self.wf() ==> spec_sealed_under(
                    self.crypto_key(),
                    self.nonce_seed(),
                    self.save_counter(),
                    r->Ok_0->Some_0@,
                    self.history(),
                )),
            r is Err ==> r->Err_0 == StoreError::CryptoMisuse && self.is_dirty()
                && spec_enc_model(1, self.history()).len() >= AEAD_MAX_PLAINTEXT,
    {
        if !self.dirty {
            return Ok(None);
        }
        let pt = encode_model(1, &self.entries);
        let nonce = derive_save_nonce(&self.key, &self.base_nonce, self.next_counter);
        match encrypt_data(&self.key, &nonce, &pt) {
            Ok(ct) => Ok(Some(ct)),
            Err(e) => Err(e),
        }
    }

    /// To be called only after the sealed snapshot has durably replaced the
    /// history file: advances the save counter, clears the dirty state, and
    /// returns the new sidecar bytes, which the caller persists.  The
    /// counter moves strictly forward (saturating), so no counter value is
    /// ever reused for a different ciphertext under the same key.
    pub fn commit_save(&mut self) -> (r: Vec<u8>)
        ensures
            final(self).history() == old(self).history(),
            final(self).crypto_key() == old(self).crypto_key(),
            final(self).nonce_seed() == old(self).nonce_seed(),
            final(self).save_counter() == if old(self).save_counter() == u64::MAX {
                u64::MAX
            } else {
                (old(self).save_counter() + 1) as u64
            },
            !final(self).is_dirty(),
            final(self).pending_ops() == 0,
            old(self).wf() ==> final(self).wf(),
            r@ == spec_meta_json(1, final(self).save_counter()),
    {
        if self.next_counter < u64::MAX {
            self.next_counter = self.next_counter + 1;
        }
        self.dirty = false;
        self.ops_since_save = 0;
        render_meta(&Meta { version: 1, next_counter: self.next_counter })
    }
}

/// The bytes behind an optional buffer.
pub open spec fn spec_opt_bytes(o: Option<&Vec<u8>>) -> Option<Seq<u8>> {
    match o {
        Some(b) => Some(b@),
        None => None,
    }
}

/// The metadata that governs an unlock: the defaults when no sidecar
/// exists, its parse otherwise.
pub open spec fn spec_effective_meta(meta_bytes: Option<Seq<u8>>) -> Option<Meta> {
    match meta_bytes {
        None => Some(Meta { version: 1, next_counter: 1 }),
        Some(b) => spec_parse_meta(b),
    }
}

/// The recorded next-save counter that governs an unlock.
pub open spec fn spec_meta_counter(meta_bytes: Option<&Vec<u8>>) -> u64 {
    spec_effective_meta(spec_opt_bytes(meta_bytes))->Some_0.next_counter
}

/// The snapshot is the sealed framing of `es` under the nonce of save
/// counter `c`: exactly what a completed save at that counter writes.
pub open spec fn spec_sealed_under(
    key: Seq<u8>,
    seed: Seq<u8>,
    c: u64,
    ct: Seq<u8>,
    es: Seq<ClipboardEntry>,
) -> bool {
    &&& spec_entries_bounded(es)
    &&& spec_distinct_keys(es)
    &&& spec_enc_model(1, es).len() < AEAD_MAX_PLAINTEXT
    &&& ct == xchacha_seal(key, spec_save_nonce(key, seed, c), spec_enc_model(1, es))
}

/// No plaintext the cipher accepts authenticates under the nonce of save
/// counter `c`.
pub open spec fn spec_no_seal_under(key: Seq<u8>, seed: Seq<u8>, c: u64, ct: Seq<u8>) -> bool {
    forall|pt: Seq<u8>|
        pt.len() < AEAD_MAX_PLAINTEXT ==> ct != #[trigger] xchacha_seal(
            key,
            spec_save_nonce(key, seed, c),
            pt,
        )
}

proof fn lemma_key_of_model(e1: ClipboardEntry, e2: ClipboardEntry)
    requires
        spec_entry_model(e1) == spec_entry_model(e2),
    ensures
        spec_entry_key(e1) == spec_entry_key(e2),
{
}

proof fn lemma_distinct_from_models(es1: Seq<ClipboardEntry>, es2: Seq<ClipboardEntry>)
    requires
        spec_entries_model(es1) == spec_entries_model(es2),
        spec_distinct_keys(es2),
    ensures
        spec_distinct_keys(es1),
{
    assert(es1.len() == es2.len()) by {
        assert(spec_entries_model(es1).len() == es1.len());
        assert(spec_entries_model(es2).len() == es2.len());
    }
    assert forall|i: int, j: int|
        0 <= i < j < es1.len() implies spec_entry_key(#[trigger] es1[i]) != spec_entry_key(
        #[trigger] es1[j],
    ) by {
        assert(spec_entries_model(es1)[i] == spec_entry_model(es1[i]));
        assert(spec_entries_model(es1)[j] == spec_entry_model(es1[j]));
        assert(spec_entries_model(es2)[i] == spec_entry_model(es2[i]));
        assert(spec_entries_model(es2)[j] == spec_entry_model(es2[j]));
        lemma_key_of_model(es1[i], es2[i]);
        lemma_key_of_model(es1[j], es2[j]);
    }
}

impl Store {
    /// Opens the store from what is on disk, or creates a fresh one.
    ///
    /// The caller reads the sidecar and the ciphertext snapshot (passing
    /// `None` for a file that does not exist) and afterwards persists the
    /// returned sidecar bytes, so that even a crash right after creation
    /// leaves consistent metadata.
    ///
    /// With a snapshot present, the recorded `next_counter` names the nonce
    /// of the *next* save, so the snapshot is normally sealed under
    /// `next_counter - 1`; a crash between writing the ciphertext and
    /// advancing the sidecar leaves it sealed under `next_counter` instead.
    /// Both candidates are tried, in that order.  Exhausting both yields
    /// `UnlockFailure` — a wrong passphrase and a corrupted file are
    /// indistinguishable by design.  A snapshot that authenticates but does
    /// not decode to a version-1, deduplicated model is
    /// `SerializationFailure`.
    pub fn open_or_create(
        key: [u8; 32],
        base_nonce: [u8; 24],
        meta_bytes: Option<&Vec<u8>>,
        snapshot: Option<&Vec<u8>>,
    ) -> (r: Result<(Store, Vec<u8>), StoreError>)
        ensures
            // Whatever was opened is well-formed, clean, and carries the
            // given parameters, together with the sidecar bytes to persist.
            r is Ok ==> r->Ok_0.0.wf() && !r->Ok_0.0.is_dirty() && r->Ok_0.0.pending_ops() == 0
                && r->Ok_0.0.crypto_key() == key@ && r->Ok_0.0.nonce_seed() == base_nonce@
                && r->Ok_0.1@ == spec_meta_json(1, r->Ok_0.0.save_counter()),
            // A malformed sidecar is rejected.
            spec_effective_meta(spec_opt_bytes(meta_bytes)) is None ==> r is Err && r->Err_0
                == StoreError::SerializationFailure,
            // No snapshot on disk: a fresh empty store with counter 1.
            snapshot is None && spec_effective_meta(spec_opt_bytes(meta_bytes)) is Some ==> r is Ok
                && r->Ok_0.0.history().len() == 0 && r->Ok_0.0.save_counter() == 1,
            // A sidecar that never recorded a save: nothing to decrypt.
            snapshot is Some && spec_effective_meta(spec_opt_bytes(meta_bytes)) is Some
                && spec_effective_meta(spec_opt_bytes(meta_bytes))->Some_0.next_counter == 0
                ==> r is Ok && r->Ok_0.0.history().len() == 0 && r->Ok_0.0.save_counter() == 0,
            // Authenticity: whatever was loaded is exactly what some sealing
            // under one of the two candidate counters framed.
            r is Ok && snapshot is Some
                && spec_effective_meta(spec_opt_bytes(meta_bytes))->Some_0.next_counter >= 1
                ==> r->Ok_0.0.save_counter()
                == spec_effective_meta(spec_opt_bytes(meta_bytes))->Some_0.next_counter
                && (exists|c: u64|
                    {
                        let nc = spec_effective_meta(
                            spec_opt_bytes(meta_bytes),
                        )->Some_0.next_counter;
                        &&& (c == (nc - 1) as u64 || c == nc)
                        &&& snapshot->Some_0@ == xchacha_seal(
                            key@,
                            #[trigger] spec_save_nonce(key@, base_nonce@, c),
                            spec_enc_model_m(1, spec_entries_model(r->Ok_0.0.history())),
                        )
                    }),
            // Recovery, the normal case: a snapshot sealed under the counter
            // before the recorded one is always recovered exactly.
            forall|es: Seq<ClipboardEntry>|
                #![trigger spec_sealed_under(
                    key@,
                    base_nonce@,
                    (spec_meta_counter(meta_bytes) - 1) as u64,
                    snapshot->Some_0@,
                    es,
                )]
                #![trigger spec_entries_model(es)]
                (snapshot is Some && spec_effective_meta(spec_opt_bytes(meta_bytes)) is Some
                    && spec_meta_counter(meta_bytes) >= 1
                    && spec_sealed_under(
                    key@,
                    base_nonce@,
                    (spec_meta_counter(meta_bytes) - 1) as u64,
                    snapshot->Some_0@,
                    es,
                )) ==> r is Ok && spec_entries_model(r->Ok_0.0.history()) == spec_entries_model(es)
                    && r->Ok_0.0.save_counter() == spec_meta_counter(meta_bytes),
            // Recovery, the crash window: the ciphertext was replaced but
            // the sidecar not yet advanced, so the snapshot is sealed under
            // the recorded counter itself; recovered exactly, provided
            // nothing authenticates under the stale candidate.
            forall|es: Seq<ClipboardEntry>|
                #![trigger spec_sealed_under(
                    key@,
                    base_nonce@,
                    spec_meta_counter(meta_bytes),
                    snapshot->Some_0@,
                    es,
                )]
                #![trigger spec_entries_model(es)]
                (snapshot is Some && spec_effective_meta(spec_opt_bytes(meta_bytes)) is Some
                    && spec_meta_counter(meta_bytes) >= 1
                    && spec_sealed_under(
                    key@,
                    base_nonce@,
                    spec_meta_counter(meta_bytes),
                    snapshot->Some_0@,
                    es,
                ) && spec_no_seal_under(
                    key@,
                    base_nonce@,
                    (spec_meta_counter(meta_bytes) - 1) as u64,
                    snapshot->Some_0@,
                )) ==> r is Ok && spec_entries_model(r->Ok_0.0.history()) == spec_entries_model(es)
                    && r->Ok_0.0.save_counter() == spec_meta_counter(meta_bytes),
            // The unlock error taxonomy.
            r is Err && spec_effective_meta(spec_opt_bytes(meta_bytes)) is Some ==> (r->Err_0
                == StoreError::UnlockFailure || r->Err_0 == StoreError::SerializationFailure),
    {
        let meta: Meta = match meta_bytes {
            None => Meta { version: 1, next_counter: 1 },
            Some(b) => match parse_meta(b) {
                Some(m) => m,
                None => {
                    return Err(StoreError::SerializationFailure);
                },
            },
        };
        proof {
            assert(spec_effective_meta(spec_opt_bytes(meta_bytes)) == Some(meta));
        }
        match snapshot {
            None => {
                let store = Store {
                    key,
                    base_nonce,
                    entries: Vec::new(),
                    next_counter: 1,
                    ops_since_save: 0,
                    dirty: false,
                };
                let meta_out = render_meta(&Meta { version: 1, next_counter: 1 });
                Ok((store, meta_out))
            },
            Some(ct) => {
                if meta.next_counter == 0 {
                    let store = Store {
                        key,
                        base_nonce,
                        entries: Vec::new(),
                        next_counter: 0,
                        ops_since_save: 0,
                        dirty: false,
                    };
                    let meta_out = render_meta(&Meta { version: 1, next_counter: 0 });
                    return Ok((store, meta_out));
                }
                let ghost ncv: u64 = meta.next_counter;
                let ghost prevc: u64 = (ncv - 1) as u64;
                let n_prev = derive_save_nonce(&key, &base_nonce, meta.next_counter - 1);
                let n_curr = derive_save_nonce(&key, &base_nonce, meta.next_counter);
                proof {
                    assert(n_prev@ == spec_save_nonce(key@, base_nonce@, prevc));
                    assert(n_curr@ == spec_save_nonce(key@, base_nonce@, ncv));
                }
                let ghost mut used_prev: bool = true;
                let pt: Vec<u8>;
                match decrypt_data(&key, &n_prev, ct) {
                    Ok(p) => {
                        pt = p;
                    },
                    Err(_) => {
                        proof {
                            assert forall|q: Seq<u8>|
                                q.len() < AEAD_MAX_PLAINTEXT implies ct@ != #[trigger] xchacha_seal(
                                key@,
                                n_prev@,
                                q,
                            ) by {}
                        }
                        match decrypt_data(&key, &n_curr, ct) {
                            Ok(p) => {
                                pt = p;
                                proof {
                                    used_prev = false;
                                }
                            },
                            Err(e) => {
                                proof {
                                    assert forall|es: Seq<ClipboardEntry>|
                                        #[trigger] spec_sealed_under(
                                            key@,
                                            base_nonce@,
                                            prevc,
                                            ct@,
                                            es,
                                        ) implies false by {
                                        assert(xchacha_seal(
                                            key@,
                                            spec_save_nonce(key@, base_nonce@, prevc),
                                            spec_enc_model(1, es),
                                        ) == xchacha_seal(key@, n_prev@, spec_enc_model(1, es)));
                                    }
                                    assert forall|es: Seq<ClipboardEntry>|
                                        #[trigger] spec_sealed_under(
                                            key@,
                                            base_nonce@,
                                            ncv,
                                            ct@,
                                            es,
                                        ) implies false by {
                                        assert(xchacha_seal(
                                            key@,
                                            spec_save_nonce(key@, base_nonce@, ncv),
                                            spec_enc_model(1, es),
                                        ) == xchacha_seal(key@, n_curr@, spec_enc_model(1, es)));
                                    }
                                }
                                return Err(e);
                            },
                        }
                    },
                }
                proof {
                    if used_prev {
                        assert(ct@ == xchacha_seal(key@, n_prev@, pt@));
                    } else {
                        assert(ct@ == xchacha_seal(key@, n_curr@, pt@));
                        assert(forall|q: Seq<u8>|
                            q.len() < AEAD_MAX_PLAINTEXT ==> ct@ != #[trigger] xchacha_seal(
                                key@,
                                n_prev@,
                                q,
                            ));
                    }
                    assert(pt@.len() < AEAD_MAX_PLAINTEXT);
                    // A snapshot sealed under the stale candidate decodes to
                    // exactly what it framed.
                    assert forall|es: Seq<ClipboardEntry>|
                        #[trigger] spec_sealed_under(key@, base_nonce@, prevc, ct@, es) implies (
                    used_prev && pt@ == spec_enc_model(1, es) && spec_dec_model(pt@) == Some(
                        (1u8, spec_entries_model(es)),
                    )) by {
                        assert(xchacha_seal(
                            key@,
                            spec_save_nonce(key@, base_nonce@, prevc),
                            spec_enc_model(1, es),
                        ) == xchacha_seal(key@, n_prev@, spec_enc_model(1, es)));
                        lemma_dec_of_enc_model(1, es);
                    }
                    // So does one sealed under the recorded counter, when
                    // nothing authenticates under the stale candidate.
                    assert forall|es: Seq<ClipboardEntry>|
                        (#[trigger] spec_sealed_under(key@, base_nonce@, ncv, ct@, es)
                            && spec_no_seal_under(key@, base_nonce@, prevc, ct@)) implies (
                    !used_prev && pt@ == spec_enc_model(1, es) && spec_dec_model(pt@) == Some(
                        (1u8, spec_entries_model(es)),
                    )) by {
                        if used_prev {
                            assert(xchacha_seal(
                                key@,
                                spec_save_nonce(key@, base_nonce@, prevc),
                                pt@,
                            ) == xchacha_seal(key@, n_prev@, pt@));
                            assert(false);
                        } else {
                            assert(xchacha_seal(
                                key@,
                                spec_save_nonce(key@, base_nonce@, ncv),
                                spec_enc_model(1, es),
                            ) == xchacha_seal(key@, n_curr@, spec_enc_model(1, es)));
                            lemma_dec_of_enc_model(1, es);
                        }
                    }
                }
                let model = match decode_model(&pt) {
                    Ok(m) => m,
                    Err(e) => {
                        return Err(e);
                    },
                };
                if model.version != 1 {
                    return Err(StoreError::SerializationFailure);
                }
                proof {
                    assert forall|es: Seq<ClipboardEntry>|
                        (spec_entries_model(model.entries@) == #[trigger] spec_entries_model(es)
                            && spec_distinct_keys(es)) implies spec_distinct_keys(
                        model.entries@,
                    ) by {
                        lemma_distinct_from_models(model.entries@, es);
                    }
                }
                if !check_distinct(&model.entries) {
                    return Err(StoreError::SerializationFailure);
                }
                proof {
                    lemma_enc_of_dec_model(pt@);
                    let cw: u64 = if used_prev {
                        prevc
                    } else {
                        ncv
                    };
                    assert(ct@ == xchacha_seal(
                        key@,
                        spec_save_nonce(key@, base_nonce@, cw),
                        spec_enc_model_m(1, spec_entries_model(model.entries@)),
                    ));
                }
                let store = Store {
                    key,
                    base_nonce,
                    entries: model.entries,
                    next_counter: meta.next_counter,
                    ops_since_save: 0,
                    dirty: false,
                };
                let meta_out = render_meta(&Meta { version: 1, next_counter: meta.next_counter });
                Ok((store, meta_out))
            },
        }
    }
}

} // verus!
