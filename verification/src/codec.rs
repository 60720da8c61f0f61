//! The byte format of the persisted snapshot.
//!
//! The plaintext that gets encrypted on every save is a self-contained,
//! unambiguous framing of the `FileModel`:
//!
//! ```text
//! version:u8  count:u64le  entry*count
//! entry  :=  ts:u64le  tag:u8(0=text,1=image)  len:u64le  utf8-bytes[len]
//! ```
//!
//! `encode_model` and `decode_model` are exact inverses: decoding succeeds
//! precisely on well-formed framings, returns exactly the framed model, and
//! rejects trailing garbage, bad tags, bad UTF-8 and truncation.
//!
//! Since two `String`s are compared through their character views, contracts
//! speak of an entry's *model*: its timestamp, variant tag and payload
//! characters, which determine the entry up to view equality.

use vstd::prelude::*;
use vstd::bytes::{spec_u64_to_le_bytes, spec_u64_from_le_bytes, u64_to_le_bytes, u64_from_le_bytes, lemma_auto_spec_u64_to_from_le_bytes};
use vstd::utf8::{encode_utf8, decode_utf8, valid_utf8, encode_utf8_valid_utf8, encode_utf8_decode_utf8, decode_utf8_encode_utf8};
use vstd::slice::{slice_subrange, slice_to_vec};
use crate::types::{ClipboardContent, ClipboardEntry, FileModel, StoreError};
use crate::clip::{spec_content_tag, spec_content_payload};

verus! {

/// What determines an entry up to view equality: timestamp, variant tag,
/// payload characters.
pub type EntryModel = (u64, u8, Seq<char>);

/// The model of one entry.
pub open spec fn spec_entry_model(e: ClipboardEntry) -> EntryModel {
    (e.ts, spec_content_tag(e.content), spec_content_payload(e.content))
}

/// The models of a sequence of entries.
pub open spec fn spec_entries_model(es: Seq<ClipboardEntry>) -> Seq<EntryModel> {
    es.map_values(|e: ClipboardEntry| spec_entry_model(e))
}

/// Length-prefixed UTF-8 framing of a string payload.
pub open spec fn spec_enc_str(s: Seq<char>) -> Seq<u8> {
    spec_u64_to_le_bytes(encode_utf8(s).len() as u64) + encode_utf8(s)
}

/// Framing of one entry, from its model.
pub open spec fn spec_enc_entry_m(m: EntryModel) -> Seq<u8> {
    spec_u64_to_le_bytes(m.0) + seq![m.1] + spec_enc_str(m.2)
}

/// Framing of a sequence of entry models, in order.
pub open spec fn spec_enc_entries_m(ms: Seq<EntryModel>) -> Seq<u8>
    decreases ms.len(),
{
    if ms.len() == 0 {
        Seq::empty()
    } else {
        spec_enc_entry_m(ms[0]) + spec_enc_entries_m(ms.drop_first())
    }
}

/// Framing of the whole model, from entry models.
pub open spec fn spec_enc_model_m(version: u8, ms: Seq<EntryModel>) -> Seq<u8> {
    seq![version] + spec_u64_to_le_bytes(ms.len() as u64) + spec_enc_entries_m(ms)
}

/// Framing of one entry.
pub open spec fn spec_enc_entry(e: ClipboardEntry) -> Seq<u8> {
    spec_enc_entry_m(spec_entry_model(e))
}

/// Framing of the whole model.
pub open spec fn spec_enc_model(version: u8, es: Seq<ClipboardEntry>) -> Seq<u8> {
    spec_enc_model_m(version, spec_entries_model(es))
}

/// The machine bounds that every encodable entry satisfies; witnessed by
/// `encode_model` and assumed by the decoding round-trip laws.
pub open spec fn spec_entry_bounded(e: ClipboardEntry) -> bool {
    encode_utf8(spec_content_payload(e.content)).len() <= u64::MAX
}

/// Bounds of a whole entry sequence.
pub open spec fn spec_entries_bounded(es: Seq<ClipboardEntry>) -> bool {
    &&& es.len() <= u64::MAX
    &&& forall|i: int| 0 <= i < es.len() ==> spec_entry_bounded(#[trigger] es[i])
}

// ---------------------------------------------------------------------------
// The specification-level parser.  Each piece consumes a prefix and yields
// the parsed value and the remainder; `spec_dec_model` demands that nothing
// remains.  The exec decoder refines this parser exactly.
// ---------------------------------------------------------------------------

/// Parses a little-endian u64.
pub open spec fn spec_dec_u64(b: Seq<u8>) -> Option<(u64, Seq<u8>)> {
    if b.len() >= 8 {
        Some((spec_u64_from_le_bytes(b.take(8)), b.skip(8)))
    } else {
        None
    }
}

/// Parses a length-prefixed UTF-8 string payload.
pub open spec fn spec_dec_str(b: Seq<u8>) -> Option<(Seq<char>, Seq<u8>)> {
    match spec_dec_u64(b) {
        Some((n, rest)) => {
            if n <= rest.len() && valid_utf8(rest.take(n as int)) {
                Some((decode_utf8(rest.take(n as int)), rest.skip(n as int)))
            } else {
                None
            }
        },
        None => None,
    }
}

/// Parses one entry.
pub open spec fn spec_dec_entry(b: Seq<u8>) -> Option<(EntryModel, Seq<u8>)> {
    match spec_dec_u64(b) {
        Some((ts, r1)) => {
            if r1.len() >= 1 && (r1[0] == 0 || r1[0] == 1) {
                match spec_dec_str(r1.skip(1)) {
                    Some((s, r2)) => Some(((ts, r1[0], s), r2)),
                    None => None,
                }
            } else {
                None
            }
        },
        None => None,
    }
}

/// Parses exactly `n` entries.
pub open spec fn spec_dec_entries(b: Seq<u8>, n: nat) -> Option<(Seq<EntryModel>, Seq<u8>)>
    decreases n,
{
    if n == 0 {
        Some((Seq::empty(), b))
    } else {
        match spec_dec_entry(b) {
            Some((m, rest)) => match spec_dec_entries(rest, (n - 1) as nat) {
                Some((ms, rest2)) => Some((seq![m] + ms, rest2)),
                None => None,
            },
            None => None,
        }
    }
}

/// Parses a whole snapshot; rejects trailing bytes.
pub open spec fn spec_dec_model(b: Seq<u8>) -> Option<(u8, Seq<EntryModel>)> {
    if b.len() >= 1 {
        match spec_dec_u64(b.skip(1)) {
            Some((count, rest)) => match spec_dec_entries(rest, count as nat) {
                Some((ms, rest2)) => if rest2.len() == 0 {
                    Some((b[0], ms))
                } else {
                    None
                },
                None => None,
            },
            None => None,
        }
    } else {
        None
    }
}

// ---------------------------------------------------------------------------
// Round trip, direction one: parsing an encoding yields the encoded value.
// ---------------------------------------------------------------------------

proof fn lemma_dec_u64_of_enc(x: u64, tail: Seq<u8>)
    ensures
        spec_dec_u64(spec_u64_to_le_bytes(x) + tail) == Some((x, tail)),
{
    lemma_auto_spec_u64_to_from_le_bytes();
    assert((spec_u64_to_le_bytes(x) + tail).take(8) =~= spec_u64_to_le_bytes(x));
    assert((spec_u64_to_le_bytes(x) + tail).skip(8) =~= tail);
}

proof fn lemma_dec_str_of_enc(s: Seq<char>, tail: Seq<u8>)
    requires
        encode_utf8(s).len() <= u64::MAX,
    ensures
        spec_dec_str(spec_enc_str(s) + tail) == Some((s, tail)),
{
    let sb = encode_utf8(s);
    let n: u64 = sb.len() as u64;
    assert(spec_enc_str(s) + tail =~= spec_u64_to_le_bytes(n) + (sb + tail));
    lemma_dec_u64_of_enc(n, sb + tail);
    assert((sb + tail).take(n as int) =~= sb);
    assert((sb + tail).skip(n as int) =~= tail);
    encode_utf8_valid_utf8(s);
    encode_utf8_decode_utf8(s);
}

proof fn lemma_dec_entry_of_enc(m: EntryModel, tail: Seq<u8>)
    requires
        encode_utf8(m.2).len() <= u64::MAX,
        m.1 == 0 || m.1 == 1,
    ensures
        spec_dec_entry(spec_enc_entry_m(m) + tail) == Some((m, tail)),
{
    let rest1 = seq![m.1] + spec_enc_str(m.2) + tail;
    assert(spec_enc_entry_m(m) + tail =~= spec_u64_to_le_bytes(m.0) + rest1);
    lemma_dec_u64_of_enc(m.0, rest1);
    assert(rest1[0] == m.1);
    assert(rest1.skip(1) =~= spec_enc_str(m.2) + tail);
    lemma_dec_str_of_enc(m.2, tail);
}

proof fn lemma_dec_entries_of_enc(ms: Seq<EntryModel>, tail: Seq<u8>)
    requires
        forall|i: int| 0 <= i < ms.len() ==> encode_utf8(#[trigger] ms[i].2).len() <= u64::MAX,
        forall|i: int| 0 <= i < ms.len() ==> (#[trigger] ms[i].1 == 0 || ms[i].1 == 1),
    ensures
        spec_dec_entries(spec_enc_entries_m(ms) + tail, ms.len()) == Some((ms, tail)),
    decreases ms.len(),
{
    if ms.len() == 0 {
        assert(spec_enc_entries_m(ms) + tail =~= tail);
        assert(spec_dec_entries(tail, 0) == Some((Seq::<EntryModel>::empty(), tail)));
        assert(Seq::<EntryModel>::empty() =~= ms);
    } else {
        let rest = ms.drop_first();
        assert(spec_enc_entries_m(ms) + tail =~= spec_enc_entry_m(ms[0]) + (spec_enc_entries_m(rest) + tail));
        lemma_dec_entry_of_enc(ms[0], spec_enc_entries_m(rest) + tail);
        assert(forall|i: int| 0 <= i < rest.len() ==> rest[i] == ms[i + 1]);
        lemma_dec_entries_of_enc(rest, tail);
        assert(seq![ms[0]] + rest =~= ms);
    }
}

/// Law (round trip, parsing side): decoding the framing of any bounded,
/// well-tagged model sequence yields exactly that model sequence, with
/// nothing left over.
pub proof fn lemma_dec_of_enc_model_m(version: u8, ms: Seq<EntryModel>)
    requires
        ms.len() <= u64::MAX,
        forall|i: int| 0 <= i < ms.len() ==> encode_utf8(#[trigger] ms[i].2).len() <= u64::MAX,
        forall|i: int| 0 <= i < ms.len() ==> (#[trigger] ms[i].1 == 0 || ms[i].1 == 1),
    ensures
        spec_dec_model(spec_enc_model_m(version, ms)) == Some((version, ms)),
{
    let b = spec_enc_model_m(version, ms);
    let count: u64 = ms.len() as u64;
    assert(b.len() >= 1);
    assert(b[0] == version);
    assert(b.skip(1) =~= spec_u64_to_le_bytes(count) + spec_enc_entries_m(ms));
    lemma_dec_u64_of_enc(count, spec_enc_entries_m(ms));
    assert(spec_enc_entries_m(ms) + Seq::<u8>::empty() =~= spec_enc_entries_m(ms));
    lemma_dec_entries_of_enc(ms, Seq::empty());
    assert(count as nat == ms.len());
}

/// The same law, stated over real entries as they are framed by
/// `encode_model`.
pub proof fn lemma_dec_of_enc_model(version: u8, es: Seq<ClipboardEntry>)
    requires
        spec_entries_bounded(es),
    ensures
        spec_dec_model(spec_enc_model(version, es)) == Some((version, spec_entries_model(es))),
{
    let ms = spec_entries_model(es);
    assert(forall|i: int| 0 <= i < ms.len() ==> encode_utf8(#[trigger] ms[i].2).len() <= u64::MAX) by {
        assert(forall|i: int| 0 <= i < es.len() ==> spec_entry_bounded(#[trigger] es[i]));
    }
    assert(forall|i: int| 0 <= i < ms.len() ==> (#[trigger] ms[i].1 == 0 || ms[i].1 == 1)) by {
        assert(forall|i: int| 0 <= i < ms.len() ==> ms[i] == spec_entry_model(es[i]));
    }
    lemma_dec_of_enc_model_m(version, ms);
}

// ---------------------------------------------------------------------------
// Round trip, direction two: whatever parses re-encodes to the input, so the
// framing is unambiguous.
// ---------------------------------------------------------------------------

proof fn lemma_enc_of_dec_u64(b: Seq<u8>)
    requires
        spec_dec_u64(b) is Some,
    ensures
        spec_u64_to_le_bytes(spec_dec_u64(b)->Some_0.0) + spec_dec_u64(b)->Some_0.1 == b,
{
    lemma_auto_spec_u64_to_from_le_bytes();
    assert(b.take(8).len() == 8);
    assert(spec_u64_to_le_bytes(spec_u64_from_le_bytes(b.take(8))) + b.skip(8) =~= b);
}

proof fn lemma_enc_of_dec_str(b: Seq<u8>)
    requires
        spec_dec_str(b) is Some,
    ensures
        spec_enc_str(spec_dec_str(b)->Some_0.0) + spec_dec_str(b)->Some_0.1 == b,
        encode_utf8(spec_dec_str(b)->Some_0.0).len() <= u64::MAX,
{
    let n = spec_dec_u64(b)->Some_0.0;
    let rest = spec_dec_u64(b)->Some_0.1;
    lemma_enc_of_dec_u64(b);
    let sb = rest.take(n as int);
    decode_utf8_encode_utf8(sb);
    assert(encode_utf8(decode_utf8(sb)) == sb);
    assert(sb.len() == n);
    assert(spec_enc_str(decode_utf8(sb)) =~= spec_u64_to_le_bytes(n) + sb);
    assert(sb + rest.skip(n as int) =~= rest);
    assert(spec_enc_str(decode_utf8(sb)) + rest.skip(n as int) =~= b);
}

proof fn lemma_enc_of_dec_entry(b: Seq<u8>)
    requires
        spec_dec_entry(b) is Some,
    ensures
        spec_enc_entry_m(spec_dec_entry(b)->Some_0.0) + spec_dec_entry(b)->Some_0.1 == b,
        encode_utf8(spec_dec_entry(b)->Some_0.0.2).len() <= u64::MAX,
        spec_dec_entry(b)->Some_0.0.1 == 0 || spec_dec_entry(b)->Some_0.0.1 == 1,
{
    let r1 = spec_dec_u64(b)->Some_0.1;
    lemma_enc_of_dec_u64(b);
    lemma_enc_of_dec_str(r1.skip(1));
    assert(seq![r1[0]] + r1.skip(1) =~= r1);
    let m = spec_dec_entry(b)->Some_0.0;
    assert(spec_enc_entry_m(m) + spec_dec_entry(b)->Some_0.1 =~= b);
}

proof fn lemma_enc_of_dec_entries(b: Seq<u8>, n: nat)
    requires
        spec_dec_entries(b, n) is Some,
    ensures
        spec_dec_entries(b, n)->Some_0.0.len() == n,
        spec_enc_entries_m(spec_dec_entries(b, n)->Some_0.0) + spec_dec_entries(b, n)->Some_0.1 == b,
        forall|i: int| 0 <= i < n ==> encode_utf8(#[trigger] spec_dec_entries(b, n)->Some_0.0[i].2).len() <= u64::MAX,
        forall|i: int| 0 <= i < n ==> (#[trigger] spec_dec_entries(b, n)->Some_0.0[i].1 == 0 || spec_dec_entries(b, n)->Some_0.0[i].1 == 1),
    decreases n,
{
    if n == 0 {
        assert(spec_enc_entries_m(Seq::<EntryModel>::empty()) + b =~= b);
    } else {
        let m = spec_dec_entry(b)->Some_0.0;
        let rest = spec_dec_entry(b)->Some_0.1;
        lemma_enc_of_dec_entry(b);
        lemma_enc_of_dec_entries(rest, (n - 1) as nat);
        let ms_rest = spec_dec_entries(rest, (n - 1) as nat)->Some_0.0;
        let ms = seq![m] + ms_rest;
        assert(ms.drop_first() =~= ms_rest);
        assert(spec_enc_entries_m(ms) + spec_dec_entries(b, n)->Some_0.1 =~= b);
        assert(forall|i: int| 1 <= i < n ==> ms[i] == ms_rest[i - 1]);
    }
}

/// Law (round trip, framing side): whatever the parser accepts is exactly
/// the framing of what it returned — the format is unambiguous.
pub proof fn lemma_enc_of_dec_model(b: Seq<u8>)
    requires
        spec_dec_model(b) is Some,
    ensures
        spec_enc_model_m(spec_dec_model(b)->Some_0.0, spec_dec_model(b)->Some_0.1) == b,
{
    let count = spec_dec_u64(b.skip(1))->Some_0.0;
    let rest = spec_dec_u64(b.skip(1))->Some_0.1;
    lemma_enc_of_dec_u64(b.skip(1));
    lemma_enc_of_dec_entries(rest, count as nat);
    let ms = spec_dec_entries(rest, count as nat)->Some_0.0;
    assert(spec_dec_entries(rest, count as nat)->Some_0.1.len() == 0);
    assert(spec_enc_entries_m(ms) + spec_dec_entries(rest, count as nat)->Some_0.1 =~= spec_enc_entries_m(ms));
    assert(ms.len() as u64 == count);
    assert(seq![b[0]] + b.skip(1) =~= b);
    assert(spec_enc_model_m(b[0], ms) =~= b);
}

// ---------------------------------------------------------------------------
// The executable encoder.
// ---------------------------------------------------------------------------

fn encode_str_into(out: &mut Vec<u8>, s: &String)
    ensures
        final(out)@ == old(out)@ + spec_enc_str(s@),
        encode_utf8(s@).len() <= u64::MAX,
{
    let b = s.as_str().as_bytes();
    let mut lenb = u64_to_le_bytes(b.len() as u64);
    out.append(&mut lenb);
    out.extend_from_slice(b);
    proof {
        assert(out@ =~= old(out)@ + spec_enc_str(s@));
    }
}

fn encode_entry_into(out: &mut Vec<u8>, e: &ClipboardEntry)
    ensures
        final(out)@ == old(out)@ + spec_enc_entry(*e),
        spec_entry_bounded(*e),
{
    let mut tsb = u64_to_le_bytes(e.ts);
    out.append(&mut tsb);
    match &e.content {
        ClipboardContent::Text(s) => {
            out.push(0u8);
            encode_str_into(out, s);
        },
        ClipboardContent::ImageBase64(s) => {
            out.push(1u8);
            encode_str_into(out, s);
        },
    }
    proof {
        assert(out@ =~= old(out)@ + spec_enc_entry(*e));
    }
}

fn encode_entries_from(entries: &Vec<ClipboardEntry>, i: usize, out: &mut Vec<u8>)
    requires
        i <= entries@.len(),
    ensures
        final(out)@ == old(out)@ + spec_enc_entries_m(spec_entries_model(entries@.skip(i as int))),
        forall|j: int| i <= j < entries@.len() ==> spec_entry_bounded(#[trigger] entries@[j]),
    decreases entries@.len() - i,
{
    if i < entries.len() {
        encode_entry_into(out, &entries[i]);
        encode_entries_from(entries, i + 1, out);
        proof {
            let tailm = spec_entries_model(entries@.skip(i as int));
            assert(tailm[0] == spec_entry_model(entries@[i as int]));
            assert(tailm.drop_first() =~= spec_entries_model(entries@.skip(i as int + 1)));
            assert(out@ =~= old(out)@ + spec_enc_entries_m(tailm));
        }
    } else {
        proof {
            assert(spec_entries_model(entries@.skip(i as int)).len() == 0);
        }
    }
}

/// Frames a snapshot: the exact byte sequence that will be sealed.
pub fn encode_model(version: u8, entries: &Vec<ClipboardEntry>) -> (r: Vec<u8>)
    ensures
        r@ == spec_enc_model(version, entries@),
        spec_entries_bounded(entries@),
{
    let mut out: Vec<u8> = Vec::new();
    out.push(version);
    let mut cb = u64_to_le_bytes(entries.len() as u64);
    out.append(&mut cb);
    encode_entries_from(entries, 0, &mut out);
    proof {
        assert(entries@.skip(0) =~= entries@);
        assert(spec_entries_model(entries@).len() == entries@.len());
        assert(out@ =~= spec_enc_model(version, entries@));
    }
    out
}

// ---------------------------------------------------------------------------
// The executable decoder: a faithful refinement of the spec parser.
// ---------------------------------------------------------------------------

/// Relies on `String::from_utf8`: it succeeds exactly on valid UTF-8 and
/// returns its decoding, as modeled by vstd's UTF-8 specification.
#[verifier::external_body]
fn bytes_to_string(v: Vec<u8>) -> (r: Option<String>)
    ensures
        r is Some <==> valid_utf8(v@),
        r is Some ==> r->Some_0@ == decode_utf8(v@),
{
    String::from_utf8(v).ok()
}

fn read_u64(bytes: &Vec<u8>, pos: usize) -> (r: Option<(u64, usize)>)
    requires
        pos <= bytes@.len(),
    ensures
        r is Some <==> spec_dec_u64(bytes@.skip(pos as int)) is Some,
        r is Some ==> r->Some_0.0 == spec_dec_u64(bytes@.skip(pos as int))->Some_0.0
            && pos <= r->Some_0.1 <= bytes@.len()
            && bytes@.skip(r->Some_0.1 as int) == spec_dec_u64(bytes@.skip(pos as int))->Some_0.1,
{
    if bytes.len() - pos >= 8 {
        let sl = slice_subrange(bytes.as_slice(), pos, pos + 8);
        let x = u64_from_le_bytes(sl);
        proof {
            assert(bytes@.subrange(pos as int, pos as int + 8) =~= bytes@.skip(pos as int).take(8));
            assert(bytes@.skip(pos as int + 8) =~= bytes@.skip(pos as int).skip(8));
        }
        Some((x, pos + 8))
    } else {
        None
    }
}

fn read_str(bytes: &Vec<u8>, pos: usize) -> (r: Option<(String, usize)>)
    requires
        pos <= bytes@.len(),
    ensures
        r is Some <==> spec_dec_str(bytes@.skip(pos as int)) is Some,
        r is Some ==> r->Some_0.0@ == spec_dec_str(bytes@.skip(pos as int))->Some_0.0
            && pos <= r->Some_0.1 <= bytes@.len()
            && bytes@.skip(r->Some_0.1 as int) == spec_dec_str(bytes@.skip(pos as int))->Some_0.1,
{
    match read_u64(bytes, pos) {
        None => None,
        Some((n, p1)) => {
            let rem = bytes.len() - p1;
            if n <= rem as u64 {
                let nn = n as usize;
                let sl = slice_subrange(bytes.as_slice(), p1, p1 + nn);
                let v = slice_to_vec(sl);
                proof {
                    assert(bytes@.subrange(p1 as int, p1 as int + nn as int)
                        =~= bytes@.skip(p1 as int).take(n as int));
                }
                match bytes_to_string(v) {
                    Some(s) => {
                        proof {
                            assert(bytes@.skip(p1 as int + nn as int)
                                =~= bytes@.skip(p1 as int).skip(n as int));
                        }
                        Some((s, p1 + nn))
                    },
                    None => None,
                }
            } else {
                None
            }
        },
    }
}

fn read_entry(bytes: &Vec<u8>, pos: usize) -> (r: Option<(ClipboardEntry, usize)>)
    requires
        pos <= bytes@.len(),
    ensures
        r is Some <==> spec_dec_entry(bytes@.skip(pos as int)) is Some,
        r is Some ==> spec_entry_model(r->Some_0.0) == spec_dec_entry(bytes@.skip(pos as int))->Some_0.0
            && pos <= r->Some_0.1 <= bytes@.len()
            && bytes@.skip(r->Some_0.1 as int) == spec_dec_entry(bytes@.skip(pos as int))->Some_0.1,
{
    match read_u64(bytes, pos) {
        None => None,
        Some((ts, p1)) => {
            if p1 < bytes.len() {
                let tag = bytes[p1];
                if tag == 0 || tag == 1 {
                    proof {
                        assert(bytes@.skip(p1 as int)[0] == bytes@[p1 as int]);
                        assert(bytes@.skip(p1 as int + 1) =~= bytes@.skip(p1 as int).skip(1));
                    }
                    match read_str(bytes, p1 + 1) {
                        None => None,
                        Some((s, p2)) => {
                            let content = if tag == 0 {
                                ClipboardContent::Text(s)
                            } else {
                                ClipboardContent::ImageBase64(s)
                            };
                            Some((ClipboardEntry { ts, content }, p2))
                        },
                    }
                } else {
                    None
                }
            } else {
                None
            }
        },
    }
}

/// Parses a framed snapshot; the only error is `SerializationFailure`.
///
/// Together with `lemma_dec_of_enc_model` and `lemma_enc_of_dec_model` this
/// makes decode and encode exact inverses.
pub fn decode_model(bytes: &Vec<u8>) -> (r: Result<FileModel, StoreError>)
    ensures
        r is Ok <==> spec_dec_model(bytes@) is Some,
        r is Ok ==> r->Ok_0.version == spec_dec_model(bytes@)->Some_0.0
            && spec_entries_model(r->Ok_0.entries@) == spec_dec_model(bytes@)->Some_0.1,
        r is Err ==> r->Err_0 == StoreError::SerializationFailure,
{
    if bytes.len() < 1 {
        return Err(StoreError::SerializationFailure);
    }
    let version = bytes[0];
    match read_u64(bytes, 1) {
        None => {
            proof {
                assert(bytes@.skip(1) =~= bytes@.skip(0).skip(1));
            }
            Err(StoreError::SerializationFailure)
        },
        Some((count, pos0)) => {
            let ghost rest0 = spec_dec_u64(bytes@.skip(1))->Some_0.1;
            let mut entries: Vec<ClipboardEntry> = Vec::new();
            let mut pos: usize = pos0;
            let mut i: u64 = 0;
            proof {
                assert(bytes@.skip(pos as int) == rest0);
                if spec_dec_entries(rest0, count as nat) is Some {
                    let ms = spec_dec_entries(rest0, count as nat)->Some_0.0;
                    assert(spec_entries_model(entries@) + ms =~= ms);
                }
            }
            while i < count
                invariant
                    i <= count,
                    pos <= bytes@.len(),
                    entries@.len() == i,
                    rest0 == spec_dec_u64(bytes@.skip(1))->Some_0.1,
                    spec_dec_u64(bytes@.skip(1)) is Some,
                    spec_dec_u64(bytes@.skip(1))->Some_0.0 == count,
                    spec_dec_entries(rest0, count as nat) == (match spec_dec_entries(
                        bytes@.skip(pos as int),
                        (count - i) as nat,
                    ) {
                        Some((ms, rest)) => Some((spec_entries_model(entries@) + ms, rest)),
                        None => None::<(Seq<EntryModel>, Seq<u8>)>,
                    }),
                decreases count - i,
            {
                match read_entry(bytes, pos) {
                    None => {
                        proof {
                            assert(spec_dec_entries(bytes@.skip(pos as int), (count - i) as nat) is None);
                            assert(spec_dec_entries(rest0, count as nat) is None);
                        }
                        return Err(StoreError::SerializationFailure);
                    },
                    Some((e, pos2)) => {
                        proof {
                            let b_here = bytes@.skip(pos as int);
                            let m = spec_dec_entry(b_here)->Some_0.0;
                            let n_left = (count - i) as nat;
                            assert(spec_dec_entries(b_here, n_left) == (match spec_dec_entries(
                                bytes@.skip(pos2 as int),
                                (n_left - 1) as nat,
                            ) {
                                Some((ms2, rest2)) => Some((seq![m] + ms2, rest2)),
                                None => None::<(Seq<EntryModel>, Seq<u8>)>,
                            }));
                            assert(spec_entries_model(entries@.push(e))
                                =~= spec_entries_model(entries@).push(spec_entry_model(e)));
                            assert forall|ms2: Seq<EntryModel>|
                                (spec_entries_model(entries@) + (seq![m] + ms2))
                                    =~= (spec_entries_model(entries@).push(m) + ms2) by {}
                        }
                        entries.push(e);
                        pos = pos2;
                        i = i + 1;
                    },
                }
            }
            // i == count: all entries parsed.
            proof {
                assert(spec_dec_entries(bytes@.skip(pos as int), 0)
                    == Some((Seq::<EntryModel>::empty(), bytes@.skip(pos as int))));
                assert(spec_entries_model(entries@) + Seq::<EntryModel>::empty()
                    =~= spec_entries_model(entries@));
            }
            if pos == bytes.len() {
                proof {
                    assert(bytes@.skip(pos as int).len() == 0);
                }
                Ok(FileModel { version, entries })
            } else {
                proof {
                    assert(bytes@.skip(pos as int).len() > 0);
                }
                Err(StoreError::SerializationFailure)
            }
        },
    }
}

} // verus!
