//! Content fingerprinting: the deduplication identity of a clipboard payload.
//!
//! A fingerprint is the BLAKE3 digest of the canonical byte serialization of
//! the content: a one-byte variant tag followed by the UTF-8 bytes of the
//! payload.  Tagging keeps `Text(s)` and `ImageBase64(s)` apart even when the
//! payload strings coincide.  `content_key` is the lowercase-hex rendering of
//! the digest, usable as a map key and as a content ID.

use vstd::prelude::*;
use vstd::string::StringExecFns;
use crate::types::ClipboardContent;

verus! {

/// The variant tag that prefixes the canonical serialization.
pub open spec fn spec_content_tag(c: ClipboardContent) -> u8 {
    match c {
        ClipboardContent::Text(_) => 0u8,
        ClipboardContent::ImageBase64(_) => 1u8,
    }
}

/// The payload characters of a content value.
pub open spec fn spec_content_payload(c: ClipboardContent) -> Seq<char> {
    match c {
        ClipboardContent::Text(s) => s@,
        ClipboardContent::ImageBase64(s) => s@,
    }
}

/// The canonical byte serialization hashed for deduplication: tag byte, then
/// the UTF-8 encoding of the payload.
pub open spec fn spec_content_ser(c: ClipboardContent) -> Seq<u8> {
    seq![spec_content_tag(c)] + vstd::utf8::encode_utf8(spec_content_payload(c))
}

/// The 256-bit BLAKE3 digest of a byte sequence; a pure function of its
/// input, left uninterpreted here.
pub uninterp spec fn blake3_of(data: Seq<u8>) -> Seq<u8>;

/// Relies on `blake3::hash`: the digest is a pure 32-byte function of the
/// input bytes alone.
#[verifier::external_body]
fn blake3_hash(data: &[u8]) -> (r: [u8; 32])
    ensures
        r@ == blake3_of(data@),
{
    *blake3::hash(data).as_bytes()
}

/// The content fingerprint at the specification level.
pub open spec fn spec_content_digest(c: ClipboardContent) -> Seq<u8> {
    blake3_of(spec_content_ser(c))
}

/// Builds the canonical serialization of a content value.
pub fn content_ser(c: &ClipboardContent) -> (r: Vec<u8>)
    ensures
        r@ == spec_content_ser(*c),
{
    let mut out: Vec<u8> = Vec::new();
    match c {
        ClipboardContent::Text(s) => {
            out.push(0u8);
            out.extend_from_slice(s.as_str().as_bytes());
        }
        ClipboardContent::ImageBase64(s) => {
            out.push(1u8);
            out.extend_from_slice(s.as_str().as_bytes());
        }
    }
    proof {
        assert(out@ =~= spec_content_ser(*c));
    }
    out
}

/// The content fingerprint: 32 digest bytes.
pub fn clipboard_entry_hash(c: &ClipboardContent) -> (r: [u8; 32])
    ensures
        r@ == spec_content_digest(*c),
{
    let ser = content_ser(c);
    blake3_hash(ser.as_slice())
}

/// The lowercase hexadecimal character for one value below 16.
pub open spec fn spec_hex_digit(n: u8) -> char
    recommends
        n < 16,
{
    if n < 10 {
        (n + 48) as char
    } else {
        (n + 87) as char
    }
}

/// Two lowercase hex characters for one byte, high nibble first.
pub open spec fn spec_byte_hex(b: u8) -> Seq<char> {
    seq![spec_hex_digit(b / 16), spec_hex_digit(b % 16)]
}

/// The lowercase hex rendering of a byte sequence.
pub open spec fn spec_hex(bytes: Seq<u8>) -> Seq<char>
    decreases bytes.len(),
{
    if bytes.len() == 0 {
        Seq::empty()
    } else {
        spec_hex(bytes.drop_last()) + spec_byte_hex(bytes.last())
    }
}

fn push_hex_digit(s: &mut String, n: u8)
    requires
        n < 16,
    ensures
        final(s)@ == old(s)@.push(spec_hex_digit(n)),
{
    match n {
        0 => {
            proof { reveal_strlit("0"); }
            s.append("0");
        }
        1 => {
            proof { reveal_strlit("1"); }
            s.append("1");
        }
        2 => {
            proof { reveal_strlit("2"); }
            s.append("2");
        }
        3 => {
            proof { reveal_strlit("3"); }
            s.append("3");
        }
        4 => {
            proof { reveal_strlit("4"); }
            s.append("4");
        }
        5 => {
            proof { reveal_strlit("5"); }
            s.append("5");
        }
        6 => {
            proof { reveal_strlit("6"); }
            s.append("6");
        }
        7 => {
            proof { reveal_strlit("7"); }
            s.append("7");
        }
        8 => {
            proof { reveal_strlit("8"); }
            s.append("8");
        }
        9 => {
            proof { reveal_strlit("9"); }
            s.append("9");
        }
        10 => {
            proof { reveal_strlit("a"); }
            s.append("a");
        }
        11 => {
            proof { reveal_strlit("b"); }
            s.append("b");
        }
        12 => {
            proof { reveal_strlit("c"); }
            s.append("c");
        }
        13 => {
            proof { reveal_strlit("d"); }
            s.append("d");
        }
        14 => {
            proof { reveal_strlit("e"); }
            s.append("e");
        }
        _ => {
            proof { reveal_strlit("f"); }
            s.append("f");
        }
    }
    proof {
        assert(s@ =~= old(s)@.push(spec_hex_digit(n)));
    }
}

/// The dedup key of a content value: the lowercase hex of its fingerprint.
pub fn content_key(c: &ClipboardContent) -> (r: String)
    ensures
        r@ == spec_hex(spec_content_digest(*c)),
{
    let digest = clipboard_entry_hash(c);
    let mut s = String::new();
    let mut i: usize = 0;
    while i < 32
        invariant
            i <= 32,
            digest@ == spec_content_digest(*c),
            s@ == spec_hex(digest@.take(i as int)),
        decreases 32 - i,
    {
        let b = digest[i];
        push_hex_digit(&mut s, b / 16);
        push_hex_digit(&mut s, b % 16);
        proof {
            assert(digest@.take(i as int + 1).drop_last() =~= digest@.take(i as int));
            assert(digest@.take(i as int + 1).last() == digest@[i as int]);
            assert(s@ =~= spec_hex(digest@.take(i as int + 1)));
        }
        i = i + 1;
    }
    proof {
        assert(digest@.take(32) =~= digest@);
    }
    s
}

} // verus!
