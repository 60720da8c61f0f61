//! The plaintext JSON sidecar forms.
//!
//! The sidecar metadata is stored as the canonical JSON text
//! `{"version":V,"next_counter":C}` with decimal integers, and the
//! preferences file as `{"auto_launch":B}` with a bare boolean.  Rendering
//! and parsing are exact inverses: the parser accepts precisely the
//! canonical renderings (no leading zeros, no whitespace, nothing trailing)
//! and returns exactly the rendered values.

use vstd::prelude::*;
use crate::types::{Meta, Prefs};

verus! {

// ---------------------------------------------------------------------------
// Decimal numerals.
// ---------------------------------------------------------------------------

/// The ASCII decimal digits of `n`, most significant first.
pub open spec fn spec_dec_digits(n: u64) -> Seq<u8>
    decreases n,
{
    if n < 10 {
        seq![(n + 48) as u8]
    } else {
        spec_dec_digits(n / 10).push((n % 10 + 48) as u8)
    }
}

/// Is this byte an ASCII digit?
pub open spec fn spec_is_digit(b: u8) -> bool {
    48 <= b <= 57
}

pub open spec fn spec_all_digits(s: Seq<u8>) -> bool {
    forall|i: int| 0 <= i < s.len() ==> spec_is_digit(#[trigger] s[i])
}

/// A canonical numeral: nonempty, all digits, no leading zero.
pub open spec fn spec_canonical_digits(s: Seq<u8>) -> bool {
    &&& s.len() > 0
    &&& spec_all_digits(s)
    &&& (s.len() == 1 || s[0] != 48)
}

/// The value of an ASCII digit string.
pub open spec fn spec_digits_value(s: Seq<u8>) -> int
    decreases s.len(),
{
    if s.len() == 0 {
        0
    } else {
        spec_digits_value(s.drop_last()) * 10 + (s.last() - 48)
    }
}

proof fn lemma_value_nonneg(s: Seq<u8>)
    requires
        spec_all_digits(s),
    ensures
        spec_digits_value(s) >= 0,
    decreases s.len(),
{
    if s.len() > 0 {
        assert(spec_all_digits(s.drop_last()));
        lemma_value_nonneg(s.drop_last());
    }
}

proof fn lemma_canonical_value_pos(s: Seq<u8>)
    requires
        spec_canonical_digits(s),
        s[0] != 48,
    ensures
        spec_digits_value(s) >= 1,
    decreases s.len(),
{
    reveal_with_fuel(spec_digits_value, 2);
    if s.len() == 1 {
        assert(s.drop_last().len() == 0);
        assert(s.last() == s[0]);
    } else {
        let t = s.drop_last();
        assert(t[0] == s[0]);
        assert(spec_all_digits(t));
        lemma_canonical_value_pos(t);
    }
}

/// The digits of any `u64` form a canonical numeral with that value.
pub proof fn lemma_dec_digits_value(n: u64)
    ensures
        spec_canonical_digits(spec_dec_digits(n)),
        spec_digits_value(spec_dec_digits(n)) == n,
        n >= 1 ==> spec_dec_digits(n)[0] != 48,
    decreases n,
{
    reveal_with_fuel(spec_digits_value, 2);
    if n < 10 {
        let s = spec_dec_digits(n);
        assert(s.drop_last().len() == 0);
        assert(s.last() == s[0]);
    } else {
        lemma_dec_digits_value(n / 10);
        let t = spec_dec_digits(n / 10);
        let s = t.push((n % 10 + 48) as u8);
        assert(s.drop_last() =~= t);
        assert(s.last() == (n % 10 + 48) as u8);
        assert(spec_digits_value(s) == spec_digits_value(t) * 10 + n % 10);
        assert((n / 10) * 10 + n % 10 == n) by (nonlinear_arith);
        assert(s[0] == t[0]);
        assert(n / 10 >= 1);
        assert(forall|i: int| 0 <= i < s.len() ==> spec_is_digit(#[trigger] s[i]));
    }
}

/// A canonical numeral within `u64` range is the digit string of its value.
pub proof fn lemma_canonical_digits_unique(s: Seq<u8>)
    requires
        spec_canonical_digits(s),
        spec_digits_value(s) <= u64::MAX,
    ensures
        spec_dec_digits(spec_digits_value(s) as u64) == s,
    decreases s.len(),
{
    lemma_value_nonneg(s);
    let v = spec_digits_value(s);
    if s.len() == 1 {
        reveal_with_fuel(spec_digits_value, 2);
        assert(s.drop_last().len() == 0);
        assert(s.last() == s[0]);
        assert(v == s[0] - 48);
        assert(spec_dec_digits(v as u64) =~= s);
    } else {
        let t = s.drop_last();
        let d: int = s.last() - 48;
        assert(t[0] == s[0]);
        assert(spec_all_digits(t));
        assert(spec_canonical_digits(t));
        lemma_canonical_value_pos(t);
        lemma_value_nonneg(t);
        let vt = spec_digits_value(t);
        assert(v == vt * 10 + d);
        assert(vt <= u64::MAX) by (nonlinear_arith)
            requires v == vt * 10 + d, v <= u64::MAX, vt >= 1, 0 <= d <= 9;
        lemma_canonical_digits_unique(t);
        assert(v >= 10) by (nonlinear_arith)
            requires v == vt * 10 + d, vt >= 1, d >= 0;
        assert(v as u64 / 10 == vt && v as u64 % 10 == d) by (nonlinear_arith)
            requires v == vt * 10 + d, 0 <= d <= 9, vt >= 0, v <= u64::MAX;
        assert(spec_dec_digits(v as u64) == spec_dec_digits(vt as u64).push((d + 48) as u8));
        assert(spec_dec_digits(v as u64) =~= s);
    }
}

/// The value of a digit string never shrinks as the string extends.
proof fn lemma_value_prefix_mono(s: Seq<u8>, k: int)
    requires
        spec_all_digits(s),
        0 <= k <= s.len(),
    ensures
        spec_digits_value(s) >= spec_digits_value(s.take(k)),
    decreases s.len() - k,
{
    if k < s.len() {
        let t = s.take(k + 1);
        assert(t.drop_last() =~= s.take(k));
        assert(spec_all_digits(s.take(k)));
        lemma_value_nonneg(s.take(k));
        assert(spec_digits_value(t) == spec_digits_value(s.take(k)) * 10 + (s[k] - 48));
        lemma_value_prefix_mono(s, k + 1);
    } else {
        assert(s.take(k) =~= s);
    }
}

/// Where the digit run starting at `pos` ends.
pub open spec fn spec_digits_end(b: Seq<u8>, pos: int) -> int
    recommends
        0 <= pos <= b.len(),
    decreases b.len() - pos,
{
    if pos < b.len() && spec_is_digit(b[pos]) {
        spec_digits_end(b, pos + 1)
    } else {
        pos
    }
}

proof fn lemma_digits_end_props(b: Seq<u8>, pos: int)
    requires
        0 <= pos <= b.len(),
    ensures
        pos <= spec_digits_end(b, pos) <= b.len(),
        forall|i: int| pos <= i < spec_digits_end(b, pos) ==> spec_is_digit(#[trigger] b[i]),
        spec_digits_end(b, pos) < b.len() ==> !spec_is_digit(b[spec_digits_end(b, pos)]),
    decreases b.len() - pos,
{
    if pos < b.len() && spec_is_digit(b[pos]) {
        lemma_digits_end_props(b, pos + 1);
    }
}

/// The run ends exactly where the known digits end.
proof fn lemma_digits_end_exact(b: Seq<u8>, pos: int, end: int)
    requires
        0 <= pos <= end <= b.len(),
        forall|i: int| pos <= i < end ==> spec_is_digit(#[trigger] b[i]),
        end < b.len() ==> !spec_is_digit(b[end]),
    ensures
        spec_digits_end(b, pos) == end,
    decreases end - pos,
{
    if pos < end {
        lemma_digits_end_exact(b, pos + 1, end);
    }
}

/// A canonical `u64` numeral read at a position: `None` on an empty run, a
/// leading zero, or overflow.
pub open spec fn spec_parse_u64_at(b: Seq<u8>, pos: int) -> Option<(u64, int)>
    recommends
        0 <= pos <= b.len(),
{
    let end = spec_digits_end(b, pos);
    if end == pos {
        None
    } else if b[pos] == 48 && end - pos > 1 {
        None
    } else if spec_digits_value(b.subrange(pos, end)) > u64::MAX {
        None
    } else {
        Some((spec_digits_value(b.subrange(pos, end)) as u64, end))
    }
}

/// Reads a canonical decimal `u64` starting at `pos`.
fn scan_u64(bytes: &Vec<u8>, pos: usize) -> (r: Option<(u64, usize)>)
    requires
        pos <= bytes@.len(),
    ensures
        r is Some <==> spec_parse_u64_at(bytes@, pos as int) is Some,
        r is Some ==> r->Some_0.0 == spec_parse_u64_at(bytes@, pos as int)->Some_0.0
            && r->Some_0.1 == spec_parse_u64_at(bytes@, pos as int)->Some_0.1
            && pos < r->Some_0.1 <= bytes@.len(),
{
    let n = bytes.len();
    let mut j: usize = pos;
    while j < n && 48 <= bytes[j] && bytes[j] <= 57
        invariant
            pos <= j <= n,
            n == bytes@.len(),
            forall|k: int| pos <= k < j ==> spec_is_digit(#[trigger] bytes@[k]),
            spec_digits_end(bytes@, pos as int) == spec_digits_end(bytes@, j as int),
        decreases n - j,
    {
        j = j + 1;
    }
    proof {
        assert(spec_digits_end(bytes@, j as int) == j);
    }
    let end = j;
    if end == pos {
        return None;
    }
    if bytes[pos] == 48 && end - pos > 1 {
        return None;
    }
    let ghost digits = bytes@.subrange(pos as int, end as int);
    let mut acc: u64 = 0;
    let mut k: usize = pos;
    while k < end
        invariant
            pos < end,
            pos <= k <= end <= bytes@.len(),
            forall|t: int| pos <= t < end ==> spec_is_digit(#[trigger] bytes@[t]),
            digits == bytes@.subrange(pos as int, end as int),
            acc == spec_digits_value(digits.take(k - pos)),
            spec_digits_end(bytes@, pos as int) == end,
            !(bytes@[pos as int] == 48 && end - pos > 1),
        decreases end - k,
    {
        let d: u8 = bytes[k] - 48;
        proof {
            assert(spec_is_digit(bytes@[k as int]));
            lemma_value_nonneg(digits.take(k - pos));
            assert(digits.take(k - pos + 1).drop_last() =~= digits.take(k - pos));
            assert(digits.take(k - pos + 1).last() == bytes@[k as int]);
        }
        if acc > (u64::MAX - (d as u64)) / 10 {
            // The numeral exceeds u64 range; so does any extension of it.
            proof {
                let partial = digits.take(k - pos + 1);
                assert(acc * 10 + d > u64::MAX) by (nonlinear_arith)
                    requires acc > (u64::MAX - (d as u64)) / 10, 0 <= d <= 9, acc >= 0;
                assert(spec_digits_value(partial) > u64::MAX);
                assert(spec_all_digits(digits));
                lemma_value_prefix_mono(digits, k - pos + 1);
            }
            return None;
        }
        proof {
            assert(acc * 10 + d <= u64::MAX) by (nonlinear_arith)
                requires acc <= (u64::MAX - (d as u64)) / 10, 0 <= d <= 9, acc >= 0;
        }
        acc = acc * 10 + (d as u64);
        k = k + 1;
    }
    proof {
        assert(digits.take(end - pos) =~= digits);
        lemma_value_nonneg(digits);
    }
    Some((acc, end))
}

/// Appends the decimal digits of `n`.
fn render_u64_into(out: &mut Vec<u8>, n: u64)
    ensures
        final(out)@ == old(out)@ + spec_dec_digits(n),
    decreases n,
{
    if n < 10 {
        out.push((n as u8) + 48);
        proof {
            assert(out@ =~= old(out)@ + spec_dec_digits(n));
        }
    } else {
        render_u64_into(out, n / 10);
        out.push(((n % 10) as u8) + 48);
        proof {
            assert(out@ =~= old(out)@ + spec_dec_digits(n));
        }
    }
}

// ---------------------------------------------------------------------------
// The sidecar metadata form.
// ---------------------------------------------------------------------------

/// The bytes of `{"version":`.
pub open spec fn spec_meta_prefix() -> Seq<u8> {
    seq![123u8, 34u8, 118u8, 101u8, 114u8, 115u8, 105u8, 111u8, 110u8, 34u8, 58u8]
}

/// The bytes of `,"next_counter":`.
pub open spec fn spec_meta_mid() -> Seq<u8> {
    seq![44u8, 34u8, 110u8, 101u8, 120u8, 116u8, 95u8, 99u8, 111u8, 117u8, 110u8, 116u8, 101u8, 114u8, 34u8, 58u8]
}

/// The canonical sidecar text `{"version":V,"next_counter":C}`.
pub open spec fn spec_meta_json(version: u8, next_counter: u64) -> Seq<u8> {
    spec_meta_prefix() + spec_dec_digits(version as u64) + spec_meta_mid() + spec_dec_digits(next_counter)
        + seq![125u8]
}

/// The sidecar parser at the specification level.
pub open spec fn spec_parse_meta(b: Seq<u8>) -> Option<Meta> {
    if b.len() >= 11 && b.subrange(0, 11) == spec_meta_prefix() {
        match spec_parse_u64_at(b, 11) {
            Some((v, e1)) => if v <= 255 && e1 + 16 <= b.len() && b.subrange(e1, e1 + 16)
                == spec_meta_mid() {
                match spec_parse_u64_at(b, e1 + 16) {
                    Some((c, e2)) => if e2 + 1 == b.len() && b[e2] == 125 {
                        Some(Meta { version: v as u8, next_counter: c })
                    } else {
                        None
                    },
                    None => None,
                }
            } else {
                None
            },
            None => None,
        }
    } else {
        None
    }
}

fn meta_prefix() -> (r: Vec<u8>)
    ensures
        r@ == spec_meta_prefix(),
{
    let mut v: Vec<u8> = Vec::new();
    v.push(123u8);
    v.push(34u8);
    v.push(118u8);
    v.push(101u8);
    v.push(114u8);
    v.push(115u8);
    v.push(105u8);
    v.push(111u8);
    v.push(110u8);
    v.push(34u8);
    v.push(58u8);
    proof {
        assert(v@ =~= spec_meta_prefix());
    }
    v
}

fn meta_mid() -> (r: Vec<u8>)
    ensures
        r@ == spec_meta_mid(),
{
    let mut v: Vec<u8> = Vec::new();
    v.push(44u8);
    v.push(34u8);
    v.push(110u8);
    v.push(101u8);
    v.push(120u8);
    v.push(116u8);
    v.push(95u8);
    v.push(99u8);
    v.push(111u8);
    v.push(117u8);
    v.push(110u8);
    v.push(116u8);
    v.push(101u8);
    v.push(114u8);
    v.push(34u8);
    v.push(58u8);
    proof {
        assert(v@ =~= spec_meta_mid());
    }
    v
}

/// Does `bytes[pos..]` start with `lit`?
fn match_lit(bytes: &Vec<u8>, pos: usize, lit: &Vec<u8>) -> (r: bool)
    requires
        pos <= bytes@.len(),
    ensures
        r == (pos + lit@.len() <= bytes@.len() && bytes@.subrange(
            pos as int,
            pos as int + lit@.len() as int,
        ) == lit@),
{
    let n = bytes.len();
    let m = lit.len();
    if n - pos < m {
        return false;
    }
    let mut j: usize = 0;
    while j < m
        invariant
            0 <= j <= m,
            n == bytes@.len(),
            m == lit@.len(),
            pos + m <= n,
            forall|k: int| 0 <= k < j ==> bytes@[pos + k] == #[trigger] lit@[k],
        decreases m - j,
    {
        if bytes[pos + j] != lit[j] {
            proof {
                assert(bytes@.subrange(pos as int, pos as int + lit@.len() as int)[j as int]
                    != lit@[j as int]);
            }
            return false;
        }
        j = j + 1;
    }
    proof {
        assert(bytes@.subrange(pos as int, pos as int + lit@.len() as int) =~= lit@);
    }
    true
}

/// Renders the sidecar metadata in its canonical form.
pub fn render_meta(m: &Meta) -> (r: Vec<u8>)
    ensures
        r@ == spec_meta_json(m.version, m.next_counter),
{
    let mut out = meta_prefix();
    render_u64_into(&mut out, m.version as u64);
    let mut mid = meta_mid();
    out.append(&mut mid);
    render_u64_into(&mut out, m.next_counter);
    out.push(125u8);
    proof {
        assert(out@ =~= spec_meta_json(m.version, m.next_counter));
    }
    out
}

/// Parses the sidecar metadata; accepts exactly the canonical form.
pub fn parse_meta(bytes: &Vec<u8>) -> (r: Option<Meta>)
    ensures
        r == spec_parse_meta(bytes@),
{
    // Witnesses that the buffer length fits a usize, for the offset
    // arithmetic below.
    let total = bytes.len();
    proof {
        assert(total == bytes@.len());
    }
    let prefix = meta_prefix();
    if !match_lit(bytes, 0, &prefix) {
        return None;
    }
    match scan_u64(bytes, 11) {
        None => None,
        Some((v, e1)) => {
            if v > 255 {
                return None;
            }
            let mid = meta_mid();
            if !match_lit(bytes, e1, &mid) {
                return None;
            }
            proof {
                assert(e1 + mid@.len() <= bytes@.len());
            }
            match scan_u64(bytes, e1 + 16) {
                None => None,
                Some((c, e2)) => {
                    if bytes.len() - e2 == 1 && bytes[e2] == 125 {
                        Some(Meta { version: v as u8, next_counter: c })
                    } else {
                        None
                    }
                },
            }
        },
    }
}

/// Law (round trip, parsing side): the canonical rendering of any metadata
/// parses back to exactly that metadata.
pub proof fn lemma_parse_of_render_meta(version: u8, next_counter: u64)
    ensures
        spec_parse_meta(spec_meta_json(version, next_counter)) == Some(Meta { version, next_counter }),
{
    let b = spec_meta_json(version, next_counter);
    let dv = spec_dec_digits(version as u64);
    let dc = spec_dec_digits(next_counter);
    lemma_dec_digits_value(version as u64);
    lemma_dec_digits_value(next_counter);
    let e1 = 11 + dv.len() as int;
    let e2 = e1 + 16 + dc.len() as int;
    assert(b.subrange(0, 11) =~= spec_meta_prefix());
    assert(b.subrange(11, e1) =~= dv);
    assert(b.subrange(e1, e1 + 16) =~= spec_meta_mid());
    assert(b.subrange(e1 + 16, e2) =~= dc);
    assert(b[e2] == 125);
    assert(b.len() == e2 + 1);
    // version digits: the run ends right before the ',' of the separator.
    assert(b[e1] == 44);
    assert(forall|i: int| 11 <= i < e1 ==> spec_is_digit(#[trigger] b[i])) by {
        assert(forall|i: int| 11 <= i < e1 ==> b[i] == dv[i - 11]);
    }
    lemma_digits_end_exact(b, 11, e1);
    assert(b[11] == dv[0]);
    // counter digits: the run ends right before the closing brace.
    assert(b[e2] == 125);
    assert(forall|i: int| e1 + 16 <= i < e2 ==> spec_is_digit(#[trigger] b[i])) by {
        assert(forall|i: int| e1 + 16 <= i < e2 ==> b[i] == dc[i - (e1 + 16)]);
    }
    lemma_digits_end_exact(b, e1 + 16, e2);
    assert(b[e1 + 16] == dc[0]);
    assert(spec_parse_u64_at(b, 11) == Some((version as u64, e1)));
    assert(spec_parse_u64_at(b, e1 + 16) == Some((next_counter, e2)));
}

/// Law (round trip, rendering side): whatever the parser accepts is exactly
/// the canonical rendering of what it returned — the form is unambiguous.
pub proof fn lemma_render_of_parse_meta(b: Seq<u8>)
    requires
        spec_parse_meta(b) is Some,
    ensures
        spec_meta_json(
            spec_parse_meta(b)->Some_0.version,
            spec_parse_meta(b)->Some_0.next_counter,
        ) == b,
{
    let e1 = spec_parse_u64_at(b, 11)->Some_0.1;
    let v = spec_parse_u64_at(b, 11)->Some_0.0;
    let e2 = spec_parse_u64_at(b, e1 + 16)->Some_0.1;
    let c = spec_parse_u64_at(b, e1 + 16)->Some_0.0;
    lemma_digits_end_props(b, 11);
    lemma_digits_end_props(b, e1 + 16);
    let dv = b.subrange(11, e1);
    let dc = b.subrange(e1 + 16, e2);
    assert(spec_all_digits(dv)) by {
        assert(forall|i: int| 0 <= i < dv.len() ==> dv[i] == #[trigger] b[11 + i]);
    }
    assert(spec_all_digits(dc)) by {
        assert(forall|i: int| 0 <= i < dc.len() ==> dc[i] == #[trigger] b[e1 + 16 + i]);
    }
    assert(spec_canonical_digits(dv));
    assert(spec_canonical_digits(dc));
    lemma_value_nonneg(dv);
    lemma_value_nonneg(dc);
    lemma_canonical_digits_unique(dv);
    lemma_canonical_digits_unique(dc);
    assert(v <= 255);
    assert((v as u8) as u64 == v);
    assert(spec_meta_json(v as u8, c) =~= b);
}

// ---------------------------------------------------------------------------
// The preferences form.
// ---------------------------------------------------------------------------

/// The bytes of `{"auto_launch":`.
pub open spec fn spec_prefs_prefix() -> Seq<u8> {
    seq![123u8, 34u8, 97u8, 117u8, 116u8, 111u8, 95u8, 108u8, 97u8, 117u8, 110u8, 99u8, 104u8, 34u8, 58u8]
}

/// The canonical preferences text `{"auto_launch":B}`.
pub open spec fn spec_prefs_json(auto_launch: bool) -> Seq<u8> {
    spec_prefs_prefix() + (if auto_launch {
        seq![116u8, 114u8, 117u8, 101u8]
    } else {
        seq![102u8, 97u8, 108u8, 115u8, 101u8]
    }) + seq![125u8]
}

/// Renders the preferences in their canonical form.
pub fn render_prefs(p: &Prefs) -> (r: Vec<u8>)
    ensures
        r@ == spec_prefs_json(p.auto_launch),
{
    let mut out: Vec<u8> = Vec::new();
    out.push(123u8);
    out.push(34u8);
    out.push(97u8);
    out.push(117u8);
    out.push(116u8);
    out.push(111u8);
    out.push(95u8);
    out.push(108u8);
    out.push(97u8);
    out.push(117u8);
    out.push(110u8);
    out.push(99u8);
    out.push(104u8);
    out.push(34u8);
    out.push(58u8);
    if p.auto_launch {
        out.push(116u8);
        out.push(114u8);
        out.push(117u8);
        out.push(101u8);
    } else {
        out.push(102u8);
        out.push(97u8);
        out.push(108u8);
        out.push(115u8);
        out.push(101u8);
    }
    out.push(125u8);
    proof {
        assert(out@ =~= spec_prefs_json(p.auto_launch));
    }
    out
}

/// Parses the preferences; anything but a canonical rendering falls back to
/// the defaults, as an unreadable preferences file always has.
pub fn parse_prefs(bytes: &Vec<u8>) -> (r: Prefs)
    ensures
        r.auto_launch == (bytes@ == spec_prefs_json(true)),
{
    let on = render_prefs(&Prefs { auto_launch: true });
    if bytes.len() != on.len() {
        return Prefs { auto_launch: false };
    }
    let mut j: usize = 0;
    while j < bytes.len()
        invariant
            0 <= j <= bytes@.len(),
            bytes@.len() == on@.len(),
            forall|k: int| 0 <= k < j ==> bytes@[k] == #[trigger] on@[k],
            on@ == spec_prefs_json(true),
        decreases bytes@.len() - j,
    {
        if bytes[j] != on[j] {
            return Prefs { auto_launch: false };
        }
        j = j + 1;
    }
    proof {
        assert(bytes@ =~= on@);
    }
    Prefs { auto_launch: true }
}

} // verus!
