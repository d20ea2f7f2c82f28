//! Capture-region geometry: the rectangle type and the parser for the two
//! textual region forms, `"<x>,<y> <w>x<h>"` and `"<x> <y> <w> <h>"`.
//!
//! The parser works on bytes; `parse_geometry` accepts a `&str` and goes
//! through its UTF-8 bytes. A multi-byte character can never match one of
//! the ASCII delimiters, so the byte-level split agrees with a character
//! level one.

use vstd::prelude::*;
use vstd::string::StringSliceAdditionalSpecFns;

verus! {

/// A rectangle in pixels, in global or in one output's local coordinates.
#[derive(Clone, Copy, PartialEq, Eq, Structural, Debug)]
pub struct CaptureRegion {
    pub x_coordinate: i32,
    pub y_coordinate: i32,
    pub width: i32,
    pub height: i32,
}

// ---------------------------------------------------------------------------
// Byte classes
// ---------------------------------------------------------------------------

pub open spec fn is_ascii_digit(b: u8) -> bool {
    48 <= b && b <= 57
}

pub open spec fn is_ascii_space(b: u8) -> bool {
    b == 32 || (9 <= b && b <= 13)
}

// ---------------------------------------------------------------------------
// Decimal values
// ---------------------------------------------------------------------------

pub open spec fn all_digits(s: Seq<u8>) -> bool {
    forall|i: int| 0 <= i < s.len() ==> is_ascii_digit(#[trigger] s[i])
}

/// The value of a sequence of decimal digit bytes, most significant first.
pub open spec fn dec_val(s: Seq<u8>) -> int
    decreases s.len(),
{
    if s.len() == 0 {
        0
    } else {
        dec_val(s.drop_last()) * 10 + (s.last() - 48)
    }
}

/// The integer denoted by a byte string: an optional sign, then one or
/// more digits; anything else denotes nothing.
pub open spec fn int_of_bytes(s: Seq<u8>) -> Option<int> {
    if s.len() > 0 && (s[0] == 45 || s[0] == 43) {
        if s.len() > 1 && all_digits(s.skip(1)) {
            if s[0] == 45 {
                Some(-dec_val(s.skip(1)))
            } else {
                Some(dec_val(s.skip(1)))
            }
        } else {
            None
        }
    } else if s.len() > 0 && all_digits(s) {
        Some(dec_val(s))
    } else {
        None
    }
}

/// Signed 32-bit parse: the denoted integer, if it exists and fits.
pub open spec fn parse_i32_spec(s: Seq<u8>) -> Option<i32> {
    match int_of_bytes(s) {
        Some(v) => if i32::MIN <= v && v <= i32::MAX {
            Some(v as i32)
        } else {
            None
        },
        None => None,
    }
}

// ---------------------------------------------------------------------------
// Delimiters and trimming
// ---------------------------------------------------------------------------

/// Index of the first occurrence of `c` in `s`, if any.
pub open spec fn find_byte(s: Seq<u8>, c: u8) -> Option<int>
    decreases s.len(),
{
    if s.len() == 0 {
        None
    } else if s[0] == c {
        Some(0)
    } else {
        match find_byte(s.skip(1), c) {
            Some(i) => Some(i + 1),
            None => None,
        }
    }
}

/// Split at the first occurrence of `c`, the delimiter removed.
pub open spec fn split_at_byte(s: Seq<u8>, c: u8) -> Option<(Seq<u8>, Seq<u8>)> {
    match find_byte(s, c) {
        Some(i) => Some((s.take(i), s.skip(i + 1))),
        None => None,
    }
}

pub open spec fn trim_start_spec(s: Seq<u8>) -> Seq<u8>
    decreases s.len(),
{
    if s.len() > 0 && is_ascii_space(s[0]) {
        trim_start_spec(s.skip(1))
    } else {
        s
    }
}

pub open spec fn trim_end_spec(s: Seq<u8>) -> Seq<u8>
    decreases s.len(),
{
    if s.len() > 0 && is_ascii_space(s.last()) {
        trim_end_spec(s.drop_last())
    } else {
        s
    }
}

pub open spec fn trim_spec(s: Seq<u8>) -> Seq<u8> {
    trim_end_spec(trim_start_spec(s))
}

// ---------------------------------------------------------------------------
// The geometry grammar
// ---------------------------------------------------------------------------

pub open spec fn region_of_fields(
    xs: Seq<u8>,
    ys: Seq<u8>,
    ws: Seq<u8>,
    hs: Seq<u8>,
) -> Option<CaptureRegion> {
    match (parse_i32_spec(xs), parse_i32_spec(ys), parse_i32_spec(ws), parse_i32_spec(hs)) {
        (Some(x), Some(y), Some(w), Some(h)) => Some(
            CaptureRegion { x_coordinate: x, y_coordinate: y, width: w, height: h },
        ),
        _ => None,
    }
}

/// `"<x>,<y> <w>x<h>"`: comma, then space, then a literal `x`.
pub open spec fn comma_form_spec(s: Seq<u8>) -> Option<CaptureRegion> {
    match split_at_byte(s, 44) {
        Some((xs, rest)) => match split_at_byte(rest, 32) {
            Some((ys, rest2)) => match split_at_byte(rest2, 120) {
                Some((ws, hs)) => region_of_fields(xs, ys, ws, hs),
                None => None,
            },
            None => None,
        },
        None => None,
    }
}

/// `"<x> <y> <w> <h>"`: three spaces.
pub open spec fn space_form_spec(s: Seq<u8>) -> Option<CaptureRegion> {
    match split_at_byte(s, 32) {
        Some((xs, rest)) => match split_at_byte(rest, 32) {
            Some((ys, rest2)) => match split_at_byte(rest2, 32) {
                Some((ws, hs)) => region_of_fields(xs, ys, ws, hs),
                None => None,
            },
            None => None,
        },
        None => None,
    }
}

/// The whole grammar: trim, then the comma form if a comma occurs anywhere,
/// else the space form.
pub open spec fn parse_geometry_spec(s: Seq<u8>) -> Option<CaptureRegion> {
    let t = trim_spec(s);
    if find_byte(t, 44) is Some {
        comma_form_spec(t)
    } else {
        space_form_spec(t)
    }
}

// ---------------------------------------------------------------------------
// Facts about the spec functions
// ---------------------------------------------------------------------------

/// `find_byte` returns the first index holding `c`, or nothing when `c`
/// does not occur.
pub proof fn lemma_find_byte_characterization(s: Seq<u8>, c: u8)
    ensures
        match find_byte(s, c) {
            Some(i) => 0 <= i < s.len() && s[i] == c && (forall|j: int| 0 <= j < i ==> s[j] != c),
            None => forall|j: int| 0 <= j < s.len() ==> s[j] != c,
        },
    decreases s.len(),
{
    if s.len() > 0 && s[0] != c {
        lemma_find_byte_characterization(s.skip(1), c);
        let t = s.skip(1);
        assert forall|j: int| 0 <= j < t.len() implies t[j] == s[j + 1] by {}
        match find_byte(t, c) {
            Some(i) => {
                assert(s[i + 1] == c);
                assert forall|j: int| 0 <= j < i + 1 implies s[j] != c by {
                    if j > 0 {
                        assert(t[j - 1] != c);
                    }
                }
            },
            None => {
                assert forall|j: int| 0 <= j < s.len() implies s[j] != c by {
                    if j > 0 {
                        assert(t[j - 1] != c);
                    }
                }
            },
        }
    }
}

/// The first index holding `c` determines `find_byte`.
pub proof fn lemma_find_byte_at(s: Seq<u8>, c: u8, i: int)
    requires
        0 <= i < s.len(),
        s[i] == c,
        forall|j: int| 0 <= j < i ==> s[j] != c,
    ensures
        find_byte(s, c) == Some(i),
{
    lemma_find_byte_characterization(s, c);
    match find_byte(s, c) {
        Some(k) => {
            if k < i {
                assert(s[k] != c);
            } else if k > i {
                assert(s[i] != c);
            }
        },
        None => {
            assert(s[i] != c);
        },
    }
}

/// Dropping a known count of leading spaces is what `trim_start_spec` does.
proof fn lemma_trim_start_at(s: Seq<u8>, a: int)
    requires
        0 <= a <= s.len(),
        forall|j: int| 0 <= j < a ==> is_ascii_space(#[trigger] s[j]),
        a == s.len() || !is_ascii_space(s[a]),
    ensures
        trim_start_spec(s) == s.skip(a),
    decreases a,
{
    if a == 0 {
        assert(s.skip(0) =~= s);
    } else {
        assert(is_ascii_space(s[0]));
        lemma_trim_start_at(s.skip(1), a - 1);
        assert(s.skip(1).skip(a - 1) =~= s.skip(a));
    }
}

/// Dropping a known count of trailing spaces is what `trim_end_spec` does.
proof fn lemma_trim_end_at(s: Seq<u8>, b: int)
    requires
        0 <= b <= s.len(),
        forall|j: int| b <= j < s.len() ==> is_ascii_space(#[trigger] s[j]),
        b == 0 || !is_ascii_space(s[b - 1]),
    ensures
        trim_end_spec(s) == s.take(b),
    decreases s.len(),
{
    if b == s.len() {
        if s.len() > 0 {
            assert(!is_ascii_space(s.last()));
        }
        assert(s.take(b) =~= s);
    } else {
        assert(is_ascii_space(s.last()));
        lemma_trim_end_at(s.drop_last(), b);
        assert(s.drop_last().take(b) =~= s.take(b));
    }
}

// ---------------------------------------------------------------------------
// Executable helpers
// ---------------------------------------------------------------------------

/// First index of `c` in `s`, if any.
fn find_byte_exec(s: &[u8], c: u8) -> (r: Option<usize>)
    ensures
        r matches Some(i) ==> find_byte(s@, c) == Some(i as int),
        r is None ==> find_byte(s@, c) is None,
{
    let n = s.len();
    let mut i: usize = 0;
    while i < n
        invariant
            0 <= i <= n,
            n == s@.len(),
            forall|j: int| 0 <= j < i ==> s@[j] != c,
        decreases n - i,
    {
        if s[i] == c {
            proof {
                lemma_find_byte_at(s@, c, i as int);
            }
            return Some(i);
        }
        i = i + 1;
    }
    proof {
        lemma_find_byte_characterization(s@, c);
        match find_byte(s@, c) {
            Some(k) => {
                assert(s@[k] != c);
            },
            None => {},
        }
    }
    None
}

/// Split at the first occurrence of `c`; the delimiter is dropped.
fn split_once_byte<'a>(s: &'a [u8], c: u8) -> (r: Option<(&'a [u8], &'a [u8])>)
    ensures
        r matches Some((a, b)) ==> split_at_byte(s@, c) == Some((a@, b@)),
        r is None ==> split_at_byte(s@, c) is None,
{
    match find_byte_exec(s, c) {
        Some(i) => {
            let n = s.len();
            proof {
                lemma_find_byte_characterization(s@, c);
                assert((i as int) < s@.len());
            }
            let head = vstd::slice::slice_subrange(s, 0, i);
            let tail = vstd::slice::slice_subrange(s, i + 1, n);
            proof {
                assert(head@ =~= s@.take(i as int));
                assert(tail@ =~= s@.skip(i as int + 1));
            }
            Some((head, tail))
        },
        None => None,
    }
}

/// Strip leading and trailing ASCII whitespace.
fn trim_bytes<'a>(s: &'a [u8]) -> (r: &'a [u8])
    ensures
        r@ == trim_spec(s@),
{
    let n = s.len();
    let mut a: usize = 0;
    while a < n && (s[a] == 32 || (9 <= s[a] && s[a] <= 13))
        invariant
            0 <= a <= n,
            n == s@.len(),
            forall|j: int| 0 <= j < a ==> is_ascii_space(#[trigger] s@[j]),
        decreases n - a,
    {
        a = a + 1;
    }
    let mut b: usize = n;
    while b > a && (s[b - 1] == 32 || (9 <= s[b - 1] && s[b - 1] <= 13))
        invariant
            a <= b <= n,
            n == s@.len(),
            forall|j: int| b <= j < n ==> is_ascii_space(#[trigger] s@[j]),
        decreases b,
    {
        b = b - 1;
    }
    proof {
        lemma_trim_start_at(s@, a as int);
        let t = s@.skip(a as int);
        assert(forall|j: int| b - a <= j < t.len() ==> is_ascii_space(#[trigger] t[j]));
        if b > a {
            assert(!is_ascii_space(t[b - a - 1]));
        }
        lemma_trim_end_at(t, b - a);
        assert(t.take(b - a) =~= s@.subrange(a as int, b as int));
    }
    vstd::slice::slice_subrange(s, a, b)
}

proof fn lemma_dec_val_nonneg(s: Seq<u8>)
    requires
        all_digits(s),
    ensures
        dec_val(s) >= 0,
    decreases s.len(),
{
    if s.len() > 0 {
        assert(all_digits(s.drop_last())) by {
            assert(forall|i: int| 0 <= i < s.len() - 1 ==> s.drop_last()[i] == s[i]);
        }
        lemma_dec_val_nonneg(s.drop_last());
        assert(is_ascii_digit(s.last()));
    }
}

/// Appending digits never lowers the value.
proof fn lemma_dec_val_prefix_le(s: Seq<u8>, p: int)
    requires
        all_digits(s),
        0 <= p <= s.len(),
    ensures
        dec_val(s.take(p)) <= dec_val(s),
    decreases s.len() - p,
{
    if p < s.len() {
        let q = p + 1;
        lemma_dec_val_prefix_le(s, q);
        let t = s.take(q);
        assert(all_digits(t)) by {
            assert(forall|i: int| 0 <= i < q ==> t[i] == s[i]);
        }
        assert(t.drop_last() =~= s.take(p));
        assert(dec_val(t) == dec_val(s.take(p)) * 10 + (t.last() - 48));
        assert(all_digits(s.take(p))) by {
            assert(forall|i: int| 0 <= i < p ==> s.take(p)[i] == s[i]);
        }
        lemma_dec_val_nonneg(s.take(p));
        assert(is_ascii_digit(s[p]));
    } else {
        assert(s.take(p) =~= s);
    }
}

/// Digit-by-digit accumulation matches `dec_val`.
proof fn lemma_dec_val_step(s: Seq<u8>, p: int)
    requires
        0 <= p < s.len(),
    ensures
        dec_val(s.take(p + 1)) == dec_val(s.take(p)) * 10 + (s[p] - 48),
{
    let t = s.take(p + 1);
    assert(t.drop_last() =~= s.take(p));
    assert(t.last() == s[p]);
}

/// Parse a whole byte string as a signed 32-bit decimal integer.
fn parse_i32_bytes(s: &[u8]) -> (r: Option<i32>)
    ensures
        r == parse_i32_spec(s@),
{
    let n = s.len();
    if n == 0 {
        return None;
    }
    let neg = s[0] == 45;
    let start: usize = if neg || s[0] == 43 {
        1
    } else {
        0
    };
    if n == start {
        return None;
    }
    let ghost digits = s@.skip(start as int);
    proof {
        assert(digits.len() == n - start);
        assert(forall|j: int| 0 <= j < digits.len() ==> digits[j] == s@[start + j]);
    }
    let mut i: usize = start;
    let mut m: u64 = 0;
    while i < n
        invariant
            start <= i <= n,
            start < n,
            n == s@.len(),
            (s@[0] == 45 || s@[0] == 43) ==> start == 1,
            !(s@[0] == 45 || s@[0] == 43) ==> start == 0,
            neg == (s@[0] == 45),
            digits == s@.skip(start as int),
            all_digits(digits.take(i - start)),
            m == dec_val(digits.take(i - start)),
            m <= 0x8000_0000u64,
        decreases n - i,
    {
        let b = s[i];
        if b < 48 || b > 57 {
            proof {
                assert(digits[i - start] == b);
                assert(!all_digits(digits));
                assert(int_of_bytes(s@) is None) by {
                    if s@[0] == 45 || s@[0] == 43 {
                        assert(!all_digits(s@.skip(1)));
                    } else {
                        assert(s@.skip(0) =~= s@);
                        assert(!all_digits(s@));
                    }
                }
            }
            return None;
        }
        let d = (b - 48) as u64;
        let m2 = m * 10 + d;
        proof {
            lemma_dec_val_step(digits, i - start);
            assert(digits.take(i - start + 1).drop_last() =~= digits.take(i - start));
            assert(all_digits(digits.take(i - start + 1))) by {
                let t = digits.take(i - start + 1);
                assert(forall|j: int| 0 <= j < t.len() - 1 ==> t[j] == digits.take(i - start)[j]);
                assert(t[t.len() - 1] == b);
            }
        }
        if m2 > 0x8000_0000u64 {
            proof {
                if all_digits(digits) {
                    lemma_dec_val_prefix_le(digits, i - start + 1);
                    assert(dec_val(digits) >= m2 > 0x8000_0000);
                    if s@[0] == 45 || s@[0] == 43 {
                        assert(s@.skip(1) == digits);
                    } else {
                        assert(s@.skip(0) =~= s@);
                    }
                } else {
                    if s@[0] == 45 || s@[0] == 43 {
                        assert(s@.skip(1) == digits);
                    } else {
                        assert(s@.skip(0) =~= s@);
                    }
                }
            }
            return None;
        }
        m = m2;
        i = i + 1;
    }
    proof {
        assert(digits.take(n - start) =~= digits);
        if s@[0] == 45 || s@[0] == 43 {
            assert(s@.skip(1) == digits);
            assert(s@.len() > 1);
        } else {
            assert(s@.skip(0) =~= s@);
        }
    }
    if neg {
        let v = -(m as i64);
        proof {
            assert(int_of_bytes(s@) == Some(-dec_val(digits)));
            assert(v == -(m as int));
            assert(i32::MIN <= v <= i32::MAX);
        }
        Some(v as i32)
    } else {
        if m > 0x7FFF_FFFFu64 {
            proof {
                assert(int_of_bytes(s@) == Some(dec_val(digits)));
                assert(dec_val(digits) > i32::MAX);
            }
            return None;
        }
        Some(m as i32)
    }
}

/// Parse the four fields produced by the splits.
fn region_of_fields_exec(xs: &[u8], ys: &[u8], ws: &[u8], hs: &[u8]) -> (r: Option<CaptureRegion>)
    ensures
        r == region_of_fields(xs@, ys@, ws@, hs@),
{
    let x = parse_i32_bytes(xs);
    let y = parse_i32_bytes(ys);
    let w = parse_i32_bytes(ws);
    let h = parse_i32_bytes(hs);
    match (x, y, w, h) {
        (Some(x), Some(y), Some(w), Some(h)) => Some(
            CaptureRegion { x_coordinate: x, y_coordinate: y, width: w, height: h },
        ),
        _ => None,
    }
}

/// Parse a region specification given as bytes.
///
/// Two forms are accepted, told apart by whether a comma occurs anywhere
/// in the trimmed input: `"<x>,<y> <w>x<h>"` and `"<x> <y> <w> <h>"`.
/// Fields are signed decimal integers; a malformed field or a missing
/// delimiter yields `None`. Width and height are not checked for
/// positivity here; the intersection step enforces that later.
pub fn parse_geometry_bytes(g: &[u8]) -> (r: Option<CaptureRegion>)
    ensures
        r == parse_geometry_spec(g@),
{
    let t = trim_bytes(g);
    match find_byte_exec(t, 44) {
        Some(_) => {
            match split_once_byte(t, 44) {
                Some((xs, rest)) => match split_once_byte(rest, 32) {
                    Some((ys, rest2)) => match split_once_byte(rest2, 120) {
                        Some((ws, hs)) => region_of_fields_exec(xs, ys, ws, hs),
                        None => None,
                    },
                    None => None,
                },
                None => None,
            }
        },
        None => {
            match split_once_byte(t, 32) {
                Some((xs, rest)) => match split_once_byte(rest, 32) {
                    Some((ys, rest2)) => match split_once_byte(rest2, 32) {
                        Some((ws, hs)) => region_of_fields_exec(xs, ys, ws, hs),
                        None => None,
                    },
                    None => None,
                },
                None => None,
            }
        },
    }
}

/// Parse a region specification string, as handed in on the command line.
pub fn parse_geometry(g: &str) -> (r: Option<CaptureRegion>)
    ensures
        r == parse_geometry_spec(g.spec_bytes()),
{
    parse_geometry_bytes(g.as_bytes())
}

// ---------------------------------------------------------------------------
// Formatting
// ---------------------------------------------------------------------------

/// Decimal digits of `n`, most significant first, no leading zero except
/// for `n == 0` itself.
pub open spec fn dec_repr(n: nat) -> Seq<u8>
    decreases n,
{
    if n < 10 {
        seq![(48 + n) as u8]
    } else {
        dec_repr(n / 10).push((48 + n % 10) as u8)
    }
}

/// Decimal form of a signed value: a `-` for negatives, then digits.
pub open spec fn i32_repr(v: int) -> Seq<u8> {
    if v < 0 {
        seq![45u8] + dec_repr((-v) as nat)
    } else {
        dec_repr(v as nat)
    }
}

/// `"<x>,<y> <w>x<h>"` for a region.
pub open spec fn geometry_comma_repr(r: CaptureRegion) -> Seq<u8> {
    i32_repr(r.x_coordinate as int) + seq![44u8] + i32_repr(r.y_coordinate as int) + seq![32u8]
        + i32_repr(r.width as int) + seq![120u8] + i32_repr(r.height as int)
}

/// `"<x> <y> <w> <h>"` for a region.
pub open spec fn geometry_space_repr(r: CaptureRegion) -> Seq<u8> {
    i32_repr(r.x_coordinate as int) + seq![32u8] + i32_repr(r.y_coordinate as int) + seq![32u8]
        + i32_repr(r.width as int) + seq![32u8] + i32_repr(r.height as int)
}

/// Append the decimal digits of `n`.
fn push_dec(out: &mut Vec<u8>, n: u64)
    ensures
        final(out)@ == old(out)@ + dec_repr(n as nat),
    decreases n,
{
    if n < 10 {
        out.push((48 + n) as u8);
        proof {
            assert(out@ =~= old(out)@ + dec_repr(n as nat));
        }
    } else {
        push_dec(out, n / 10);
        out.push(48 + (n % 10) as u8);
        proof {
            assert(out@ =~= old(out)@ + dec_repr(n as nat));
        }
    }
}

/// Append the decimal form of a signed value.
fn push_i32(out: &mut Vec<u8>, v: i32)
    ensures
        final(out)@ == old(out)@ + i32_repr(v as int),
{
    if v < 0 {
        out.push(45);
        let m = -(v as i64);
        push_dec(out, m as u64);
        proof {
            assert(out@ =~= old(out)@ + i32_repr(v as int));
        }
    } else {
        push_dec(out, v as u64);
    }
}

/// Render a region in the `"<x>,<y> <w>x<h>"` form.
pub fn format_geometry_comma(r: &CaptureRegion) -> (out: Vec<u8>)
    ensures
        out@ == geometry_comma_repr(*r),
{
    let mut out: Vec<u8> = Vec::new();
    push_i32(&mut out, r.x_coordinate);
    out.push(44);
    push_i32(&mut out, r.y_coordinate);
    out.push(32);
    push_i32(&mut out, r.width);
    out.push(120);
    push_i32(&mut out, r.height);
    proof {
        assert(out@ =~= geometry_comma_repr(*r));
    }
    out
}

/// Render a region in the `"<x> <y> <w> <h>"` form.
pub fn format_geometry_spaces(r: &CaptureRegion) -> (out: Vec<u8>)
    ensures
        out@ == geometry_space_repr(*r),
{
    let mut out: Vec<u8> = Vec::new();
    push_i32(&mut out, r.x_coordinate);
    out.push(32);
    push_i32(&mut out, r.y_coordinate);
    out.push(32);
    push_i32(&mut out, r.width);
    out.push(32);
    push_i32(&mut out, r.height);
    proof {
        assert(out@ =~= geometry_space_repr(*r));
    }
    out
}

// ---------------------------------------------------------------------------
// Round trip: formatting then parsing recovers the region
// ---------------------------------------------------------------------------

pub open spec fn no_byte(s: Seq<u8>, c: u8) -> bool {
    forall|j: int| 0 <= j < s.len() ==> s[j] != c
}

/// The shape of a formatted integer: a digit or `-` first, digits after.
pub open spec fn sign_digit_shape(s: Seq<u8>) -> bool {
    s.len() >= 1 && (is_ascii_digit(s[0]) || s[0] == 45) && (forall|j: int|
        1 <= j < s.len() ==> is_ascii_digit(#[trigger] s[j]))
}

proof fn lemma_dec_repr_digits(n: nat)
    ensures
        dec_repr(n).len() >= 1,
        all_digits(dec_repr(n)),
        dec_val(dec_repr(n)) == n,
    decreases n,
{
    if n < 10 {
        let s = dec_repr(n);
        assert(s.drop_last() =~= Seq::<u8>::empty());
        assert(dec_val(s) == dec_val(s.drop_last()) * 10 + (s.last() - 48));
    } else {
        lemma_dec_repr_digits(n / 10);
        let p = dec_repr(n / 10);
        let s = dec_repr(n);
        assert(s.drop_last() =~= p);
        assert(s.last() == (48 + n % 10) as u8);
        assert(all_digits(s)) by {
            assert(forall|j: int| 0 <= j < p.len() ==> s[j] == p[j]);
            assert(is_ascii_digit(s[s.len() - 1]));
        }
        assert(dec_val(s) == dec_val(p) * 10 + (n % 10));
        assert(n / 10 * 10 + n % 10 == n) by {
            vstd::arithmetic::div_mod::lemma_fundamental_div_mod(n as int, 10);
        }
    }
}

/// A formatted 32-bit value parses back to itself.
proof fn lemma_i32_repr_parses(v: int)
    requires
        i32::MIN <= v <= i32::MAX,
    ensures
        parse_i32_spec(i32_repr(v)) == Some(v as i32),
        sign_digit_shape(i32_repr(v)),
        is_ascii_digit(i32_repr(v).last()),
{
    if v < 0 {
        lemma_dec_repr_digits((-v) as nat);
        let d = dec_repr((-v) as nat);
        let s = i32_repr(v);
        assert(s.len() == 1 + d.len());
        assert(s[0] == 45u8);
        assert(s.skip(1) =~= d);
        assert(s.last() == d.last());
        assert(is_ascii_digit(d[d.len() - 1]));
        assert(sign_digit_shape(s)) by {
            assert(forall|j: int| 1 <= j < s.len() ==> s[j] == d[j - 1]);
        }
        assert(int_of_bytes(s) == Some(-dec_val(d)));
        assert(-dec_val(d) == v);
    } else {
        lemma_dec_repr_digits(v as nat);
        let s = i32_repr(v);
        assert(is_ascii_digit(s[0]));
        assert(s[0] != 45u8 && s[0] != 43u8);
        assert(int_of_bytes(s) == Some(dec_val(s)));
        assert(is_ascii_digit(s[s.len() - 1]));
    }
}

/// Splitting at a delimiter that occurs just after `a` yields `a` and `b`.
proof fn lemma_split_concat(a: Seq<u8>, c: u8, b: Seq<u8>)
    requires
        no_byte(a, c),
    ensures
        split_at_byte(a + seq![c] + b, c) == Some((a, b)),
        find_byte(a + seq![c] + b, c) == Some(a.len() as int),
{
    let s = a + seq![c] + b;
    assert(s[a.len() as int] == c);
    assert forall|j: int| 0 <= j < a.len() implies s[j] != c by {
        assert(s[j] == a[j]);
    }
    lemma_find_byte_at(s, c, a.len() as int);
    assert(s.take(a.len() as int) =~= a);
    assert(s.skip(a.len() as int + 1) =~= b);
}

proof fn lemma_no_byte_concat3(a: Seq<u8>, m: u8, b: Seq<u8>, c: u8)
    requires
        no_byte(a, c),
        no_byte(b, c),
        m != c,
    ensures
        no_byte(a + seq![m] + b, c),
{
    let s = a + seq![m] + b;
    assert forall|j: int| 0 <= j < s.len() implies s[j] != c by {
        if j < a.len() {
            assert(s[j] == a[j]);
        } else if j == a.len() {
            assert(s[j] == m);
        } else {
            assert(s[j] == b[j - a.len() - 1]);
        }
    }
}

proof fn lemma_shape_no_byte(s: Seq<u8>, c: u8)
    requires
        sign_digit_shape(s),
        !is_ascii_digit(c),
        c != 45,
    ensures
        no_byte(s, c),
{
    assert forall|j: int| 0 <= j < s.len() implies s[j] != c by {
        if j > 0 {
            assert(is_ascii_digit(s[j]));
        }
    }
}

/// Law: formatting any region in the comma form and parsing it back
/// recovers the region exactly.
#[verifier::rlimit(50)]
pub proof fn lemma_geometry_round_trip_comma(r: CaptureRegion)
    ensures
        parse_geometry_spec(geometry_comma_repr(r)) == Some(r),
{
    let a = i32_repr(r.x_coordinate as int);
    let b = i32_repr(r.y_coordinate as int);
    let c = i32_repr(r.width as int);
    let d = i32_repr(r.height as int);
    lemma_i32_repr_parses(r.x_coordinate as int);
    lemma_i32_repr_parses(r.y_coordinate as int);
    lemma_i32_repr_parses(r.width as int);
    lemma_i32_repr_parses(r.height as int);
    let s0 = geometry_comma_repr(r);
    let rest2 = c + seq![120u8] + d;
    let rest1 = b + seq![32u8] + rest2;
    assert(s0 =~= a + seq![44u8] + rest1);

    assert(s0[0] == a[0]);
    assert(!is_ascii_space(s0[0]));
    assert(s0.last() == d.last());
    assert(!is_ascii_space(s0.last()));
    lemma_trim_start_at(s0, 0);
    assert(s0.skip(0) =~= s0);
    lemma_trim_end_at(s0, s0.len() as int);
    assert(s0.take(s0.len() as int) =~= s0);
    assert(trim_spec(s0) == s0);

    lemma_shape_no_byte(a, 44);
    lemma_split_concat(a, 44, rest1);
    lemma_shape_no_byte(b, 32);
    lemma_split_concat(b, 32, rest2);
    lemma_shape_no_byte(c, 120);
    lemma_split_concat(c, 120, d);
}

/// Law: formatting any region in the space form and parsing it back
/// recovers the region exactly.
#[verifier::rlimit(50)]
pub proof fn lemma_geometry_round_trip_spaces(r: CaptureRegion)
    ensures
        parse_geometry_spec(geometry_space_repr(r)) == Some(r),
{
    let a = i32_repr(r.x_coordinate as int);
    let b = i32_repr(r.y_coordinate as int);
    let c = i32_repr(r.width as int);
    let d = i32_repr(r.height as int);
    lemma_i32_repr_parses(r.x_coordinate as int);
    lemma_i32_repr_parses(r.y_coordinate as int);
    lemma_i32_repr_parses(r.width as int);
    lemma_i32_repr_parses(r.height as int);
    let s0 = geometry_space_repr(r);
    let rest2 = c + seq![32u8] + d;
    let rest1 = b + seq![32u8] + rest2;
    assert(s0 =~= a + seq![32u8] + rest1);

    assert(s0[0] == a[0]);
    assert(!is_ascii_space(s0[0]));
    assert(s0.last() == d.last());
    assert(!is_ascii_space(s0.last()));
    lemma_trim_start_at(s0, 0);
    assert(s0.skip(0) =~= s0);
    lemma_trim_end_at(s0, s0.len() as int);
    assert(s0.take(s0.len() as int) =~= s0);
    assert(trim_spec(s0) == s0);

    lemma_shape_no_byte(a, 44);
    lemma_shape_no_byte(b, 44);
    lemma_shape_no_byte(c, 44);
    lemma_shape_no_byte(d, 44);
    lemma_no_byte_concat3(c, 32, d, 44);
    lemma_no_byte_concat3(b, 32, rest2, 44);
    lemma_no_byte_concat3(a, 32, rest1, 44);
    lemma_find_byte_characterization(s0, 44);
    match find_byte(s0, 44) {
        Some(i) => {
            assert(s0[i] != 44);
        },
        None => {},
    }

    lemma_shape_no_byte(a, 32);
    lemma_split_concat(a, 32, rest1);
    lemma_shape_no_byte(b, 32);
    lemma_split_concat(b, 32, rest2);
    lemma_shape_no_byte(c, 32);
    lemma_split_concat(c, 32, d);
}

} // verus!
