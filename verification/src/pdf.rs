//! Text from PDF content streams: the string operands of the text-showing
//! operators `(...) Tj`, `<...> Tj` and `[...] TJ`.
//!
//! The scanner handles the common Latin case and ignores advanced encodings.
//! Its behaviour is given by the recursive spec functions below, one per
//! scanning loop: each takes the position it starts from and returns where
//! it stops, with what it collected.

use vstd::prelude::*;
use vstd::utf8::*;
use crate::text::{push_char, push_str};

verus! {

/// What `String::from_utf8_lossy` makes of `bytes`.
pub uninterp spec fn lossy_utf8(bytes: Seq<u8>) -> Seq<char>;

/// `String::from_utf8_lossy`, owned: decodes UTF-8, replacing each invalid
/// sequence with U+FFFD. Stated: the result is a function of the bytes, and
/// valid UTF-8 decodes unchanged (as its documentation says). The
/// replacement rule for invalid input is not stated.
#[verifier::external_body]
fn utf8_lossy(bytes: &[u8]) -> (s: String)
    ensures
        s@ == lossy_utf8(bytes@),
        valid_utf8(bytes@) ==> s@ == decode_utf8(bytes@),
{
    String::from_utf8_lossy(bytes).into_owned()
}

/// Decode PDFDocEncoding-Latin-ish bytes to text: printable ASCII passes
/// through, other bytes are decoded as UTF-8 with replacement.
pub fn pdf_text(bytes: &[u8]) -> (s: String)
    ensures
        s@ == lossy_utf8(bytes@),
        valid_utf8(bytes@) ==> s@ == decode_utf8(bytes@),
{
    utf8_lossy(bytes)
}

pub open spec fn is_ws(b: u8) -> bool {
    b == 32 || b == 9 || b == 13 || b == 10
}

/// The first position at or after `i` that is not PDF whitespace.
pub open spec fn skip_ws_spec(bytes: Seq<u8>, i: int) -> int
    decreases bytes.len() - i,
{
    if 0 <= i < bytes.len() && is_ws(bytes[i]) {
        skip_ws_spec(bytes, i + 1)
    } else {
        i
    }
}

/// After optional whitespace from `start`, the bytes read `Tj` or `TJ`.
pub open spec fn text_op_at(bytes: Seq<u8>, start: int) -> bool {
    let s = skip_ws_spec(bytes, start);
    s + 2 <= bytes.len() && bytes[s] == 84 && (bytes[s + 1] == 106 || bytes[s + 1] == 74)
}

/// The first position at or after `from` holding `target`.
pub open spec fn find_byte_spec(bytes: Seq<u8>, from: int, target: u8) -> Option<int>
    decreases bytes.len() - from,
{
    if from < 0 || from >= bytes.len() {
        None
    } else if bytes[from] == target {
        Some(from)
    } else {
        find_byte_spec(bytes, from + 1, target)
    }
}

/// Where a literal string whose nesting is `depth` at `j` ends, for the
/// bracket matcher: a backslash skips the byte after it.
pub open spec fn skip_literal(bytes: Seq<u8>, j: int, depth: int) -> int
    decreases bytes.len() + 1 - j,
{
    if j < 0 || j >= bytes.len() || depth <= 0 {
        j
    } else if bytes[j] == 92 {
        skip_literal(bytes, j + 2, depth)
    } else if bytes[j] == 40 {
        skip_literal(bytes, j + 1, depth + 1)
    } else if bytes[j] == 41 {
        skip_literal(bytes, j + 1, depth - 1)
    } else {
        skip_literal(bytes, j + 1, depth)
    }
}

pub proof fn lemma_skip_literal_ge(bytes: Seq<u8>, j: int, depth: int)
    ensures
        skip_literal(bytes, j, depth) >= j,
        j <= bytes.len() + 1 ==> skip_literal(bytes, j, depth) <= bytes.len() + 1,
    decreases bytes.len() + 1 - j,
{
    if !(j < 0 || j >= bytes.len() || depth <= 0) {
        if bytes[j] == 92 {
            lemma_skip_literal_ge(bytes, j + 2, depth);
        } else if bytes[j] == 40 {
            lemma_skip_literal_ge(bytes, j + 1, depth + 1);
        } else if bytes[j] == 41 {
            lemma_skip_literal_ge(bytes, j + 1, depth - 1);
        } else {
            lemma_skip_literal_ge(bytes, j + 1, depth);
        }
    }
}

/// The position of the `]` that closes an array whose nesting is `depth` at
/// position `i`; literal strings inside are skipped.
pub open spec fn bracket_scan(bytes: Seq<u8>, i: int, depth: int) -> Option<int>
    decreases bytes.len() + 1 - i,
{
    if i < 0 || i >= bytes.len() {
        None
    } else if bytes[i] == 91 {
        bracket_scan(bytes, i + 1, depth + 1)
    } else if bytes[i] == 93 {
        if depth - 1 == 0 {
            Some(i)
        } else {
            bracket_scan(bytes, i + 1, depth - 1)
        }
    } else if bytes[i] == 40 {
        let j = skip_literal(bytes, i + 1, 1);
        proof {
            lemma_skip_literal_ge(bytes, i + 1, 1);
        }
        bracket_scan(bytes, j, depth)
    } else {
        bracket_scan(bytes, i + 1, depth)
    }
}

pub open spec fn is_hex_digit(b: u8) -> bool {
    (48 <= b <= 57) || (97 <= b <= 102) || (65 <= b <= 70)
}

pub open spec fn hex_value(b: u8) -> u8 {
    if 48 <= b <= 57 {
        (b - 48) as u8
    } else if 97 <= b <= 102 {
        (b - 87) as u8
    } else if 65 <= b <= 70 {
        (b - 55) as u8
    } else {
        0
    }
}

/// Reading the hex digits of `hex` in order, pairing them into bytes: the
/// bytes completed so far and a pending high nibble.
pub open spec fn hex_pairs(hex: Seq<u8>) -> (Seq<u8>, Option<u8>)
    decreases hex.len(),
{
    if hex.len() == 0 {
        (Seq::empty(), None)
    } else {
        let (done, pending) = hex_pairs(hex.drop_last());
        let c = hex.last();
        if !is_hex_digit(c) {
            (done, pending)
        } else {
            match pending {
                None => (done, Some(hex_value(c))),
                Some(h) => (done.push((h * 16 + hex_value(c)) as u8), None),
            }
        }
    }
}

/// The bytes of a PDF hex string body: non-digits are ignored, digits pair
/// up high nibble first, and a lone last digit stands for its high nibble.
pub open spec fn hex_string_bytes(hex: Seq<u8>) -> Seq<u8> {
    let (done, pending) = hex_pairs(hex);
    match pending {
        Some(h) => done.push((h * 16) as u8),
        None => done,
    }
}

/// The byte that the escape `\n` stands for in a literal string, for a
/// non-octal `n`.
pub open spec fn escaped_byte(n: u8) -> u8 {
    if n == 110 {
        10
    } else if n == 114 {
        13
    } else if n == 116 {
        9
    } else if n == 98 {
        8
    } else if n == 102 {
        12
    } else {
        n
    }
}

pub open spec fn is_octal(b: u8) -> bool {
    48 <= b <= 55
}

/// An octal escape whose first digit is at `j + 1`: having read `k` digits
/// with value `val`, reads up to three in all; returns how many were read
/// and their value modulo 256.
pub open spec fn octal_scan(bytes: Seq<u8>, j: int, k: int, val: u8) -> (int, u8)
    decreases 3 - k,
{
    if k < 3 && j + 1 + k < bytes.len() && is_octal(bytes[j + 1 + k]) {
        octal_scan(bytes, j, k + 1, val.wrapping_mul(8).wrapping_add((bytes[j + 1 + k] - 48) as u8))
    } else {
        (k, val)
    }
}

pub proof fn lemma_octal_scan(bytes: Seq<u8>, j: int, k: int, val: u8)
    requires
        1 <= k <= 3,
    ensures
        k <= octal_scan(bytes, j, k, val).0 <= 3,
        octal_scan(bytes, j, k, val).0 > k ==> j + octal_scan(bytes, j, k, val).0 < bytes.len(),
    decreases 3 - k,
{
    if k < 3 && j + 1 + k < bytes.len() && is_octal(bytes[j + 1 + k]) {
        lemma_octal_scan(
            bytes,
            j,
            k + 1,
            val.wrapping_mul(8).wrapping_add((bytes[j + 1 + k] - 48) as u8),
        );
    }
}

/// A literal string body read from `j` with nesting `depth`, having
/// collected `s`: returns the position of the closing `)` (or where the
/// bytes ran out) and the decoded bytes.
pub open spec fn literal_scan(bytes: Seq<u8>, j: int, depth: int, s: Seq<u8>) -> (int, Seq<u8>)
    decreases bytes.len() + 1 - j,
{
    if j < 0 || j >= bytes.len() || depth <= 0 {
        (j, s)
    } else if bytes[j] == 92 && j + 1 < bytes.len() {
        let n = bytes[j + 1];
        if is_octal(n) {
            let (k, val) = octal_scan(bytes, j, 1, (n - 48) as u8);
            proof {
                lemma_octal_scan(bytes, j, 1, (n - 48) as u8);
            }
            literal_scan(bytes, j + k + 1, depth, s.push(val))
        } else {
            literal_scan(bytes, j + 2, depth, s.push(escaped_byte(n)))
        }
    } else if bytes[j] == 40 {
        literal_scan(bytes, j + 1, depth + 1, s.push(40))
    } else if bytes[j] == 41 {
        if depth - 1 == 0 {
            (j, s)
        } else {
            literal_scan(bytes, j + 1, depth - 1, s.push(41))
        }
    } else {
        literal_scan(bytes, j + 1, depth, s.push(bytes[j]))
    }
}

pub proof fn lemma_literal_scan_bounds(bytes: Seq<u8>, j: int, depth: int, s: Seq<u8>)
    requires
        0 <= j,
    ensures
        j <= literal_scan(bytes, j, depth, s).0,
        literal_scan(bytes, j, depth, s).0 <= if j <= bytes.len() {
            bytes.len() + 1int
        } else {
            j
        },
    decreases bytes.len() + 1 - j,
{
    if !(j < 0 || j >= bytes.len() || depth <= 0) {
        if bytes[j] == 92 && j + 1 < bytes.len() {
            let n = bytes[j + 1];
            if is_octal(n) {
                let (k, val) = octal_scan(bytes, j, 1, (n - 48) as u8);
                lemma_octal_scan(bytes, j, 1, (n - 48) as u8);
                lemma_literal_scan_bounds(bytes, j + k + 1, depth, s.push(val));
            } else {
                lemma_literal_scan_bounds(bytes, j + 2, depth, s.push(escaped_byte(n)));
            }
        } else if bytes[j] == 40 {
            lemma_literal_scan_bounds(bytes, j + 1, depth + 1, s.push(40));
        } else if bytes[j] == 41 {
            if depth - 1 != 0 {
                lemma_literal_scan_bounds(bytes, j + 1, depth - 1, s.push(41));
            }
        } else {
            lemma_literal_scan_bounds(bytes, j + 1, depth, s.push(bytes[j]));
        }
    }
}

/// A literal string inside a `TJ` array, read from `j` with nesting
/// `depth`: a backslash takes the next byte as it is.
pub open spec fn array_literal_scan(seg: Seq<u8>, j: int, depth: int, s: Seq<u8>) -> (int, Seq<u8>)
    decreases seg.len() - j,
{
    if j < 0 || j >= seg.len() || depth <= 0 {
        (j, s)
    } else if seg[j] == 92 && j + 1 < seg.len() {
        array_literal_scan(seg, j + 2, depth, s.push(seg[j + 1]))
    } else if seg[j] == 40 {
        array_literal_scan(seg, j + 1, depth + 1, s.push(40))
    } else if seg[j] == 41 {
        if depth - 1 == 0 {
            (j, s)
        } else {
            array_literal_scan(seg, j + 1, depth - 1, s.push(41))
        }
    } else {
        array_literal_scan(seg, j + 1, depth, s.push(seg[j]))
    }
}

pub proof fn lemma_array_literal_scan_bounds(seg: Seq<u8>, j: int, depth: int, s: Seq<u8>)
    requires
        0 <= j,
    ensures
        j <= array_literal_scan(seg, j, depth, s).0,
        array_literal_scan(seg, j, depth, s).0 <= if j <= seg.len() {
            seg.len() as int
        } else {
            j
        },
    decreases seg.len() - j,
{
    if !(j < 0 || j >= seg.len() || depth <= 0) {
        if seg[j] == 92 && j + 1 < seg.len() {
            lemma_array_literal_scan_bounds(seg, j + 2, depth, s.push(seg[j + 1]));
        } else if seg[j] == 40 {
            lemma_array_literal_scan_bounds(seg, j + 1, depth + 1, s.push(40));
        } else if seg[j] == 41 {
            if depth - 1 != 0 {
                lemma_array_literal_scan_bounds(seg, j + 1, depth - 1, s.push(41));
            }
        } else {
            lemma_array_literal_scan_bounds(seg, j + 1, depth, s.push(seg[j]));
        }
    }
}

/// The text of every literal string of a `TJ` array body `seg` from `k` on,
/// appended to `out`.
pub open spec fn array_texts(seg: Seq<u8>, k: int, out: Seq<char>) -> Seq<char>
    decreases seg.len() + 1 - k,
{
    if k < 0 || k >= seg.len() {
        out
    } else if seg[k] == 40 {
        let (j, s) = array_literal_scan(seg, k + 1, 1, Seq::empty());
        proof {
            lemma_array_literal_scan_bounds(seg, k + 1, 1, Seq::empty());
        }
        array_texts(seg, j + 1, out + lossy_utf8(s))
    } else {
        array_texts(seg, k + 1, out)
    }
}

/// `out` with a space appended unless it already ends in a space or a
/// newline (a `TJ` array marks a gap between words).
pub open spec fn with_gap(out: Seq<char>) -> Seq<char> {
    if out.len() > 0 && (out.last() == ' ' || out.last() == '\n') {
        out
    } else {
        out.push(' ')
    }
}

/// The text that scanning a content stream from `i` appends to `out`.
pub open spec fn content_text(bytes: Seq<u8>, i: int, out: Seq<char>) -> Seq<char>
    decreases bytes.len() + 3 - i,
{
    if i < 0 || i >= bytes.len() {
        out
    } else if bytes[i] == 40 {
        let (j, s) = literal_scan(bytes, i + 1, 1, Seq::empty());
        proof {
            lemma_literal_scan_bounds(bytes, i + 1, 1, Seq::empty());
        }
        let out2 = if text_op_at(bytes, j + 1) {
            out + lossy_utf8(s)
        } else {
            out
        };
        content_text(bytes, j + 2, out2)
    } else if bytes[i] == 60 {
        match find_byte_spec(bytes, i + 1, 62) {
            Some(close) => {
                proof {
                    lemma_find_byte_ge(bytes, i + 1, 62);
                }
                let out2 = if text_op_at(bytes, close + 1) {
                    out + lossy_utf8(hex_string_bytes(bytes.subrange(i + 1, close)))
                } else {
                    out
                };
                content_text(bytes, close + 1, out2)
            },
            None => content_text(bytes, i + 1, out),
        }
    } else if bytes[i] == 91 {
        match bracket_scan(bytes, i + 1, 1) {
            Some(close) => {
                proof {
                    lemma_bracket_scan_ge(bytes, i + 1, 1);
                }
                let out2 = with_gap(array_texts(bytes.subrange(i + 1, close), 0, out));
                content_text(bytes, close + 1, out2)
            },
            None => content_text(bytes, i + 1, out),
        }
    } else {
        content_text(bytes, i + 1, out)
    }
}

pub proof fn lemma_find_byte_ge(bytes: Seq<u8>, from: int, target: u8)
    ensures
        find_byte_spec(bytes, from, target) matches Some(c) ==> from <= c < bytes.len(),
    decreases bytes.len() - from,
{
    if !(from < 0 || from >= bytes.len()) && bytes[from] != target {
        lemma_find_byte_ge(bytes, from + 1, target);
    }
}

pub proof fn lemma_bracket_scan_ge(bytes: Seq<u8>, i: int, depth: int)
    ensures
        bracket_scan(bytes, i, depth) matches Some(c) ==> i <= c < bytes.len(),
    decreases bytes.len() + 1 - i,
{
    if !(i < 0 || i >= bytes.len()) {
        if bytes[i] == 91 {
            lemma_bracket_scan_ge(bytes, i + 1, depth + 1);
        } else if bytes[i] == 93 {
            if depth - 1 != 0 {
                lemma_bracket_scan_ge(bytes, i + 1, depth - 1);
            }
        } else if bytes[i] == 40 {
            lemma_skip_literal_ge(bytes, i + 1, 1);
            lemma_bracket_scan_ge(bytes, skip_literal(bytes, i + 1, 1), depth);
        } else {
            lemma_bracket_scan_ge(bytes, i + 1, depth);
        }
    }
}

fn skip_ws(bytes: &[u8], i: &mut usize)
    ensures
        *final(i) == skip_ws_spec(bytes@, *old(i) as int),
{
    let ghost start = *i as int;
    while *i < bytes.len() && (bytes[*i] == 32u8 || bytes[*i] == 9u8 || bytes[*i] == 13u8 || bytes[*i] == 10u8)
        invariant
            skip_ws_spec(bytes@, *i as int) == skip_ws_spec(bytes@, start),
        decreases bytes@.len() - *i,
    {
        *i += 1;
    }
}

/// Whether a text-showing operator (`Tj` or `TJ`) follows, after optional
/// whitespace, at `start`.
pub fn is_text_op(bytes: &[u8], start: usize) -> (r: bool)
    ensures
        r == text_op_at(bytes@, start as int),
{
    let mut s = start;
    skip_ws(bytes, &mut s);
    if s <= bytes.len() && bytes.len() - s >= 2 {
        bytes[s] == 84u8 && (bytes[s + 1] == 106u8 || bytes[s + 1] == 74u8)
    } else {
        false
    }
}

/// The first position at or after `from` holding `target`.
pub fn find_byte(bytes: &[u8], from: usize, target: u8) -> (r: Option<usize>)
    ensures
        match r {
            Some(c) => find_byte_spec(bytes@, from as int, target) == Some(c as int),
            None => find_byte_spec(bytes@, from as int, target) is None,
        },
{
    let mut i = from;
    while i < bytes.len()
        invariant
            find_byte_spec(bytes@, i as int, target) == find_byte_spec(bytes@, from as int, target),
        decreases bytes@.len() - i,
    {
        if bytes[i] == target {
            return Some(i);
        }
        i += 1;
    }
    None
}

/// The position of the `]` closing the array opened at `open`, skipping
/// literal strings inside it.
pub fn find_matching_bracket(bytes: &[u8], open: usize) -> (r: Option<usize>)
    requires
        open < bytes@.len(),
        bytes@.len() < usize::MAX - 3,
    ensures
        match r {
            Some(c) => bracket_scan(bytes@, open + 1, 1) == Some(c as int),
            None => bracket_scan(bytes@, open + 1, 1) is None,
        },
{
    let mut depth: usize = 1;
    let mut i: usize = open + 1;
    while i < bytes.len()
        invariant
            bytes@.len() < usize::MAX - 3,
            1 <= depth <= i + 1,
            i <= bytes@.len() + 1,
            bracket_scan(bytes@, i as int, depth as int) == bracket_scan(bytes@, open + 1, 1),
        decreases bytes@.len() + 1 - i,
    {
        let b = bytes[i];
        if b == 91u8 {
            depth += 1;
            i += 1;
        } else if b == 93u8 {
            if depth == 1 {
                return Some(i);
            }
            depth -= 1;
            i += 1;
        } else if b == 40u8 {
            let mut d: usize = 1;
            let mut j: usize = i + 1;
            while j < bytes.len() && d > 0
                invariant
                    bytes@.len() < usize::MAX - 3,
                    i < j <= bytes@.len() + 1,
                    d <= j + 1,
                    skip_literal(bytes@, j as int, d as int) == skip_literal(bytes@, i + 1, 1),
                decreases bytes@.len() + 1 - j,
            {
                if bytes[j] == 92u8 {
                    j += 2;
                } else {
                    if bytes[j] == 40u8 {
                        d += 1;
                    } else if bytes[j] == 41u8 {
                        d -= 1;
                    }
                    j += 1;
                }
            }
            proof {
                lemma_skip_literal_ge(bytes@, i + 1, 1);
            }
            i = j;
        } else {
            i += 1;
        }
    }
    None
}

pub proof fn lemma_hex_value_small(b: u8)
    ensures
        hex_value(b) < 16,
{
}

fn hex_val(b: u8) -> (r: u8)
    ensures
        r == hex_value(b),
{
    if 48u8 <= b && b <= 57u8 {
        b - 48
    } else if 97u8 <= b && b <= 102u8 {
        b - 87
    } else if 65u8 <= b && b <= 70u8 {
        b - 55
    } else {
        0
    }
}

/// The bytes of a PDF hex string body.
pub fn decode_hex_string(hex: &[u8]) -> (r: Vec<u8>)
    ensures
        r@ == hex_string_bytes(hex@),
{
    let mut out: Vec<u8> = Vec::new();
    let mut pending: Option<u8> = None;
    let mut i: usize = 0;
    while i < hex.len()
        invariant
            i <= hex@.len(),
            (out@, pending) == hex_pairs(hex@.take(i as int)),
            pending matches Some(h) ==> h < 16,
        decreases hex@.len() - i,
    {
        let c = hex[i];
        proof {
            assert(hex@.take(i + 1).drop_last() =~= hex@.take(i as int));
            lemma_hex_value_small(c);
        }
        if (48u8 <= c && c <= 57u8) || (97u8 <= c && c <= 102u8) || (65u8 <= c && c <= 70u8) {
            let v = hex_val(c);
            match pending {
                None => {
                    pending = Some(v);
                },
                Some(h) => {
                    out.push(h * 16 + v);
                    pending = None;
                },
            }
        }
        i += 1;
    }
    proof {
        assert(hex@.take(hex@.len() as int) =~= hex@);
    }
    match pending {
        Some(h) => {
            out.push(h * 16);
        },
        None => {},
    }
    out
}

fn escaped(n: u8) -> (r: u8)
    ensures
        r == escaped_byte(n),
{
    if n == 110u8 {
        10
    } else if n == 114u8 {
        13
    } else if n == 116u8 {
        9
    } else if n == 98u8 {
        8
    } else if n == 102u8 {
        12
    } else {
        n
    }
}

fn octal_escape(bytes: &[u8], j: usize, first: u8) -> (r: (usize, u8))
    requires
        j + 1 < bytes@.len(),
        bytes@.len() < usize::MAX - 3,
    ensures
        (r.0 as int, r.1) == octal_scan(bytes@, j as int, 1, first),
{
    let mut k: usize = 1;
    let mut val: u8 = first;
    let mut more = true;
    while more && k < 3 && j + 1 + k < bytes.len()
        invariant
            1 <= k <= 3,
            j + 1 < bytes@.len(),
            bytes@.len() < usize::MAX - 3,
            more ==> octal_scan(bytes@, j as int, k as int, val) == octal_scan(
                bytes@,
                j as int,
                1,
                first,
            ),
            !more ==> (k as int, val) == octal_scan(bytes@, j as int, 1, first),
        decreases 3 - k + (if more { 1int } else { 0int }),
    {
        let d = bytes[j + 1 + k];
        if 48u8 <= d && d <= 55u8 {
            val = val.wrapping_mul(8).wrapping_add(d - 48);
            k += 1;
        } else {
            more = false;
        }
    }
    (k, val)
}

/// Reads a literal string body starting at `start` (just after its `(`):
/// returns the position of the closing `)`, or where the bytes ran out, and
/// the decoded bytes.
pub fn scan_literal(bytes: &[u8], start: usize) -> (r: (usize, Vec<u8>))
    requires
        start <= bytes@.len(),
        bytes@.len() < usize::MAX - 3,
    ensures
        (r.0 as int, r.1@) == literal_scan(bytes@, start as int, 1, Seq::empty()),
{
    let mut j = start;
    let mut depth: usize = 1;
    let mut s: Vec<u8> = Vec::new();
    while j < bytes.len() && depth > 0
        invariant
            start <= j <= bytes@.len() + 1,
            bytes@.len() < usize::MAX - 3,
            depth <= j + 1,
            literal_scan(bytes@, j as int, depth as int, s@) == literal_scan(
                bytes@,
                start as int,
                1,
                Seq::empty(),
            ),
        decreases bytes@.len() + 1 - j, depth,
    {
        let c = bytes[j];
        if c == 92u8 && j + 1 < bytes.len() {
            let n = bytes[j + 1];
            if 48u8 <= n && n <= 55u8 {
                let (k, val) = octal_escape(bytes, j, n - 48);
                proof {
                    lemma_octal_scan(bytes@, j as int, 1, (n - 48) as u8);
                }
                s.push(val);
                j = j + k + 1;
            } else {
                s.push(escaped(n));
                j = j + 2;
            }
        } else if c == 40u8 {
            depth += 1;
            s.push(c);
            j += 1;
        } else if c == 41u8 {
            depth -= 1;
            if depth > 0 {
                s.push(c);
                j += 1;
            }
        } else {
            s.push(c);
            j += 1;
        }
    }
    (j, s)
}

/// Reads a literal string inside a `TJ` array body starting at `start`.
pub fn scan_array_literal(seg: &[u8], start: usize) -> (r: (usize, Vec<u8>))
    requires
        start <= seg@.len(),
        seg@.len() < usize::MAX - 3,
    ensures
        (r.0 as int, r.1@) == array_literal_scan(seg@, start as int, 1, Seq::empty()),
{
    let mut j = start;
    let mut depth: usize = 1;
    let mut s: Vec<u8> = Vec::new();
    while j < seg.len() && depth > 0
        invariant
            start <= j <= seg@.len(),
            seg@.len() < usize::MAX - 3,
            depth <= j + 1,
            array_literal_scan(seg@, j as int, depth as int, s@) == array_literal_scan(
                seg@,
                start as int,
                1,
                Seq::empty(),
            ),
        decreases seg@.len() - j, depth,
    {
        let c = seg[j];
        if c == 92u8 && j + 1 < seg.len() {
            s.push(seg[j + 1]);
            j = j + 2;
        } else if c == 40u8 {
            depth += 1;
            s.push(c);
            j += 1;
        } else if c == 41u8 {
            depth -= 1;
            if depth > 0 {
                s.push(c);
                j += 1;
            }
        } else {
            s.push(c);
            j += 1;
        }
    }
    (j, s)
}

/// The last character of `s`.
pub fn last_char(s: &str) -> (r: Option<char>)
    ensures
        r == (if s@.len() > 0 {
            Some(s@.last())
        } else {
            None::<char>
        }),
{
    let cs = crate::text::chars_of(s);
    if cs.len() > 0 {
        Some(cs[cs.len() - 1])
    } else {
        None
    }
}

/// The last character of `out`, if it has one.
pub open spec fn tail_of(out: Seq<char>) -> Option<char> {
    if out.len() > 0 {
        Some(out.last())
    } else {
        None
    }
}

fn append_text(out: &mut String, tail: &mut Option<char>, t: &str)
    requires
        *old(tail) == tail_of(old(out)@),
    ensures
        final(out)@ == old(out)@ + t@,
        *final(tail) == tail_of(final(out)@),
{
    let lc = last_char(t);
    push_str(out, t);
    if lc.is_some() {
        *tail = lc;
    }
    proof {
        if t@.len() == 0 {
            assert(out@ =~= old(out)@);
        }
    }
}

fn push_array_texts(seg: &[u8], out: &mut String, tail: &mut Option<char>)
    requires
        seg@.len() < usize::MAX - 3,
        *old(tail) == tail_of(old(out)@),
    ensures
        final(out)@ == array_texts(seg@, 0, old(out)@),
        *final(tail) == tail_of(final(out)@),
{
    let mut k: usize = 0;
    while k < seg.len()
        invariant
            k <= seg@.len() + 1,
            seg@.len() < usize::MAX - 3,
            *tail == tail_of(out@),
            array_texts(seg@, k as int, out@) == array_texts(seg@, 0, old(out)@),
        decreases seg@.len() + 1 - k,
    {
        if seg[k] == 40u8 {
            let (j, s) = scan_array_literal(seg, k + 1);
            proof {
                lemma_array_literal_scan_bounds(seg@, k + 1, 1, Seq::empty());
            }
            let text = pdf_text(&s);
            append_text(out, tail, text.as_str());
            k = j + 1;
        } else {
            k += 1;
        }
    }
}

/// Appends to `out` the text that the text-showing operators of the content
/// stream `bytes` carry: each `(...)` or `<...>` string followed by `Tj` or
/// `TJ`, and every literal string of a `[...]` array, the array followed by
/// a gap.
pub fn extract_pdf_content_ops(bytes: &[u8], out: &mut String)
    requires
        bytes@.len() < usize::MAX - 3,
    ensures
        final(out)@ == content_text(bytes@, 0, old(out)@),
{
    let mut tail = last_char(out.as_str());
    let mut i: usize = 0;
    while i < bytes.len()
        invariant
            i <= bytes@.len() + 3,
            bytes@.len() < usize::MAX - 3,
            tail == tail_of(out@),
            content_text(bytes@, i as int, out@) == content_text(bytes@, 0, old(out)@),
        decreases bytes@.len() + 3 - i,
    {
        let b = bytes[i];
        if b == 40u8 {
            let (j, s) = scan_literal(bytes, i + 1);
            proof {
                lemma_literal_scan_bounds(bytes@, i + 1, 1, Seq::empty());
            }
            if is_text_op(bytes, j + 1) {
                let text = pdf_text(&s);
                append_text(out, &mut tail, text.as_str());
            }
            i = j + 2;
        } else if b == 60u8 {
            match find_byte(bytes, i + 1, 62u8) {
                Some(close) => {
                    proof {
                        lemma_find_byte_ge(bytes@, i + 1, 62u8);
                    }
                    if is_text_op(bytes, close + 1) {
                        let decoded = decode_hex_string(&bytes[i + 1..close]);
                        let text = pdf_text(&decoded);
                        append_text(out, &mut tail, text.as_str());
                    }
                    i = close + 1;
                },
                None => {
                    i += 1;
                },
            }
        } else if b == 91u8 {
            match find_matching_bracket(bytes, i) {
                Some(close) => {
                    proof {
                        lemma_bracket_scan_ge(bytes@, i + 1, 1);
                    }
                    push_array_texts(&bytes[i + 1..close], out, &mut tail);
                    let gap = match tail {
                        Some(c) => c == ' ' || c == '\n',
                        None => false,
                    };
                    if !gap {
                        push_char(out, ' ');
                        tail = Some(' ');
                    }
                    i = close + 1;
                },
                None => {
                    i += 1;
                },
            }
        } else {
            i += 1;
        }
    }
}

} // verus!
