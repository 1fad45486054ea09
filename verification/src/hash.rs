//! Content identity: blake3 digests and their hex form.

use vstd::prelude::*;
use vstd::utf8::*;
use crate::text::push_char;

verus! {

/// The blake3 digest of `data` (32 bytes).
pub uninterp spec fn blake3_digest(data: Seq<u8>) -> Seq<u8>;

/// `blake3::hash`: the default blake3 hash of a byte slice, converted to its
/// 32 bytes. Trusted to be a function of the input bytes alone.
#[verifier::external_body]
fn blake3_hash(bytes: &[u8]) -> (d: [u8; 32])
    ensures
        d@ == blake3_digest(bytes@),
{
    blake3::hash(bytes).into()
}

#[verifier::external_type_specification]
#[verifier::external_body]
pub struct ExHasher(blake3::Hasher);

/// An incremental blake3 hash over bytes fed in pieces.
pub struct ContentHasher {
    hasher: blake3::Hasher,
    fed: Ghost<Seq<u8>>,
}

impl View for ContentHasher {
    /// The bytes fed so far.
    type V = Seq<u8>;

    closed spec fn view(&self) -> Seq<u8> {
        self.fed@
    }
}

/// `blake3::Hasher::new`: the default (unkeyed) hasher, which has been fed
/// nothing.
#[verifier::external_body]
fn blake3_hasher() -> blake3::Hasher {
    blake3::Hasher::new()
}

/// `blake3::Hasher::update`: adds `chunk` to what the hasher has been fed.
#[verifier::external_body]
fn blake3_update(h: &mut ContentHasher, chunk: &[u8])
    ensures
        final(h)@ == old(h)@ + chunk@,
{
    h.hasher.update(chunk);
}

/// `blake3::Hasher::finalize`: the hash of everything fed, the same as
/// `blake3::hash` of those bytes at once (the crate's documentation gives
/// the two as equivalent).
#[verifier::external_body]
fn blake3_finalize(h: &ContentHasher) -> (d: [u8; 32])
    ensures
        d@ == blake3_digest(h@),
{
    h.hasher.finalize().into()
}

impl ContentHasher {
    /// A hasher that has been fed nothing.
    pub fn new() -> (h: ContentHasher)
        ensures
            h@ == Seq::<u8>::empty(),
    {
        ContentHasher { hasher: blake3_hasher(), fed: Ghost(Seq::empty()) }
    }

    /// Feed the next piece of the content.
    pub fn update(&mut self, chunk: &[u8])
        ensures
            final(self)@ == old(self)@ + chunk@,
    {
        blake3_update(self, chunk);
    }

    /// The digest of all the content fed.
    pub fn finalize(&self) -> (d: [u8; 32])
        ensures
            d@ == blake3_digest(self@),
    {
        blake3_finalize(self)
    }
}

/// Hash of a byte slice.
pub fn hash_bytes(bytes: &[u8]) -> (d: [u8; 32])
    ensures
        d@ == blake3_digest(bytes@),
{
    blake3_hash(bytes)
}

/// The lowercase hex digit for a nibble.
pub open spec fn hex_digit(n: int) -> char {
    if n < 10 {
        (48 + n) as char
    } else {
        (87 + n) as char
    }
}

/// Lowercase hex of a byte sequence, two digits per byte, high nibble first.
pub open spec fn spec_to_hex(d: Seq<u8>) -> Seq<char>
    decreases d.len(),
{
    if d.len() == 0 {
        Seq::empty()
    } else {
        spec_to_hex(d.drop_last()) + seq![
            hex_digit(d.last() as int / 16),
            hex_digit(d.last() as int % 16),
        ]
    }
}

fn digit(n: u8) -> (c: char)
    requires
        n < 16,
    ensures
        c == hex_digit(n as int),
{
    if n < 10 {
        (48u8 + n) as char
    } else {
        (87u8 + n) as char
    }
}

/// Hex-encode a 32-byte digest (lowercase).
pub fn to_hex(d: &[u8; 32]) -> (s: String)
    ensures
        s@ == spec_to_hex(d@),
{
    let mut s = String::new();
    let mut i: usize = 0;
    while i < 32
        invariant
            i <= 32,
            d@.len() == 32,
            s@ == spec_to_hex(d@.take(i as int)),
        decreases 32 - i,
    {
        let b = d[i];
        push_char(&mut s, digit(b / 16));
        push_char(&mut s, digit(b % 16));
        proof {
            assert(d@.take(i + 1).drop_last() =~= d@.take(i as int));
            assert(s@ =~= spec_to_hex(d@.take(i + 1)));
        }
        i += 1;
    }
    assert(d@.take(32) =~= d@);
    s
}

/// The value of a lowercase hex digit byte.
pub open spec fn nib(c: u8) -> Option<u8> {
    if 48 <= c <= 57 {
        Some((c - 48) as u8)
    } else if 97 <= c <= 102 {
        Some((c - 87) as u8)
    } else {
        None
    }
}

/// Every byte of `b` is a lowercase hex digit and there are 64 of them.
pub open spec fn is_digest_hex(b: Seq<u8>) -> bool {
    b.len() == 64 && forall|i: int| 0 <= i < 64 ==> (#[trigger] nib(b[i])) is Some
}

/// The 32 bytes that 64 hex digits spell.
pub open spec fn hex_bytes(b: Seq<u8>) -> Seq<u8> {
    Seq::new(32, |i: int| (nib(b[2 * i])->0 * 16 + nib(b[2 * i + 1])->0) as u8)
}

/// The digest that the bytes of a hex string spell, if they spell one.
pub open spec fn spec_from_hex(b: Seq<u8>) -> Option<Seq<u8>> {
    if is_digest_hex(b) {
        Some(hex_bytes(b))
    } else {
        None
    }
}

fn hex_nib(c: u8) -> (r: Option<u8>)
    ensures
        r == nib(c),
{
    if 48u8 <= c && c <= 57u8 {
        Some(c - 48u8)
    } else if 97u8 <= c && c <= 102u8 {
        Some(c - 87u8)
    } else {
        None
    }
}

/// Parse a 64-char lowercase hex string into a 32-byte digest.
pub fn from_hex(s: &str) -> (r: Option<[u8; 32]>)
    ensures
        match r {
            Some(d) => spec_from_hex(encode_utf8(s@)) == Some(d@),
            None => spec_from_hex(encode_utf8(s@)) is None,
        },
{
    let b = s.as_bytes();
    if b.len() != 64 {
        return None;
    }
    let mut out = [0u8; 32];
    let mut i: usize = 0;
    while i < 32
        invariant
            i <= 32,
            b@ == encode_utf8(s@),
            b@.len() == 64,
            out@.len() == 32,
            forall|k: int| 0 <= k < 2 * i ==> (#[trigger] nib(b@[k])) is Some,
            forall|k: int| 0 <= k < i ==> out@[k] == #[trigger] hex_bytes(b@)[k],
        decreases 32 - i,
    {
        let hi = match hex_nib(b[i * 2]) {
            Some(h) => h,
            None => {
                assert(!is_digest_hex(b@));
                return None;
            },
        };
        let lo = match hex_nib(b[i * 2 + 1]) {
            Some(l) => l,
            None => {
                assert(!is_digest_hex(b@));
                return None;
            },
        };
        assert((hi << 4u8) | lo == hi * 16 + lo) by (bit_vector)
            requires
                hi < 16,
                lo < 16,
        ;
        out[i] = (hi << 4) | lo;
        i += 1;
    }
    proof {
        assert(out@ =~= hex_bytes(b@));
    }
    Some(out)
}

proof fn lemma_to_hex_shape(d: Seq<u8>)
    ensures
        spec_to_hex(d).len() == 2 * d.len(),
        forall|k: int|
            0 <= k < d.len() ==> spec_to_hex(d)[2 * k] == hex_digit(d[k] as int / 16)
                && spec_to_hex(d)[2 * k + 1] == hex_digit(d[k] as int % 16),
    decreases d.len(),
{
    if d.len() > 0 {
        let p = d.drop_last();
        lemma_to_hex_shape(p);
        assert forall|k: int| 0 <= k < d.len() implies spec_to_hex(d)[2 * k] == hex_digit(
            d[k] as int / 16,
        ) && spec_to_hex(d)[2 * k + 1] == hex_digit(d[k] as int % 16) by {
            if k < p.len() {
                assert(p[k] == d[k]);
            }
        }
    }
}

proof fn lemma_hex_digit_ascii(n: int)
    requires
        0 <= n < 16,
    ensures
        '\0' <= hex_digit(n) <= '\u{7f}',
        nib(hex_digit(n) as u8) == Some(n as u8),
{
}

/// Decoding the hex of a digest gives the digest back.
pub proof fn law_hex_round_trip(d: Seq<u8>)
    requires
        d.len() == 32,
    ensures
        spec_from_hex(encode_utf8(spec_to_hex(d))) == Some(d),
{
    let h = spec_to_hex(d);
    lemma_to_hex_shape(d);
    assert forall|i: int| 0 <= i < h.len() implies '\0' <= #[trigger] h[i] <= '\u{7f}' by {
        let k = i / 2;
        if i % 2 == 0 {
            assert(i == 2 * k);
            lemma_hex_digit_ascii(d[k] as int / 16);
        } else {
            assert(i == 2 * k + 1);
            lemma_hex_digit_ascii(d[k] as int % 16);
        }
    }
    assert(is_ascii_chars(h));
    is_ascii_chars_encode_utf8(h);
    let b = encode_utf8(h);
    assert(b =~= Seq::new(h.len(), |i| h[i] as u8));
    assert forall|i: int| 0 <= i < 64 implies (#[trigger] nib(b[i])) is Some by {
        let k = i / 2;
        if i % 2 == 0 {
            assert(i == 2 * k);
            lemma_hex_digit_ascii(d[k] as int / 16);
        } else {
            assert(i == 2 * k + 1);
            lemma_hex_digit_ascii(d[k] as int % 16);
        }
    }
    assert forall|k: int| 0 <= k < 32 implies #[trigger] hex_bytes(b)[k] == d[k] by {
        lemma_hex_digit_ascii(d[k] as int / 16);
        lemma_hex_digit_ascii(d[k] as int % 16);
        assert(b[2 * k] == h[2 * k] as u8);
        assert(b[2 * k + 1] == h[2 * k + 1] as u8);
    }
    assert(hex_bytes(b) =~= d);
}

proof fn lemma_nib_digit(c: u8)
    requires
        nib(c) is Some,
    ensures
        hex_digit(nib(c)->0 as int) as u8 == c,
        '\0' <= hex_digit(nib(c)->0 as int) <= '\u{7f}',
{
}

proof fn lemma_byte_nibbles(hi: int, lo: int)
    requires
        0 <= hi < 16,
        0 <= lo < 16,
    ensures
        ((hi * 16 + lo) as u8) as int / 16 == hi,
        ((hi * 16 + lo) as u8) as int % 16 == lo,
{
    assert(0 <= hi * 16 + lo < 256) by (nonlinear_arith)
        requires
            0 <= hi < 16,
            0 <= lo < 16,
    ;
    assert((hi * 16 + lo) / 16 == hi && (hi * 16 + lo) % 16 == lo) by (nonlinear_arith)
        requires
            0 <= hi < 16,
            0 <= lo < 16,
    ;
}

/// A hex string that decodes to a digest is that digest's hex: decoding
/// accepts only the lowercase form that encoding writes.
pub proof fn law_hex_canonical(s: Seq<char>, d: Seq<u8>)
    requires
        spec_from_hex(encode_utf8(s)) == Some(d),
    ensures
        spec_to_hex(d) == s,
{
    let b = encode_utf8(s);
    assert(is_digest_hex(b));
    assert(d == hex_bytes(b));
    let h = spec_to_hex(d);
    lemma_to_hex_shape(d);
    assert forall|k: int| 0 <= k < 32 implies h[2 * k] as u8 == b[2 * k] && h[2 * k + 1] as u8 == b[2 * k
        + 1] && '\0' <= #[trigger] h[2 * k] <= '\u{7f}' && '\0' <= h[2 * k + 1] <= '\u{7f}' by {
        assert(nib(b[2 * k]) is Some);
        assert(nib(b[2 * k + 1]) is Some);
        let hi = nib(b[2 * k])->0 as int;
        let lo = nib(b[2 * k + 1])->0 as int;
        lemma_byte_nibbles(hi, lo);
        assert(d[k] == (hi * 16 + lo) as u8);
        lemma_nib_digit(b[2 * k]);
        lemma_nib_digit(b[2 * k + 1]);
    }
    assert forall|i: int| 0 <= i < h.len() implies '\0' <= #[trigger] h[i] <= '\u{7f}' && h[i] as u8 == b[i] by {
        let k = i / 2;
        if i % 2 == 0 {
            assert(i == 2 * k);
            assert('\0' <= h[2 * k] <= '\u{7f}');
        } else {
            assert(i == 2 * k + 1);
            assert('\0' <= h[2 * k] <= '\u{7f}');
        }
    }
    assert(is_ascii_chars(h));
    is_ascii_chars_encode_utf8(h);
    assert(encode_utf8(h) =~= b);
    encode_utf8_decode_utf8(h);
    encode_utf8_decode_utf8(s);
}

} // verus!
