//! Byte-level helpers shared by the parsers: slice equality, prefix and
//! substring tests, byte searches, and ASCII case folding.

use vstd::prelude::*;
use vstd::utf8::{encode_utf8, valid_utf8};

verus! {

/// Relies on std's `String::from_utf8`: it accepts exactly the valid UTF-8
/// byte sequences and decodes them, so the UTF-8 encoding of the result is
/// the input itself.
#[verifier::external_body]
pub(crate) fn bytes_to_string(v: Vec<u8>) -> (r: Option<String>)
    ensures
        r is Some <==> valid_utf8(v@),
        r matches Some(s) ==> encode_utf8(s@) == v@,
{
    match String::from_utf8(v) {
        Ok(s) => Some(s),
        Err(_) => None,
    }
}

/// ASCII lower-casing of a single byte; bytes outside `A`..`Z` are unchanged.
pub open spec fn spec_lower_byte(b: u8) -> u8 {
    if 65 <= b && b <= 90 {
        (b + 32) as u8
    } else {
        b
    }
}

/// ASCII lower-casing of a byte sequence.
pub open spec fn spec_lower_bytes(s: Seq<u8>) -> Seq<u8> {
    Seq::new(s.len(), |i: int| spec_lower_byte(s[i]))
}

/// The pattern `pat` occurs in `b` at position `i`.
pub open spec fn spec_match_at(b: Seq<u8>, pat: Seq<u8>, i: int) -> bool {
    0 <= i && i + pat.len() <= b.len() && b.subrange(i, i + pat.len()) == pat
}

/// The pattern `pat` occurs somewhere in `b`.
pub open spec fn spec_contains(b: Seq<u8>, pat: Seq<u8>) -> bool {
    exists|i: int| spec_match_at(b, pat, i)
}

/// ASCII lower-casing of one byte.
pub fn lower_byte(b: u8) -> (r: u8)
    ensures
        r == spec_lower_byte(b),
{
    if 65 <= b && b <= 90 {
        b + 32
    } else {
        b
    }
}

/// ASCII lower-casing of a byte slice into a fresh vector.
pub fn lower_bytes(s: &[u8]) -> (r: Vec<u8>)
    ensures
        r@ == spec_lower_bytes(s@),
{
    let mut out: Vec<u8> = Vec::new();
    let mut i: usize = 0;
    while i < s.len()
        invariant
            0 <= i <= s@.len(),
            out@.len() == i,
            forall|j: int| 0 <= j < i ==> out@[j] == spec_lower_byte(s@[j]),
        decreases s@.len() - i,
    {
        out.push(lower_byte(s[i]));
        i += 1;
    }
    proof {
        assert(out@ =~= spec_lower_bytes(s@));
    }
    out
}

/// Pointwise equality of two byte slices.
pub fn bytes_eq(a: &[u8], b: &[u8]) -> (r: bool)
    ensures
        r == (a@ == b@),
{
    if a.len() != b.len() {
        return false;
    }
    let mut i: usize = 0;
    while i < a.len()
        invariant
            0 <= i <= a@.len(),
            a@.len() == b@.len(),
            forall|j: int| 0 <= j < i ==> a@[j] == b@[j],
        decreases a@.len() - i,
    {
        if a[i] != b[i] {
            return false;
        }
        i += 1;
    }
    proof {
        assert(a@ =~= b@);
    }
    true
}

/// `b` starts with `pat`.
pub fn bytes_starts_with(b: &[u8], pat: &[u8]) -> (r: bool)
    ensures
        r == (pat@.len() <= b@.len() && b@.subrange(0, pat@.len() as int) == pat@),
{
    if pat.len() > b.len() {
        return false;
    }
    bytes_eq(&b[0..pat.len()], pat)
}

/// `pat` occurs somewhere in `b`.
pub fn bytes_contains(b: &[u8], pat: &[u8]) -> (r: bool)
    ensures
        r == spec_contains(b@, pat@),
{
    if pat.len() > b.len() {
        assert(forall|i: int| !spec_match_at(b@, pat@, i));
        return false;
    }
    if pat.len() == 0 {
        assert(spec_match_at(b@, pat@, 0)) by {
            assert(b@.subrange(0, 0) =~= pat@);
        }
        return true;
    }
    let last = b.len() - pat.len();
    let mut i: usize = 0;
    while i <= last
        invariant
            0 <= i <= last + 1,
            1 <= pat@.len() <= b@.len(),
            b@.len() <= usize::MAX,
            last == b@.len() - pat@.len(),
            forall|j: int| 0 <= j < i ==> !spec_match_at(b@, pat@, j),
        decreases last + 1 - i,
    {
        assert(i + pat@.len() <= b@.len());
        if bytes_eq(&b[i..i + pat.len()], pat) {
            assert(spec_match_at(b@, pat@, i as int));
            return true;
        }
        i += 1;
    }
    assert(forall|j: int| !spec_match_at(b@, pat@, j));
    false
}

/// A sequence of ASCII bytes (all below 128) is valid UTF-8.
pub proof fn lemma_ascii_bytes_valid_utf8(s: Seq<u8>)
    requires
        forall|i: int| 0 <= i < s.len() ==> s[i] < 128,
    ensures
        valid_utf8(s),
    decreases s.len(),
{
    if s.len() != 0 {
        let b0 = s[0];
        assert(vstd::utf8::is_leading_byte_width_1(b0));
        assert((b0 & 0x7F) < 0xD800 && (b0 & 0x7F) == b0) by (bit_vector)
            requires
                b0 < 128,
        ;
        assert(vstd::utf8::valid_first_scalar(s));
        assert(vstd::utf8::pop_first_scalar(s) =~= s.skip(1));
        lemma_ascii_bytes_valid_utf8(s.skip(1));
    }
}

/// UTF-8 encoding is injective: equal encodings come from equal strings.
pub proof fn lemma_encode_utf8_injective(a: Seq<char>, b: Seq<char>)
    requires
        encode_utf8(a) == encode_utf8(b),
    ensures
        a == b,
{
    vstd::utf8::encode_utf8_decode_utf8(a);
    vstd::utf8::encode_utf8_decode_utf8(b);
}

/// Position of the first occurrence of `pat` in `b` at or after `i`.
pub open spec fn spec_find_match(b: Seq<u8>, pat: Seq<u8>, i: int) -> Option<int>
    decreases b.len() - i
        when 0 <= i && pat.len() >= 1
{
    if i + pat.len() > b.len() {
        None
    } else if b.subrange(i, i + pat.len()) == pat {
        Some(i)
    } else {
        spec_find_match(b, pat, i + 1)
    }
}

/// Finds the first occurrence of `pat` in `b`.
pub fn bytes_find(b: &[u8], pat: &[u8]) -> (r: Option<usize>)
    requires
        pat@.len() >= 1,
    ensures
        match r {
            Some(i) => spec_find_match(b@, pat@, 0) == Some(i as int) && i + pat@.len() <= b@.len(),
            None => spec_find_match(b@, pat@, 0) is None,
        },
{
    if pat.len() > b.len() {
        return None;
    }
    let last = b.len() - pat.len();
    let mut i: usize = 0;
    while i <= last
        invariant
            0 <= i <= last + 1,
            1 <= pat@.len() <= b@.len(),
            b@.len() <= usize::MAX,
            last == b@.len() - pat@.len(),
            spec_find_match(b@, pat@, i as int) == spec_find_match(b@, pat@, 0),
        decreases last + 1 - i,
    {
        assert(i + pat@.len() <= b@.len());
        if bytes_eq(&b[i..i + pat.len()], pat) {
            return Some(i);
        }
        i += 1;
    }
    None
}

/// Position of the first occurrence of `c` in `b` at or after `pos`, or
/// the length of `b`.
pub open spec fn spec_first_byte(b: Seq<u8>, pos: int, c: u8) -> int
    decreases b.len() - pos
        when 0 <= pos <= b.len()
{
    if pos >= b.len() {
        pos
    } else if b[pos] == c {
        pos
    } else {
        spec_first_byte(b, pos + 1, c)
    }
}

pub proof fn lemma_first_byte(b: Seq<u8>, pos: int, c: u8)
    requires
        0 <= pos <= b.len(),
    ensures
        pos <= spec_first_byte(b, pos, c) <= b.len(),
        spec_first_byte(b, pos, c) < b.len() ==> b[spec_first_byte(b, pos, c)] == c,
        forall|j: int| pos <= j < spec_first_byte(b, pos, c) ==> b[j] != c,
    decreases b.len() - pos,
{
    if pos < b.len() && b[pos] != c {
        lemma_first_byte(b, pos + 1, c);
    }
}

/// Index of the first occurrence of `byte` in `b` at or after `from`.
pub fn find_byte(b: &[u8], from: usize, byte: u8) -> (r: Option<usize>)
    requires
        from <= b@.len(),
    ensures
        match r {
            Some(i) => from <= i < b@.len() && b@[i as int] == byte && forall|j: int|
                from <= j < i ==> b@[j] != byte,
            None => forall|j: int| from <= j < b@.len() ==> b@[j] != byte,
        },
{
    let mut i: usize = from;
    while i < b.len()
        invariant
            from <= i <= b@.len(),
            forall|j: int| from <= j < i ==> b@[j] != byte,
        decreases b@.len() - i,
    {
        if b[i] == byte {
            return Some(i);
        }
        i += 1;
    }
    None
}

} // verus!
