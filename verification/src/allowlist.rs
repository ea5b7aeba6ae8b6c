//! Domain allowlist matching.
//!
//! A pattern is one of: an exact hostname; `*.domain`, which admits `domain`
//! itself and any strict subdomain; `*suffix`, a plain suffix match; or `*`
//! alone, which admits everything. Matching is ASCII case-insensitive at the
//! level of [`is_host_allowed`], which folds both sides before comparing.

use vstd::prelude::*;
use vstd::utf8::encode_utf8;

use crate::text::{bytes_eq, lower_bytes};

verus! {

/// What it means for hostname bytes `h` to match pattern bytes `p`.
pub open spec fn spec_pattern_matches(h: Seq<u8>, p: Seq<u8>) -> bool {
    if h == p {
        true
    } else if p.len() >= 2 && p[0] == 42 && p[1] == 46 {
        // "*.domain": the domain itself or any strict subdomain of it
        let d = p.skip(2);
        h == d || (h.len() > d.len() && h[h.len() - d.len() - 1] == 46 && h.skip(
            h.len() - d.len(),
        ) == d)
    } else if p.len() >= 1 && p[0] == 42 {
        // "*suffix": plain suffix match ("*" alone matches everything)
        let suf = p.skip(1);
        suf.len() <= h.len() && h.skip(h.len() - suf.len()) == suf
    } else {
        false
    }
}

/// Pattern matching on raw bytes; both sides are taken as given, with no
/// case folding.
pub fn pattern_matches_bytes(h: &[u8], p: &[u8]) -> (r: bool)
    ensures
        r == spec_pattern_matches(h@, p@),
{
    if bytes_eq(h, p) {
        return true;
    }
    if p.len() >= 2 && p[0] == 42 && p[1] == 46 {
        let d = &p[2..p.len()];
        proof {
            assert(d@ =~= p@.skip(2));
        }
        if bytes_eq(h, d) {
            return true;
        }
        if h.len() > d.len() {
            if h[h.len() - d.len() - 1] != 46 {
                return false;
            }
            let tail = &h[h.len() - d.len()..h.len()];
            proof {
                assert(tail@ =~= h@.skip(h@.len() - d@.len()));
            }
            bytes_eq(tail, d)
        } else {
            false
        }
    } else if p.len() >= 1 && p[0] == 42 {
        let suf = &p[1..p.len()];
        proof {
            assert(suf@ =~= p@.skip(1));
        }
        if suf.len() <= h.len() {
            let tail = &h[h.len() - suf.len()..h.len()];
            proof {
                assert(tail@ =~= h@.skip(h@.len() - suf@.len()));
            }
            bytes_eq(tail, suf)
        } else {
            false
        }
    } else {
        false
    }
}

/// Checks one hostname against one allowlist pattern, byte for byte
/// (callers fold case first where case-insensitivity is wanted).
pub fn matches_allowlist_pattern(hostname: &str, pattern: &str) -> (r: bool)
    ensures
        r == spec_pattern_matches(encode_utf8(hostname@), encode_utf8(pattern@)),
{
    pattern_matches_bytes(hostname.as_bytes(), pattern.as_bytes())
}

/// A host is admitted when some pattern in the list matches it, after ASCII
/// case folding of both the host and the pattern.
pub open spec fn spec_host_allowed(h: Seq<char>, patterns: Seq<String>) -> bool {
    exists|i: int|
        0 <= i < patterns.len() && spec_pattern_matches(
            crate::text::spec_lower_bytes(encode_utf8(h)),
            crate::text::spec_lower_bytes(encode_utf8((#[trigger] patterns[i])@)),
        )
}

/// Checks a host against the whole allowlist, case-insensitively.
pub fn is_host_allowed(host: &str, allowlist: &Vec<String>) -> (r: bool)
    ensures
        r == spec_host_allowed(host@, allowlist@),
{
    let hb = lower_bytes(host.as_bytes());
    let mut i: usize = 0;
    while i < allowlist.len()
        invariant
            0 <= i <= allowlist@.len(),
            hb@ == crate::text::spec_lower_bytes(encode_utf8(host@)),
            forall|j: int|
                0 <= j < i ==> !spec_pattern_matches(
                    crate::text::spec_lower_bytes(encode_utf8(host@)),
                    crate::text::spec_lower_bytes(encode_utf8((#[trigger] allowlist@[j])@)),
                ),
        decreases allowlist@.len() - i,
    {
        let pb = lower_bytes(allowlist[i].as_str().as_bytes());
        if pattern_matches_bytes(hb.as_slice(), pb.as_slice()) {
            return true;
        }
        i += 1;
    }
    false
}

/// Law: a `*.domain` pattern admits exactly the domain itself and the hosts
/// that end with `.domain`.
pub proof fn lemma_wildcard_domain_matches(h: Seq<u8>, d: Seq<u8>)
    ensures
        spec_pattern_matches(h, seq![42u8, 46u8] + d) == (h == d || (h.len() > d.len() && h[h.len()
            - d.len() - 1] == 46 && h.skip(h.len() - d.len()) == d)),
{
    let p = seq![42u8, 46u8] + d;
    assert(p.skip(2) =~= d);
    if h == p {
        assert(h.len() == d.len() + 2);
        assert(h[h.len() - d.len() - 1] == 46);
        assert(h.skip(h.len() - d.len()) =~= d);
    }
}

} // verus!
