//! HTTP/2 HEADERS-frame handling: frame-header validation and the
//! heuristic, HPACK-free search for the `:authority` pseudo-header.
//!
//! The search first looks for the literal byte string `:authority` and
//! probes the following bytes for a length-prefixed, hostname-shaped value;
//! failing that it probes after every byte that could encode the static
//! table index of `:authority` (`0x01`, `0x41`, `0x81`). Both probes accept
//! only values whose bytes are hostname characters and that contain a dot
//! or a colon.

use vstd::prelude::*;

use crate::http::HttpError;
use crate::text::{bytes_find, bytes_to_string, lemma_ascii_bytes_valid_utf8, spec_find_match};
use crate::tls::spec_u24;

verus! {

/// The largest HEADERS payload the extractor accepts, per RFC 9113's
/// default frame-size limit.
pub const MAX_FRAME_PAYLOAD: usize = 16384;

/// Bytes admissible in a hostname: ASCII alphanumerics and `.`, `-`, `:`,
/// `_`.
pub open spec fn spec_hostname_byte(b: u8) -> bool {
    (48 <= b && b <= 57) || (65 <= b && b <= 90) || (97 <= b && b <= 122) || b == 46 || b == 45
        || b == 58 || b == 95
}

/// A hostname-shaped byte string: 1 to 253 bytes, hostname characters
/// only, and at least one dot or colon.
pub open spec fn spec_valid_hostname(s: Seq<u8>) -> bool {
    1 <= s.len() <= 253 && (forall|i: int| 0 <= i < s.len() ==> spec_hostname_byte(#[trigger] s[i]))
        && (exists|i: int| 0 <= i < s.len() && (#[trigger] s[i] == 46 || s[i] == 58))
}

/// Checks that a string is hostname-shaped (see [`spec_valid_hostname`]).
pub fn is_valid_hostname(s: &str) -> (r: bool)
    ensures
        r == spec_valid_hostname(vstd::utf8::encode_utf8(s@)),
{
    hostname_bytes_ok(s.as_bytes())
}

/// Checks that a byte slice is hostname-shaped.
pub fn hostname_bytes_ok(s: &[u8]) -> (r: bool)
    ensures
        r == spec_valid_hostname(s@),
{
    if s.len() == 0 || s.len() > 253 {
        return false;
    }
    let mut i: usize = 0;
    let mut seen_sep = false;
    while i < s.len()
        invariant
            0 <= i <= s@.len(),
            forall|j: int| 0 <= j < i ==> spec_hostname_byte(#[trigger] s@[j]),
            seen_sep == exists|j: int| 0 <= j < i && (#[trigger] s@[j] == 46 || s@[j] == 58),
        decreases s@.len() - i,
    {
        let b = s[i];
        let ok = (48 <= b && b <= 57) || (65 <= b && b <= 90) || (97 <= b && b <= 122) || b == 46
            || b == 45 || b == 58 || b == 95;
        if !ok {
            return false;
        }
        if b == 46 || b == 58 {
            seen_sep = true;
        }
        i += 1;
    }
    seen_sep
}

/// The length-prefixed, hostname-shaped value at the head of `d`, if any:
/// a length byte between 3 and 255 followed by that many bytes of
/// hostname-shaped text.
pub open spec fn spec_authority_value(d: Seq<u8>) -> Option<Seq<u8>> {
    if d.len() == 0 {
        None
    } else {
        let l = d[0] as int;
        if l < 3 || l + 1 > d.len() {
            None
        } else {
            let v = d.subrange(1, 1 + l);
            if spec_valid_hostname(v) {
                Some(v)
            } else {
                None
            }
        }
    }
}

/// Tries to read a length-prefixed hostname at the head of `data`.
pub fn extract_authority_value(data: &[u8]) -> (r: Option<String>)
    ensures
        match r {
            Some(s) => spec_authority_value(data@) matches Some(v) && vstd::utf8::encode_utf8(s@)
                == v,
            None => spec_authority_value(data@) is None,
        },
{
    if data.len() == 0 {
        return None;
    }
    let l = data[0] as usize;
    if l < 3 || l + 1 > data.len() {
        return None;
    }
    if !hostname_bytes_ok(&data[1..1 + l]) {
        return None;
    }
    let v = vstd::slice::slice_to_vec(&data[1..1 + l]);
    proof {
        assert(forall|i: int| 0 <= i < v@.len() ==> v@[i] < 128);
        lemma_ascii_bytes_valid_utf8(v@);
    }
    let r = bytes_to_string(v);
    r
}

/// The first hostname found by probing `spec_authority_value` at offsets
/// `k`, `k + 1`, ... up to (excluding) `kend` from `base`.
pub open spec fn spec_probe_offsets(p: Seq<u8>, base: int, k: int, kend: int) -> Option<Seq<u8>>
    decreases kend - k
        when k <= kend
{
    if k >= kend {
        None
    } else {
        match spec_authority_value(p.skip(base + k)) {
            Some(v) => Some(v),
            None => spec_probe_offsets(p, base, k + 1, kend),
        }
    }
}

/// The first hostname found after a byte that could encode the static
/// table index of `:authority`, scanning positions `i` up to `iend`.
pub open spec fn spec_scan_indexed(p: Seq<u8>, i: int, iend: int) -> Option<Seq<u8>>
    decreases iend - i
        when i <= iend
{
    if i >= iend {
        None
    } else if (p[i] == 0x01 || p[i] == 0x41 || p[i] == 0x81) && spec_authority_value(
        p.skip(i + 1),
    ) is Some {
        spec_authority_value(p.skip(i + 1))
    } else {
        spec_scan_indexed(p, i + 1, iend)
    }
}

/// The bytes of the literal `:authority`.
pub open spec fn spec_authority_literal() -> Seq<u8> {
    seq![58u8, 97, 117, 116, 104, 111, 114, 105, 116, 121]
}

/// Where the literal `:authority` probe looks: at most ten offsets after
/// the literal, clipped to the payload end.
pub open spec fn spec_literal_probe(p: Seq<u8>) -> Option<Seq<u8>> {
    match spec_find_match(p, spec_authority_literal(), 0) {
        Some(pos) => {
            let vs = pos + 10;
            if vs < p.len() {
                let kend = if p.len() - vs < 10 {
                    p.len() - vs
                } else {
                    10
                };
                spec_probe_offsets(p, vs, 0, kend)
            } else {
                None
            }
        },
        None => None,
    }
}

/// The `:authority` value the heuristic yields for a HEADERS payload: the
/// literal probe first, then the indexed scan over all but the last twenty
/// bytes.
pub open spec fn spec_authority_in_payload(p: Seq<u8>) -> Option<Seq<u8>> {
    match spec_literal_probe(p) {
        Some(v) => Some(v),
        None => spec_scan_indexed(p, 0, if p.len() >= 20 {
            p.len() - 20
        } else {
            0
        }),
    }
}

/// Searches a HEADERS payload for a hostname-shaped `:authority` value.
pub fn find_authority_in_payload(payload: &[u8]) -> (r: Option<String>)
    ensures
        match r {
            Some(s) => spec_authority_in_payload(payload@) matches Some(v)
                && vstd::utf8::encode_utf8(s@) == v,
            None => spec_authority_in_payload(payload@) is None,
        },
{
    let n = payload.len();
    let pat: [u8; 10] = [58u8, 97, 117, 116, 104, 111, 114, 105, 116, 121];
    proof {
        assert(pat@ =~= spec_authority_literal());
    }
    match bytes_find(payload, pat.as_slice()) {
        Some(pos) => {
            let vs = pos + 10;
            if vs < n {
                let kend = if n - vs < 10 {
                    n - vs
                } else {
                    10
                };
                let mut k: usize = 0;
                while k < kend
                    invariant
                        0 <= k <= kend,
                        vs + kend <= payload@.len(),
                        vs < payload@.len(),
                        payload@.len() <= usize::MAX,
                        spec_literal_probe(payload@) == spec_probe_offsets(
                            payload@,
                            vs as int,
                            k as int,
                            kend as int,
                        ),
                        spec_literal_probe(payload@) is Some ==> spec_authority_in_payload(
                            payload@,
                        ) == spec_literal_probe(payload@),
                    decreases kend - k,
                {
                    proof {
                        assert(payload@.subrange(vs + k, payload@.len() as int) =~= payload@.skip(
                            vs + k,
                        ));
                    }
                    let got = extract_authority_value(&payload[vs + k..payload.len()]);
                    if got.is_some() {
                        return got;
                    }
                    k += 1;
                }
                assert(spec_literal_probe(payload@) is None);
            }
            scan_indexed(payload)
        },
        None => scan_indexed(payload),
    }
}

/// The indexed-representation fallback scan.
fn scan_indexed(payload: &[u8]) -> (r: Option<String>)
    ensures
        ({
            let iend: int = if payload@.len() >= 20 {
                payload@.len() - 20
            } else {
                0
            };
            match r {
                Some(s) => spec_scan_indexed(payload@, 0, iend) matches Some(v)
                    && vstd::utf8::encode_utf8(s@) == v,
                None => spec_scan_indexed(payload@, 0, iend) is None,
            }
        }),
{
    let iend = if payload.len() >= 20 {
        payload.len() - 20
    } else {
        0
    };
    let mut i: usize = 0;
    while i < iend
        invariant
            0 <= i <= iend,
            iend <= payload@.len(),
            payload@.len() <= usize::MAX,
            iend as int == (if payload@.len() >= 20 {
                payload@.len() - 20
            } else {
                0
            }),
            spec_scan_indexed(payload@, i as int, iend as int) == spec_scan_indexed(
                payload@,
                0,
                iend as int,
            ),
        decreases iend - i,
    {
        let b = payload[i];
        if b == 0x01 || b == 0x41 || b == 0x81 {
            proof {
                assert(payload@.subrange(i + 1, payload@.len() as int) =~= payload@.skip(i + 1));
            }
            let got = extract_authority_value(&payload[i + 1..payload.len()]);
            if got.is_some() {
                proof {
                    assert(spec_scan_indexed(payload@, i as int, iend as int)
                        == spec_authority_value(payload@.skip(i + 1)));
                }
                return got;
            }
        }
        i += 1;
    }
    None
}

/// Validates a 9-byte HTTP/2 frame header and returns the payload length
/// of a HEADERS frame. Only frame type 1 (HEADERS) with a payload of 1 to
/// 16384 bytes is accepted.
pub fn parse_http2_frame_header(header: &[u8]) -> (r: Result<usize, HttpError>)
    requires
        header@.len() == 9,
    ensures
        match r {
            Ok(l) => header@[3] == 1 && l == spec_u24(header@, 0) && 1 <= l <= MAX_FRAME_PAYLOAD,
            Err(e) => e is Http2FrameError && (header@[3] != 1 || spec_u24(header@, 0) == 0
                || spec_u24(header@, 0) > MAX_FRAME_PAYLOAD),
        },
{
    let length = crate::tls::u24_at(header, 0) as usize;
    let frame_type = header[3];
    if frame_type != 1 {
        return Err(HttpError::Http2FrameError);
    }
    if length == 0 || length > MAX_FRAME_PAYLOAD {
        return Err(HttpError::Http2FrameError);
    }
    Ok(length)
}

/// Extracts `:authority` from a complete HEADERS payload, failing with
/// `Http2FrameError` when the heuristic finds no hostname-shaped value.
pub fn authority_from_payload(payload: &[u8]) -> (r: Result<String, HttpError>)
    ensures
        match r {
            Ok(s) => spec_authority_in_payload(payload@) matches Some(v)
                && vstd::utf8::encode_utf8(s@) == v,
            Err(e) => e is Http2FrameError && spec_authority_in_payload(payload@) is None,
        },
{
    match find_authority_in_payload(payload) {
        Some(s) => Ok(s),
        None => Err(HttpError::Http2FrameError),
    }
}

} // verus!
