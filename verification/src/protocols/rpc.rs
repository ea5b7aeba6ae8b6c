//! Generic RPC-over-HTTP detection from the request line.

use vstd::prelude::*;
use vstd::utf8::{encode_utf8, valid_utf8};

use crate::text::{
    bytes_contains, bytes_find, bytes_to_string, lemma_first_byte, lower_bytes, spec_contains,
    spec_find_match, spec_first_byte, spec_lower_bytes,
};

verus! {

/// The RPC path shapes, over the lower-cased request bytes: an `/rpc`
/// segment, `/api/rpc`, `/jsonrpc` or `/xmlrpc` anywhere, or a request
/// path (between the first ` /` and the following ` http/`) containing
/// `/rpc`.
pub open spec fn spec_detect_rpc(l: Seq<u8>) -> bool {
    ||| spec_contains(l, seq![32u8, 47, 114, 112, 99, 32])  // " /rpc "
    ||| spec_contains(l, seq![32u8, 47, 114, 112, 99, 63])  // " /rpc?"
    ||| spec_contains(l, seq![32u8, 47, 114, 112, 99, 47])  // " /rpc/"
    ||| spec_contains(l, seq![32u8, 47, 97, 112, 105, 47, 114, 112, 99])  // " /api/rpc"
    ||| spec_contains(l, seq![47u8, 106, 115, 111, 110, 114, 112, 99])  // "/jsonrpc"
    ||| spec_contains(l, seq![47u8, 120, 109, 108, 114, 112, 99])  // "/xmlrpc"
    ||| (match spec_find_match(l, seq![32u8, 47], 0) {
        Some(ps) => match spec_find_match(l.skip(ps), seq![32u8, 104, 116, 116, 112, 47], 0) {
            Some(pe) => spec_contains(l.subrange(ps, ps + pe), seq![47u8, 114, 112, 99]),
            None => false,
        },
        None => false,
    })
}

/// Detects a generic RPC request from its request line and headers,
/// ASCII case-insensitively (see [`spec_detect_rpc`]).
pub fn detect_rpc(request: &str) -> (r: bool)
    ensures
        r == spec_detect_rpc(spec_lower_bytes(encode_utf8(request@))),
{
    let l = lower_bytes(request.as_bytes());
    let lb = l.as_slice();
    let p1: [u8; 6] = [32u8, 47, 114, 112, 99, 32];
    let p2: [u8; 6] = [32u8, 47, 114, 112, 99, 63];
    let p3: [u8; 6] = [32u8, 47, 114, 112, 99, 47];
    let p4: [u8; 9] = [32u8, 47, 97, 112, 105, 47, 114, 112, 99];
    let p5: [u8; 8] = [47u8, 106, 115, 111, 110, 114, 112, 99];
    let p6: [u8; 7] = [47u8, 120, 109, 108, 114, 112, 99];
    proof {
        assert(p1@ =~= seq![32u8, 47, 114, 112, 99, 32]);
        assert(p2@ =~= seq![32u8, 47, 114, 112, 99, 63]);
        assert(p3@ =~= seq![32u8, 47, 114, 112, 99, 47]);
        assert(p4@ =~= seq![32u8, 47, 97, 112, 105, 47, 114, 112, 99]);
        assert(p5@ =~= seq![47u8, 106, 115, 111, 110, 114, 112, 99]);
        assert(p6@ =~= seq![47u8, 120, 109, 108, 114, 112, 99]);
    }
    if bytes_contains(lb, p1.as_slice()) || bytes_contains(lb, p2.as_slice()) || bytes_contains(
        lb,
        p3.as_slice(),
    ) || bytes_contains(lb, p4.as_slice()) || bytes_contains(lb, p5.as_slice()) || bytes_contains(
        lb,
        p6.as_slice(),
    ) {
        return true;
    }
    let sp: [u8; 2] = [32u8, 47];
    let hp: [u8; 6] = [32u8, 104, 116, 116, 112, 47];
    let rp: [u8; 4] = [47u8, 114, 112, 99];
    proof {
        assert(sp@ =~= seq![32u8, 47]);
        assert(hp@ =~= seq![32u8, 104, 116, 116, 112, 47]);
        assert(rp@ =~= seq![47u8, 114, 112, 99]);
    }
    match bytes_find(lb, sp.as_slice()) {
        Some(ps) => {
            let rest = &lb[ps..l.len()];
            proof {
                assert(rest@ =~= l@.skip(ps as int));
            }
            match bytes_find(rest, hp.as_slice()) {
                Some(pe) => {
                    let path = &lb[ps..ps + pe];
                    proof {
                        assert(path@ =~= l@.subrange(ps as int, ps + pe));
                    }
                    bytes_contains(path, rp.as_slice())
                },
                None => false,
            }
        },
        None => false,
    }
}

/// Whitespace for request-line tokenisation.
pub open spec fn spec_ws(b: u8) -> bool {
    b == 32 || b == 9 || b == 13 || b == 10
}

/// First non-whitespace position at or after `pos`.
pub open spec fn spec_skip_ws(b: Seq<u8>, pos: int) -> int
    decreases b.len() - pos
        when 0 <= pos <= b.len()
{
    if pos >= b.len() {
        pos
    } else if spec_ws(b[pos]) {
        spec_skip_ws(b, pos + 1)
    } else {
        pos
    }
}

/// First whitespace position at or after `pos`, or the length.
pub open spec fn spec_tok_end(b: Seq<u8>, pos: int) -> int
    decreases b.len() - pos
        when 0 <= pos <= b.len()
{
    if pos >= b.len() {
        pos
    } else if spec_ws(b[pos]) {
        pos
    } else {
        spec_tok_end(b, pos + 1)
    }
}

pub proof fn lemma_skip_ws(b: Seq<u8>, pos: int)
    requires
        0 <= pos <= b.len(),
    ensures
        pos <= spec_skip_ws(b, pos) <= b.len(),
        spec_skip_ws(b, pos) < b.len() ==> !spec_ws(b[spec_skip_ws(b, pos)]),
        forall|j: int| pos <= j < spec_skip_ws(b, pos) ==> spec_ws(b[j]),
    decreases b.len() - pos,
{
    if pos < b.len() && spec_ws(b[pos]) {
        lemma_skip_ws(b, pos + 1);
    }
}

pub proof fn lemma_tok_end(b: Seq<u8>, pos: int)
    requires
        0 <= pos <= b.len(),
    ensures
        pos <= spec_tok_end(b, pos) <= b.len(),
        spec_tok_end(b, pos) < b.len() ==> spec_ws(b[spec_tok_end(b, pos)]),
        forall|j: int| pos <= j < spec_tok_end(b, pos) ==> !spec_ws(b[j]),
    decreases b.len() - pos,
{
    if pos < b.len() && !spec_ws(b[pos]) {
        lemma_tok_end(b, pos + 1);
    }
}

/// The second whitespace-separated token of `b`: the request path of a
/// request line.
pub open spec fn spec_second_token(b: Seq<u8>) -> Option<Seq<u8>> {
    let s1 = spec_skip_ws(b, 0);
    let e1 = spec_tok_end_guarded(b, s1);
    let s2 = spec_skip_ws_guarded(b, e1);
    let e2 = spec_tok_end_guarded(b, s2);
    if s2 >= b.len() {
        None
    } else {
        Some(b.subrange(s2, e2))
    }
}

/// `spec_tok_end` shielded against an out-of-range start.
pub open spec fn spec_tok_end_guarded(b: Seq<u8>, pos: int) -> int {
    if 0 <= pos <= b.len() {
        spec_tok_end(b, pos)
    } else {
        b.len() as int
    }
}

/// `spec_skip_ws` shielded against an out-of-range start.
pub open spec fn spec_skip_ws_guarded(b: Seq<u8>, pos: int) -> int {
    if 0 <= pos <= b.len() {
        spec_skip_ws(b, pos)
    } else {
        b.len() as int
    }
}

/// The method name `extract_rpc_method` yields: the part of the request
/// path after `/rpc/`, cut at the first `?` or `#`; nothing when the path
/// has no `/rpc/` segment or the remainder is empty.
pub open spec fn spec_rpc_method(b: Seq<u8>) -> Option<Seq<u8>> {
    match spec_second_token(b) {
        None => None,
        Some(path) => match spec_find_match(path, seq![47u8, 114, 112, 99, 47], 0) {
            None => None,
            Some(pos) => {
                let mp = path.skip(pos + 5);
                let q = spec_first_byte(mp, 0, 63);
                let h = spec_first_byte(mp, 0, 35);
                if q < mp.len() {
                    Some(mp.take(q))
                } else if h < mp.len() {
                    Some(mp.take(h))
                } else if mp.len() > 0 {
                    Some(mp)
                } else {
                    None
                }
            },
        },
    }
}

/// Extracts the RPC method name from a request line, per
/// [`spec_rpc_method`]. Yields `None` also when the name is not valid
/// UTF-8.
pub fn extract_rpc_method(request: &str) -> (r: Option<String>)
    ensures
        match r {
            Some(s) => spec_rpc_method(encode_utf8(request@)) matches Some(m) && encode_utf8(s@)
                == m,
            None => spec_rpc_method(encode_utf8(request@)) is None || !valid_utf8(
                spec_rpc_method(encode_utf8(request@))->Some_0,
            ),
        },
{
    let b = request.as_bytes();
    proof {
        lemma_skip_ws(b@, 0);
    }
    let s1 = skip_ws(b, 0);
    proof {
        lemma_tok_end(b@, s1 as int);
    }
    let e1 = tok_end(b, s1);
    proof {
        lemma_skip_ws(b@, e1 as int);
    }
    let s2 = skip_ws(b, e1);
    proof {
        lemma_tok_end(b@, s2 as int);
    }
    let e2 = tok_end(b, s2);
    if s2 >= b.len() {
        return None;
    }
    let path = &b[s2..e2];
    proof {
        assert(path@ =~= b@.subrange(s2 as int, e2 as int));
    }
    let pat: [u8; 5] = [47u8, 114, 112, 99, 47];
    proof {
        assert(pat@ =~= seq![47u8, 114, 112, 99, 47]);
    }
    match bytes_find(path, pat.as_slice()) {
        None => None,
        Some(pos) => {
            let mp = &path[pos + 5..path.len()];
            proof {
                assert(mp@ =~= path@.skip(pos + 5));
                lemma_first_byte(mp@, 0, 63);
                lemma_first_byte(mp@, 0, 35);
            }
            let q = match crate::text::find_byte(mp, 0, 63) {
                Some(i) => i,
                None => mp.len(),
            };
            let h = match crate::text::find_byte(mp, 0, 35) {
                Some(i) => i,
                None => mp.len(),
            };
            assert(q == spec_first_byte(mp@, 0, 63));
            assert(h == spec_first_byte(mp@, 0, 35));
            let cut = if q < mp.len() {
                q
            } else if h < mp.len() {
                h
            } else if mp.len() > 0 {
                mp.len()
            } else {
                return None;
            };
            let v = vstd::slice::slice_to_vec(&mp[0..cut]);
            proof {
                assert(v@ =~= mp@.take(cut as int));
                if q < mp@.len() {
                    assert(mp@.take(q as int) =~= mp@.take(cut as int));
                } else if h < mp@.len() {
                } else {
                    assert(mp@.take(cut as int) =~= mp@);
                }
            }
            bytes_to_string(v)
        },
    }
}

/// First non-whitespace position at or after `pos`.
fn skip_ws(b: &[u8], pos: usize) -> (r: usize)
    requires
        pos <= b@.len(),
    ensures
        r == spec_skip_ws(b@, pos as int),
        pos <= r <= b@.len(),
{
    proof {
        lemma_skip_ws(b@, pos as int);
    }
    let mut i = pos;
    while i < b.len() && (b[i] == 32 || b[i] == 9 || b[i] == 13 || b[i] == 10)
        invariant
            pos <= i <= b@.len(),
            forall|j: int| pos <= j < i ==> spec_ws(b@[j]),
            spec_skip_ws(b@, pos as int) == spec_skip_ws(b@, i as int),
        decreases b@.len() - i,
    {
        i += 1;
    }
    i
}

/// First whitespace position at or after `pos`, or the length.
fn tok_end(b: &[u8], pos: usize) -> (r: usize)
    requires
        pos <= b@.len(),
    ensures
        r == spec_tok_end(b@, pos as int),
        pos <= r <= b@.len(),
{
    proof {
        lemma_tok_end(b@, pos as int);
    }
    let mut i = pos;
    while i < b.len() && !(b[i] == 32 || b[i] == 9 || b[i] == 13 || b[i] == 10)
        invariant
            pos <= i <= b@.len(),
            forall|j: int| pos <= j < i ==> !spec_ws(b@[j]),
            spec_tok_end(b@, pos as int) == spec_tok_end(b@, i as int),
        decreases b@.len() - i,
    {
        i += 1;
    }
    i
}

} // verus!
