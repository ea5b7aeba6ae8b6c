//! Socket.IO detection: the `/socket.io/` path, the Engine.IO version
//! marker, the namespace parameter, and the transport kind.

use vstd::prelude::*;
use vstd::utf8::{encode_utf8, valid_utf8};

use crate::text::{
    bytes_contains, bytes_starts_with, bytes_to_string, lemma_first_byte, spec_contains,
    spec_first_byte,
};

verus! {

/// A Socket.IO request carries the `/socket.io/` path or an `EIO=3` /
/// `EIO=4` query parameter.
pub open spec fn spec_detect_socketio(b: Seq<u8>) -> bool {
    ||| spec_contains(b, seq![47u8, 115, 111, 99, 107, 101, 116, 46, 105, 111, 47])  // "/socket.io/"
    ||| spec_contains(b, seq![69u8, 73, 79, 61, 51])  // "EIO=3"
    ||| spec_contains(b, seq![69u8, 73, 79, 61, 52])  // "EIO=4"
}

/// Detects a Socket.IO request (see [`spec_detect_socketio`]).
pub fn detect_socketio(request: &str) -> (r: bool)
    ensures
        r == spec_detect_socketio(encode_utf8(request@)),
{
    let b = request.as_bytes();
    let p1: [u8; 11] = [47u8, 115, 111, 99, 107, 101, 116, 46, 105, 111, 47];
    let p2: [u8; 5] = [69u8, 73, 79, 61, 51];
    let p3: [u8; 5] = [69u8, 73, 79, 61, 52];
    proof {
        assert(p1@ =~= seq![47u8, 115, 111, 99, 107, 101, 116, 46, 105, 111, 47]);
        assert(p2@ =~= seq![69u8, 73, 79, 61, 51]);
        assert(p3@ =~= seq![69u8, 73, 79, 61, 52]);
    }
    bytes_contains(b, p1.as_slice()) || bytes_contains(b, p2.as_slice()) || bytes_contains(
        b,
        p3.as_slice(),
    )
}

/// The value of the first `&`-separated segment that starts with
/// `namespace=`, if any.
pub open spec fn spec_namespace(b: Seq<u8>, pos: int) -> Option<Seq<u8>>
    decreases b.len() - pos
        when 0 <= pos <= b.len()
        via spec_namespace_decreases
{
    if pos > b.len() {
        None
    } else {
        let d = spec_first_byte(b, pos, 38);
        let seg = b.subrange(pos, d);
        if seg.len() >= 10 && seg.take(10) == seq![110u8, 97, 109, 101, 115, 112, 97, 99, 101, 61] {
            Some(seg.skip(10))
        } else if d >= b.len() {
            None
        } else {
            spec_namespace(b, d + 1)
        }
    }
}

#[via_fn]
proof fn spec_namespace_decreases(b: Seq<u8>, pos: int) {
    if 0 <= pos <= b.len() {
        lemma_first_byte(b, pos, 38);
    }
}

/// Extracts the Socket.IO namespace from a request path: the value of its
/// `namespace=` parameter, or the default namespace `/`. The error case
/// covers only a namespace value that is not valid UTF-8.
pub fn extract_namespace(path: &str) -> (r: Result<String, String>)
    ensures
        ({
            let pb = encode_utf8(path@);
            match r {
                Ok(s) => match spec_namespace(pb, 0) {
                    Some(v) => valid_utf8(v) && encode_utf8(s@) == v,
                    None => s@ == seq!['/'],
                },
                Err(_) => spec_namespace(pb, 0) matches Some(v) && !valid_utf8(v),
            }
        }),
{
    let b = path.as_bytes();
    let pat: [u8; 10] = [110u8, 97, 109, 101, 115, 112, 97, 99, 101, 61];
    proof {
        assert(pat@ =~= seq![110u8, 97, 109, 101, 115, 112, 97, 99, 101, 61]);
        reveal_strlit("/");
        assert("/"@ =~= seq!['/']);
    }
    let blen = b.len();
    let mut pos: usize = 0;
    loop
        invariant
            blen == b@.len(),
            0 <= pos <= b@.len(),
            b@ == encode_utf8(path@),
            b@.len() <= usize::MAX,
            pat@ == seq![110u8, 97, 109, 101, 115, 112, 97, 99, 101, 61],
            spec_namespace(b@, pos as int) == spec_namespace(b@, 0),
        decreases b@.len() - pos,
    {
        proof {
            lemma_first_byte(b@, pos as int, 38);
        }
        let d = match crate::text::find_byte(b, pos, 38) {
            Some(i) => i,
            None => b.len(),
        };
        assert(d == spec_first_byte(b@, pos as int, 38));
        let seg = &b[pos..d];
        proof {
            assert(seg@ =~= b@.subrange(pos as int, d as int));
        }
        if bytes_starts_with(seg, pat.as_slice()) {
            proof {
                assert(seg@.take(10) =~= seg@.subrange(0, 10));
                assert(spec_namespace(b@, pos as int) == Some(seg@.skip(10)));
            }
            let v = vstd::slice::slice_to_vec(&seg[10..seg.len()]);
            proof {
                assert(v@ =~= seg@.skip(10));
            }
            return match bytes_to_string(v) {
                Some(s) => Ok(s),
                None => Err(String::from_str("namespace is not valid UTF-8")),
            };
        }
        proof {
            if seg@.len() >= 10 {
                assert(seg@.take(10) =~= seg@.subrange(0, 10));
            }
        }
        if d >= blen {
            proof {
                reveal_strlit("/");
                assert("/"@ =~= seq!['/']);
            }
            return Ok(String::from_str("/"));
        }
        pos = d + 1;
    }
}

/// The transport a Socket.IO connection asked for.
#[derive(Debug, Clone, Copy, PartialEq, Eq, Structural)]
pub enum Transport {
    /// Long polling.
    Polling,
    /// WebSocket.
    WebSocket,
    /// Anything else, or none named.
    Unknown,
}

/// What the transport parameter in a request resolves to.
pub open spec fn spec_transport(b: Seq<u8>) -> Transport {
    if spec_contains(
        b,
        seq![116u8, 114, 97, 110, 115, 112, 111, 114, 116, 61, 112, 111, 108, 108, 105, 110, 103],
    ) {
        Transport::Polling
    } else if spec_contains(
        b,
        seq![
            116u8,
            114,
            97,
            110,
            115,
            112,
            111,
            114,
            116,
            61,
            119,
            101,
            98,
            115,
            111,
            99,
            107,
            101,
            116,
        ],
    ) {
        Transport::WebSocket
    } else {
        Transport::Unknown
    }
}

/// Reads the transport kind off a request: `transport=polling`,
/// `transport=websocket`, or unknown.
pub fn detect_transport(request: &str) -> (r: Transport)
    ensures
        r == spec_transport(encode_utf8(request@)),
{
    let b = request.as_bytes();
    let pp: [u8; 17] = [
        116u8,
        114,
        97,
        110,
        115,
        112,
        111,
        114,
        116,
        61,
        112,
        111,
        108,
        108,
        105,
        110,
        103,
    ];
    let pw: [u8; 19] = [
        116u8,
        114,
        97,
        110,
        115,
        112,
        111,
        114,
        116,
        61,
        119,
        101,
        98,
        115,
        111,
        99,
        107,
        101,
        116,
    ];
    proof {
        assert(pp@ =~= seq![
            116u8,
            114,
            97,
            110,
            115,
            112,
            111,
            114,
            116,
            61,
            112,
            111,
            108,
            108,
            105,
            110,
            103,
        ]);
        assert(pw@ =~= seq![
            116u8,
            114,
            97,
            110,
            115,
            112,
            111,
            114,
            116,
            61,
            119,
            101,
            98,
            115,
            111,
            99,
            107,
            101,
            116,
        ]);
    }
    if bytes_contains(b, pp.as_slice()) {
        Transport::Polling
    } else if bytes_contains(b, pw.as_slice()) {
        Transport::WebSocket
    } else {
        Transport::Unknown
    }
}

} // verus!
