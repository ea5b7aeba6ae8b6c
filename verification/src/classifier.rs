//! Protocol classification from the first bytes peeked off a connection.
//!
//! The order is fixed: the HTTP/2 cleartext preface, then an HTTP/1.x
//! method token, then the SSH banner, then the TLS handshake byte; anything
//! else is unknown. A TLS connection is refined later, once the ClientHello
//! has been read, by the ALPN value it carries.

use vstd::prelude::*;
use vstd::utf8::encode_utf8;

use crate::http::spec_line_end;
use crate::text::{bytes_eq, bytes_starts_with, spec_contains};

verus! {

/// The protocol a connection speaks, as decided from its opening bytes.
#[derive(Debug, Clone, Copy, PartialEq, Eq, Structural)]
pub enum Protocol {
    Http10,
    Http11,
    Http2Cleartext,
    Http2Tls,
    Http3Tls,
    Tls,
    Ssh,
    Unknown,
}

impl Protocol {
    /// The label used for metrics and logging.
    pub fn as_str(&self) -> (r: &'static str)
        ensures
            (*self is Http10 ==> r@ == "http1.0"@) && (*self is Http11 ==> r@ == "http1.1"@) && (
            *self is Http2Cleartext ==> r@ == "h2c"@) && (*self is Http2Tls ==> r@ == "http2"@)
                && (*self is Http3Tls ==> r@ == "http3"@) && (*self is Tls ==> r@ == "tls"@) && (
            *self is Ssh ==> r@ == "ssh"@) && (*self is Unknown ==> r@ == "unknown"@),
    {
        match self {
            Protocol::Http10 => "http1.0",
            Protocol::Http11 => "http1.1",
            Protocol::Http2Cleartext => "h2c",
            Protocol::Http2Tls => "http2",
            Protocol::Http3Tls => "http3",
            Protocol::Tls => "tls",
            Protocol::Ssh => "ssh",
            Protocol::Unknown => "unknown",
        }
    }

    /// The default port dialled when the client names none: 80 for
    /// cleartext HTTP, 443 for TLS, 22 for SSH, 0 for unknown traffic.
    pub fn default_port(&self) -> (r: u16)
        ensures
            r == self.spec_default_port(),
    {
        match self {
            Protocol::Http10 => 80,
            Protocol::Http11 => 80,
            Protocol::Http2Cleartext => 80,
            Protocol::Http2Tls => 443,
            Protocol::Http3Tls => 443,
            Protocol::Tls => 443,
            Protocol::Ssh => 22,
            Protocol::Unknown => 0,
        }
    }

    pub open spec fn spec_default_port(&self) -> u16 {
        match self {
            Protocol::Http10 => 80,
            Protocol::Http11 => 80,
            Protocol::Http2Cleartext => 80,
            Protocol::Http2Tls => 443,
            Protocol::Http3Tls => 443,
            Protocol::Tls => 443,
            Protocol::Ssh => 22,
            Protocol::Unknown => 0,
        }
    }

    /// Whether the connection is carried over TLS.
    pub fn is_tls(&self) -> (r: bool)
        ensures
            r == (*self is Tls || *self is Http2Tls || *self is Http3Tls),
    {
        match self {
            Protocol::Tls | Protocol::Http2Tls | Protocol::Http3Tls => true,
            _ => false,
        }
    }

    /// Whether the protocol is a flavour of HTTP.
    pub fn is_http(&self) -> (r: bool)
        ensures
            r == (*self is Http10 || *self is Http11 || *self is Http2Cleartext
                || *self is Http2Tls || *self is Http3Tls),
    {
        match self {
            Protocol::Http10
            | Protocol::Http11
            | Protocol::Http2Cleartext
            | Protocol::Http2Tls
            | Protocol::Http3Tls => true,
            _ => false,
        }
    }
}

/// The 24-byte HTTP/2 cleartext connection preface,
/// `PRI * HTTP/2.0\r\n\r\nSM\r\n\r\n`.
pub open spec fn spec_h2_preface() -> Seq<u8> {
    seq![
        80u8,
        82,
        73,
        32,
        42,
        32,
        72,
        84,
        84,
        80,
        47,
        50,
        46,
        48,
        13,
        10,
        13,
        10,
        83,
        77,
        13,
        10,
        13,
        10,
    ]
}

/// `m` is a prefix of `p`.
pub open spec fn spec_prefix_of(p: Seq<u8>, m: Seq<u8>) -> bool {
    m.len() <= p.len() && p.subrange(0, m.len() as int) == m
}

/// The eight HTTP/1.x method tokens, each with its trailing space.
pub open spec fn spec_http_methods() -> Seq<Seq<u8>> {
    seq![
        seq![71u8, 69, 84, 32],
        seq![80u8, 79, 83, 84, 32],
        seq![72u8, 69, 65, 68, 32],
        seq![80u8, 85, 84, 32],
        seq![68u8, 69, 76, 69, 84, 69, 32],
        seq![79u8, 80, 84, 73, 79, 78, 83, 32],
        seq![80u8, 65, 84, 67, 72, 32],
        seq![84u8, 82, 65, 67, 69, 32],
    ]
}

pub open spec fn spec_starts_with_method(p: Seq<u8>) -> bool {
    exists|i: int|
        0 <= i < spec_http_methods().len() && spec_prefix_of(p, #[trigger] spec_http_methods()[i])
}

/// The HTTP version read off the first request line: 1.0 when the line
/// holds `HTTP/1.0`, else 1.1.
pub open spec fn spec_http_version(line: Seq<u8>) -> Protocol {
    if spec_contains(line, seq![72u8, 84, 84, 80, 47, 49, 46, 48]) {
        Protocol::Http10
    } else {
        Protocol::Http11
    }
}

/// What the classifier decides for peeked bytes `p`.
pub open spec fn spec_classify(p: Seq<u8>) -> Protocol {
    if spec_prefix_of(p, spec_h2_preface()) {
        Protocol::Http2Cleartext
    } else if spec_starts_with_method(p) {
        let le = spec_line_end(p, 0);
        if le < p.len() {
            spec_http_version(p.take(le))
        } else {
            Protocol::Http11
        }
    } else if spec_prefix_of(p, seq![83u8, 83, 72, 45]) {
        Protocol::Ssh
    } else if p.len() >= 1 && p[0] == 0x16 {
        Protocol::Tls
    } else {
        Protocol::Unknown
    }
}

/// Decides the HTTP/1.x version from the first request line.
pub fn detect_http_version(line: &[u8]) -> (r: Protocol)
    ensures
        r == spec_http_version(line@),
{
    let pat: [u8; 8] = [72u8, 84, 84, 80, 47, 49, 46, 48];
    proof {
        assert(pat@ =~= seq![72u8, 84, 84, 80, 47, 49, 46, 48]);
    }
    if crate::text::bytes_contains(line, pat.as_slice()) {
        Protocol::Http10
    } else {
        Protocol::Http11
    }
}

/// Classifies a connection from its peeked opening bytes, in the fixed
/// order: HTTP/2 preface, HTTP/1.x method, SSH banner, TLS handshake,
/// unknown.
pub fn detect_protocol(peek: &[u8]) -> (r: Protocol)
    ensures
        r == spec_classify(peek@),
{
    let preface: [u8; 24] = [
        80u8,
        82,
        73,
        32,
        42,
        32,
        72,
        84,
        84,
        80,
        47,
        50,
        46,
        48,
        13,
        10,
        13,
        10,
        83,
        77,
        13,
        10,
        13,
        10,
    ];
    proof {
        assert(preface@ =~= spec_h2_preface());
    }
    if bytes_starts_with(peek, preface.as_slice()) {
        return Protocol::Http2Cleartext;
    }
    if starts_with_http_method(peek) {
        proof {
            crate::http::lemma_line_end(peek@, 0);
        }
        let le = match crate::text::find_byte(peek, 0, 10) {
            Some(i) => i,
            None => peek.len(),
        };
        assert(le == spec_line_end(peek@, 0));
        if le < peek.len() {
            return detect_http_version(&peek[0..le]);
        }
        return Protocol::Http11;
    }
    let ssh: [u8; 4] = [83u8, 83, 72, 45];
    proof {
        assert(ssh@ =~= seq![83u8, 83, 72, 45]);
    }
    if bytes_starts_with(peek, ssh.as_slice()) {
        return Protocol::Ssh;
    }
    if peek.len() >= 1 && peek[0] == 0x16 {
        return Protocol::Tls;
    }
    Protocol::Unknown
}

/// Tests the peeked bytes against the eight HTTP method tokens.
fn starts_with_http_method(peek: &[u8]) -> (r: bool)
    ensures
        r == spec_starts_with_method(peek@),
{
    let m0: [u8; 4] = [71u8, 69, 84, 32];
    let m1: [u8; 5] = [80u8, 79, 83, 84, 32];
    let m2: [u8; 5] = [72u8, 69, 65, 68, 32];
    let m3: [u8; 4] = [80u8, 85, 84, 32];
    let m4: [u8; 7] = [68u8, 69, 76, 69, 84, 69, 32];
    let m5: [u8; 8] = [79u8, 80, 84, 73, 79, 78, 83, 32];
    let m6: [u8; 6] = [80u8, 65, 84, 67, 72, 32];
    let m7: [u8; 6] = [84u8, 82, 65, 67, 69, 32];
    proof {
        assert(m0@ =~= spec_http_methods()[0]);
        assert(m1@ =~= spec_http_methods()[1]);
        assert(m2@ =~= spec_http_methods()[2]);
        assert(m3@ =~= spec_http_methods()[3]);
        assert(m4@ =~= spec_http_methods()[4]);
        assert(m5@ =~= spec_http_methods()[5]);
        assert(m6@ =~= spec_http_methods()[6]);
        assert(m7@ =~= spec_http_methods()[7]);
    }
    let r = bytes_starts_with(peek, m0.as_slice()) || bytes_starts_with(peek, m1.as_slice())
        || bytes_starts_with(peek, m2.as_slice()) || bytes_starts_with(peek, m3.as_slice())
        || bytes_starts_with(peek, m4.as_slice()) || bytes_starts_with(peek, m5.as_slice())
        || bytes_starts_with(peek, m6.as_slice()) || bytes_starts_with(peek, m7.as_slice());
    proof {
        if !r {
            assert forall|i: int| 0 <= i < spec_http_methods().len() implies !spec_prefix_of(
                peek@,
                #[trigger] spec_http_methods()[i],
            ) by {
                if i == 0 {
                } else if i == 1 {
                } else if i == 2 {
                } else if i == 3 {
                } else if i == 4 {
                } else if i == 5 {
                } else if i == 6 {
                } else {
                    assert(i == 7);
                }
            }
        }
    }
    r
}

/// Refines a TLS connection by the ALPN protocol the ClientHello offered:
/// `h2` means HTTP/2 over TLS; `h3`, `h3-29` and `h3-32` mean HTTP/3; any
/// other value, or no ALPN at all, stays generic TLS.
pub fn refine_tls_protocol(alpn: &Option<String>) -> (r: Protocol)
    ensures
        match alpn {
            Some(a) => r == spec_refine_tls(encode_utf8(a@)),
            None => r is Tls,
        },
{
    match alpn {
        Some(a) => {
            let ab = a.as_str().as_bytes();
            let h2: [u8; 2] = [104u8, 50];
            let h3: [u8; 2] = [104u8, 51];
            let h3_29: [u8; 5] = [104u8, 51, 45, 50, 57];
            let h3_32: [u8; 5] = [104u8, 51, 45, 51, 50];
            proof {
                assert(h2@ =~= seq![104u8, 50]);
                assert(h3@ =~= seq![104u8, 51]);
                assert(h3_29@ =~= seq![104u8, 51, 45, 50, 57]);
                assert(h3_32@ =~= seq![104u8, 51, 45, 51, 50]);
            }
            if bytes_eq(ab, h2.as_slice()) {
                Protocol::Http2Tls
            } else if bytes_eq(ab, h3.as_slice()) || bytes_eq(ab, h3_29.as_slice()) || bytes_eq(
                ab,
                h3_32.as_slice(),
            ) {
                Protocol::Http3Tls
            } else {
                Protocol::Tls
            }
        },
        None => Protocol::Tls,
    }
}

/// What ALPN bytes refine a TLS connection to.
pub open spec fn spec_refine_tls(a: Seq<u8>) -> Protocol {
    if a == seq![104u8, 50] {
        Protocol::Http2Tls
    } else if a == seq![104u8, 51] || a == seq![104u8, 51, 45, 50, 57] || a == seq![
        104u8,
        51,
        45,
        51,
        50,
    ] {
        Protocol::Http3Tls
    } else {
        Protocol::Tls
    }
}

} // verus!
