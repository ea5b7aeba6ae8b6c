//! HTTP/1.x header-block scanning: finding the end of the header block,
//! extracting the `Host` header, and splitting an optional `:port` suffix.
//!
//! All functions work on a byte buffer that the caller has read from the
//! client; reading itself happens outside the crate.

use vstd::prelude::*;
use vstd::utf8::{encode_utf8, valid_utf8};

use crate::text::{bytes_to_string, spec_lower_byte};

verus! {

/// The largest header block the proxy is willing to buffer, in bytes.
pub const MAX_HEADER_BYTES: usize = 32768;

#[verifier::external_type_specification]
#[verifier::external_body]
pub struct ExIoError(std::io::Error);

/// Failure modes of HTTP handling.
#[derive(Debug)]
pub enum HttpError {
    Io(std::io::Error),
    NoHostHeader,
    InvalidRequest,
    WebSocketUpgradeFailed,
    Http2FrameError,
    GrpcDetectionFailed,
    Timeout,
}

/// Relies on std's `Display` for `io::Error`: renders the error as text.
#[verifier::external_body]
fn io_error_text(e: &std::io::Error) -> String {
    format!("IO error: {}", e)
}

impl HttpError {
    /// A short human-readable description of the error.
    pub fn message(&self) -> (r: String)
        ensures
            (*self is NoHostHeader ==> r@ == "No Host header found"@) && (*self is InvalidRequest
                ==> r@ == "Invalid HTTP request"@) && (*self is WebSocketUpgradeFailed ==> r@
                == "WebSocket upgrade failed"@) && (*self is Http2FrameError ==> r@
                == "HTTP/2 frame parsing error"@) && (*self is GrpcDetectionFailed ==> r@
                == "gRPC detection failed"@) && (*self is Timeout ==> r@ == "Operation timed out"@),
    {
        match self {
            HttpError::Io(e) => io_error_text(e),
            HttpError::NoHostHeader => String::from_str("No Host header found"),
            HttpError::InvalidRequest => String::from_str("Invalid HTTP request"),
            HttpError::WebSocketUpgradeFailed => String::from_str("WebSocket upgrade failed"),
            HttpError::Http2FrameError => String::from_str("HTTP/2 frame parsing error"),
            HttpError::GrpcDetectionFailed => String::from_str("gRPC detection failed"),
            HttpError::Timeout => String::from_str("Operation timed out"),
        }
    }
}

impl From<std::io::Error> for HttpError {
    fn from(e: std::io::Error) -> (r: HttpError) {
        HttpError::Io(e)
    }
}

impl vstd::std_specs::convert::FromSpecImpl<std::io::Error> for HttpError {
    open spec fn obeys_from_spec() -> bool {
        true
    }

    open spec fn from_spec(e: std::io::Error) -> HttpError {
        HttpError::Io(e)
    }
}

/// The terminator `\r\n\r\n` stands at position `i` of `b`.
pub open spec fn spec_crlf2_at(b: Seq<u8>, i: int) -> bool {
    0 <= i && i + 4 <= b.len() && b[i] == 13 && b[i + 1] == 10 && b[i + 2] == 13 && b[i + 3] == 10
}

/// Finds the end of the header block: `Some(i)` exactly when `\r\n\r\n`
/// occurs in `buffer` at position `i - 4`, with `i` minimal.
pub fn find_headers_end(buffer: &[u8]) -> (r: Option<usize>)
    ensures
        match r {
            Some(i) => 4 <= i <= buffer@.len() && spec_crlf2_at(buffer@, i - 4) && forall|j: int|
                0 <= j < i - 4 ==> !spec_crlf2_at(buffer@, j),
            None => forall|j: int| !spec_crlf2_at(buffer@, j),
        },
{
    if buffer.len() < 4 {
        assert(forall|j: int| !spec_crlf2_at(buffer@, j));
        return None;
    }
    let last = buffer.len() - 4;
    let mut i: usize = 0;
    while i <= last
        invariant
            0 <= i <= last + 1,
            last == buffer@.len() - 4,
            buffer@.len() <= usize::MAX,
            forall|j: int| 0 <= j < i ==> !spec_crlf2_at(buffer@, j),
        decreases last + 1 - i,
    {
        if buffer[i] == 13 && buffer[i + 1] == 10 && buffer[i + 2] == 13 && buffer[i + 3] == 10 {
            return Some(i + 4);
        }
        i += 1;
    }
    assert(forall|j: int| !spec_crlf2_at(buffer@, j));
    None
}

/// Position of the first `\n` at or after `pos`, or the end of `b`.
pub open spec fn spec_line_end(b: Seq<u8>, pos: int) -> int
    decreases b.len() - pos
        when 0 <= pos <= b.len()
{
    if pos >= b.len() {
        pos
    } else if b[pos] == 10 {
        pos
    } else {
        spec_line_end(b, pos + 1)
    }
}

pub proof fn lemma_line_end(b: Seq<u8>, pos: int)
    requires
        0 <= pos <= b.len(),
    ensures
        pos <= spec_line_end(b, pos) <= b.len(),
        spec_line_end(b, pos) < b.len() ==> b[spec_line_end(b, pos)] == 10,
        forall|j: int| pos <= j < spec_line_end(b, pos) ==> b[j] != 10,
    decreases b.len() - pos,
{
    if pos < b.len() && b[pos] != 10 {
        lemma_line_end(b, pos + 1);
    }
}

/// A line without its trailing carriage return, if it carries one.
pub open spec fn spec_strip_cr(line: Seq<u8>) -> Seq<u8> {
    if line.len() > 0 && line.last() == 13 {
        line.drop_last()
    } else {
        line
    }
}

/// Bytes that count as surrounding whitespace of a header value.
pub open spec fn spec_is_space(b: u8) -> bool {
    b == 32 || b == 9 || b == 13 || b == 10
}

/// The value with leading and trailing whitespace removed.
pub open spec fn spec_trim(s: Seq<u8>) -> Seq<u8>
    decreases s.len(),
{
    if s.len() > 0 && spec_is_space(s[0]) {
        spec_trim(s.drop_first())
    } else if s.len() > 0 && spec_is_space(s.last()) {
        spec_trim(s.drop_last())
    } else {
        s
    }
}

/// A header line whose name is `Host`, compared ASCII case-insensitively.
pub open spec fn spec_is_host_line(line: Seq<u8>) -> bool {
    line.len() > 5 && spec_lower_byte(line[0]) == 104 && spec_lower_byte(line[1]) == 111
        && spec_lower_byte(line[2]) == 115 && spec_lower_byte(line[3]) == 116 && line[4] == 58
}

/// The trimmed value of the first `Host` line at or after `pos`, if any.
pub open spec fn spec_find_host(b: Seq<u8>, pos: int) -> Option<Seq<u8>>
    decreases b.len() - pos
        when 0 <= pos <= b.len()
        via spec_find_host_decreases
{
    if pos >= b.len() {
        None
    } else {
        let le = spec_line_end(b, pos);
        let line = spec_strip_cr(b.subrange(pos, le));
        if spec_is_host_line(line) {
            Some(spec_trim(line.subrange(5, line.len() as int)))
        } else if le >= b.len() {
            None
        } else {
            spec_find_host(b, le + 1)
        }
    }
}

#[via_fn]
proof fn spec_find_host_decreases(b: Seq<u8>, pos: int) {
    if 0 <= pos <= b.len() {
        lemma_line_end(b, pos);
    }
}

/// Extracts the value of the first `Host` header line from a header block,
/// trimmed of surrounding whitespace. Returns `None` when no such line
/// exists or its value is not valid UTF-8.
pub fn extract_host_header(headers: &[u8]) -> (r: Option<String>)
    ensures
        match r {
            Some(s) => spec_find_host(headers@, 0) matches Some(v) && valid_utf8(v) && encode_utf8(
                s@,
            ) == v,
            None => spec_find_host(headers@, 0) is None || !valid_utf8(
                spec_find_host(headers@, 0)->Some_0,
            ),
        },
{
    let hlen = headers.len();
    let mut pos: usize = 0;
    loop
        invariant
            0 <= pos <= headers@.len(),
            hlen == headers@.len(),
            spec_find_host(headers@, pos as int) == spec_find_host(headers@, 0),
        decreases headers@.len() - pos,
    {
        if pos >= headers.len() {
            return None;
        }
        proof {
            lemma_line_end(headers@, pos as int);
        }
        let le = match crate::text::find_byte(headers, pos, 10) {
            Some(i) => i,
            None => headers.len(),
        };
        assert(le == spec_line_end(headers@, pos as int));
        let mut lend = le;
        if lend > pos && headers[lend - 1] == 13 {
            lend -= 1;
        }
        assert(headers@.subrange(pos as int, lend as int) =~= spec_strip_cr(
            headers@.subrange(pos as int, le as int),
        ));
        let ghost line = spec_strip_cr(headers@.subrange(pos as int, le as int));
        if lend - pos > 5 && crate::text::lower_byte(headers[pos]) == 104
            && crate::text::lower_byte(headers[pos + 1]) == 111 && crate::text::lower_byte(
            headers[pos + 2],
        ) == 115 && crate::text::lower_byte(headers[pos + 3]) == 116 && headers[pos + 4] == 58 {
            assert(spec_is_host_line(line));
            // trim the value bytes in [pos + 5, lend)
            let mut vs = pos + 5;
            let mut ve = lend;
            proof {
                assert(headers@.subrange(vs as int, ve as int) =~= line.subrange(
                    5,
                    line.len() as int,
                ));
            }
            while vs < ve && (headers[vs] == 32 || headers[vs] == 9 || headers[vs] == 13
                || headers[vs] == 10)
                invariant
                    pos + 5 <= vs <= ve <= lend <= headers@.len(),
                    spec_trim(headers@.subrange(vs as int, ve as int)) == spec_trim(
                        line.subrange(5, line.len() as int),
                    ),
                decreases ve - vs,
            {
                proof {
                    assert(headers@.subrange(vs as int, ve as int).drop_first() =~= headers@
                        .subrange(vs as int + 1, ve as int));
                }
                vs += 1;
            }
            while ve > vs && (headers[ve - 1] == 32 || headers[ve - 1] == 9 || headers[ve - 1]
                == 13 || headers[ve - 1] == 10)
                invariant
                    pos + 5 <= vs <= ve <= lend <= headers@.len(),
                    vs < ve ==> !spec_is_space(headers@[vs as int]),
                    spec_trim(headers@.subrange(vs as int, ve as int)) == spec_trim(
                        line.subrange(5, line.len() as int),
                    ),
                decreases ve,
            {
                proof {
                    assert(headers@.subrange(vs as int, ve as int).drop_last() =~= headers@
                        .subrange(vs as int, ve as int - 1));
                }
                ve -= 1;
            }
            assert(headers@.subrange(vs as int, ve as int) == spec_trim(
                line.subrange(5, line.len() as int),
            ));
            let v = vstd::slice::slice_to_vec(&headers[vs..ve]);
            return bytes_to_string(v);
        }
        assert(!spec_is_host_line(line));
        if le >= headers.len() {
            return None;
        }
        pos = le + 1;
    }
}

/// One step of the buffered header read: given the bytes received so far,
/// decides whether the header block is complete, and if so extracts the
/// `Host` value and the number of bytes the block occupies (terminator
/// included). `Ok(None)` asks the caller to read more; a buffer that grows
/// past [`MAX_HEADER_BYTES`] without a terminator is refused.
pub fn scan_header_block(buffer: &[u8]) -> (r: Result<Option<(String, usize)>, HttpError>)
    ensures
        match r {
            Ok(Some((host, consumed))) => {
                &&& 4 <= consumed <= buffer@.len()
                &&& spec_crlf2_at(buffer@, consumed - 4)
                &&& forall|j: int| 0 <= j < consumed - 4 ==> !spec_crlf2_at(buffer@, j)
                &&& spec_find_host(buffer@.take(consumed as int), 0) matches Some(v) && valid_utf8(
                    v,
                ) && encode_utf8(host@) == v
            },
            Ok(None) => (forall|j: int| !spec_crlf2_at(buffer@, j)) && buffer@.len()
                <= MAX_HEADER_BYTES,
            Err(e) => {
                ||| (e is NoHostHeader && (exists|i: int|
                    spec_crlf2_at(buffer@, i)) && (spec_find_host(
                    buffer@.take(spec_headers_end(buffer@)),
                    0,
                ) is None || !valid_utf8(spec_find_host(buffer@.take(spec_headers_end(buffer@)), 0)->Some_0)))
                ||| (e is InvalidRequest && (forall|j: int| !spec_crlf2_at(buffer@, j))
                    && buffer@.len() > MAX_HEADER_BYTES)
            },
        },
{
    match find_headers_end(buffer) {
        Some(end) => {
            proof {
                lemma_headers_end_minimal(buffer@, end as int);
            }
            match extract_host_header(&buffer[0..end]) {
                Some(host) => Ok(Some((host, end))),
                None => Err(HttpError::NoHostHeader),
            }
        },
        None => {
            if buffer.len() > MAX_HEADER_BYTES {
                Err(HttpError::InvalidRequest)
            } else {
                Ok(None)
            }
        },
    }
}

/// The minimal header-block end of `b`: the least `i` with the terminator
/// at `i - 4`.
pub open spec fn spec_headers_end(b: Seq<u8>) -> int {
    choose|i: int|
        #[trigger] spec_crlf2_at(b, i - 4) && forall|j: int| 0 <= j < i - 4 ==> !spec_crlf2_at(b, j)
}

proof fn lemma_headers_end_minimal(b: Seq<u8>, end: int)
    requires
        4 <= end <= b.len(),
        spec_crlf2_at(b, end - 4),
        forall|j: int| 0 <= j < end - 4 ==> !spec_crlf2_at(b, j),
    ensures
        spec_headers_end(b) == end,
{
    assert(spec_crlf2_at(b, end - 4) && forall|j: int| 0 <= j < end - 4 ==> !spec_crlf2_at(b, j));
    let w = spec_headers_end(b);
    assert(spec_crlf2_at(b, w - 4) && forall|j: int| 0 <= j < w - 4 ==> !spec_crlf2_at(b, j));
    if w < end {
        assert(spec_crlf2_at(b, w - 4));
    } else if w > end {
        assert(spec_crlf2_at(b, end - 4));
    }
}

/// The numeric value of a string of decimal digits.
pub open spec fn spec_digits_val(s: Seq<u8>) -> int
    decreases s.len(),
{
    if s.len() == 0 {
        0
    } else {
        spec_digits_val(s.drop_last()) * 10 + (s.last() - 48)
    }
}

pub open spec fn spec_all_digits(s: Seq<u8>) -> bool {
    forall|i: int| 0 <= i < s.len() ==> 48 <= #[trigger] s[i] <= 57
}

/// The port encoded by `s`, when `s` is a non-empty digit string whose
/// value fits a 16-bit port.
pub open spec fn spec_port_of(s: Seq<u8>) -> Option<int> {
    if s.len() >= 1 && spec_all_digits(s) && spec_digits_val(s) <= 65535 {
        Some(spec_digits_val(s))
    } else {
        None
    }
}

proof fn lemma_digits_val_nonneg(s: Seq<u8>)
    requires
        spec_all_digits(s),
    ensures
        spec_digits_val(s) >= 0,
    decreases s.len(),
{
    if s.len() > 0 {
        assert(spec_all_digits(s.drop_last()));
        lemma_digits_val_nonneg(s.drop_last());
    }
}

proof fn lemma_digits_val_prefix(s: Seq<u8>, i: int)
    requires
        spec_all_digits(s),
        0 <= i <= s.len(),
    ensures
        spec_digits_val(s.take(i)) <= spec_digits_val(s),
    decreases s.len() - i,
{
    if i < s.len() {
        lemma_digits_val_prefix(s, i + 1);
        let t = s.take(i + 1);
        assert(spec_all_digits(t));
        assert(t.drop_last() =~= s.take(i));
        lemma_digits_val_nonneg(t.drop_last());
        assert(spec_digits_val(t) == spec_digits_val(s.take(i)) * 10 + (t.last() - 48));
        assert(spec_digits_val(s.take(i)) * 10 >= spec_digits_val(s.take(i)));
    } else {
        assert(s.take(i) =~= s);
    }
}

/// Parses a decimal port number: all bytes must be digits and the value
/// must fit in 16 bits.
pub fn parse_port(s: &[u8]) -> (r: Option<u16>)
    ensures
        match r {
            Some(p) => spec_port_of(s@) == Some(p as int),
            None => spec_port_of(s@) is None,
        },
{
    if s.len() == 0 {
        return None;
    }
    let mut acc: u32 = 0;
    let mut i: usize = 0;
    while i < s.len()
        invariant
            0 <= i <= s@.len(),
            spec_all_digits(s@.take(i as int)),
            acc == spec_digits_val(s@.take(i as int)),
            acc <= 65535,
        decreases s@.len() - i,
    {
        let b = s[i];
        if b < 48 || b > 57 {
            return None;
        }
        proof {
            assert(s@.take(i + 1).drop_last() =~= s@.take(i as int));
        }
        acc = acc * 10 + ((b - 48) as u32);
        i += 1;
        if acc > 65535 {
            proof {
                if spec_all_digits(s@) {
                    lemma_digits_val_prefix(s@, i as int);
                }
            }
            return None;
        }
    }
    proof {
        assert(s@.take(i as int) =~= s@);
    }
    Some(acc as u16)
}

/// Splits an optional `:port` suffix off a `Host` value: `Some((i, p))`
/// means the last colon stands at byte `i` and the bytes after it encode
/// port `p`; `None` means there is no colon, or what follows the last one
/// is not a port, and the caller should use the protocol's default port.
pub fn host_port_split(host: &str) -> (r: Option<(usize, u16)>)
    ensures
        ({
            let hb = encode_utf8(host@);
            match r {
                Some((i, p)) => 0 <= i < hb.len() && hb[i as int] == 58 && (forall|j: int|
                    i < j < hb.len() ==> hb[j] != 58) && spec_port_of(hb.skip(i + 1)) == Some(
                    p as int,
                ),
                None => forall|i: int|
                    (0 <= i < hb.len() && hb[i] == 58 && (forall|j: int|
                        i < j < hb.len() ==> hb[j] != 58)) ==> spec_port_of(hb.skip(i + 1)) is None,
            }
        }),
{
    let hb = host.as_bytes();
    let mut i = hb.len();
    loop
        invariant
            0 <= i <= hb@.len(),
            hb@.len() <= usize::MAX,
            hb@ == encode_utf8(host@),
            forall|j: int| i <= j < hb@.len() ==> hb@[j] != 58,
        decreases i,
    {
        if i == 0 {
            return None;
        }
        i -= 1;
        if hb[i] == 58 {
            proof {
                assert(hb@.subrange(i + 1, hb@.len() as int) =~= hb@.skip(i + 1));
            }
            match parse_port(&hb[i + 1..hb.len()]) {
                Some(p) => {
                    return Some((i, p));
                },
                None => {
                    proof {
                        let ghost hbs = encode_utf8(host@);
                        assert forall|k: int|
                            (0 <= k < hbs.len() && hbs[k] == 58 && (forall|j: int|
                                k < j < hbs.len() ==> hbs[j] != 58)) implies spec_port_of(
                            hbs.skip(k + 1),
                        ) is None by {
                            if k != i {
                                assert(hbs[i as int] == 58);
                            }
                        }
                    }
                    return None;
                },
            }
        }
    }
}

} // verus!
