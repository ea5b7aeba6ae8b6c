//! TLS ClientHello parsing: SNI and ALPN extraction.
//!
//! The input is a byte slice holding one complete TLS record. The parser
//! walks the record with a single cursor, validating every length field
//! against the slice end before indexing. The reference behaviour is given
//! by the spec functions [`spec_extract_sni`] and [`spec_extract_alpn`],
//! which the executable parsers are proved to implement exactly.

use vstd::prelude::*;
use vstd::utf8::{encode_utf8, valid_utf8};

use crate::text::bytes_to_string;

verus! {

/// Failure modes of ClientHello parsing.
#[derive(Debug, Clone, Copy, PartialEq, Eq, Structural)]
pub enum SniError {
    InvalidTlsVersion,
    InvalidHandshakeType,
    InvalidClientHello,
    InvalidSniFormat,
    MessageTruncated,
}

impl SniError {
    /// A short human-readable description of the error.
    pub fn message(&self) -> (r: &'static str)
        ensures
            (*self is InvalidTlsVersion ==> r@ == "Invalid TLS version"@) && (
            *self is InvalidHandshakeType ==> r@ == "Invalid handshake type"@) && (
            *self is InvalidClientHello ==> r@ == "Invalid Client Hello"@) && (
            *self is InvalidSniFormat ==> r@ == "Invalid SNI format"@) && (
            *self is MessageTruncated ==> r@ == "Message truncated"@),
    {
        match self {
            SniError::InvalidTlsVersion => "Invalid TLS version",
            SniError::InvalidHandshakeType => "Invalid handshake type",
            SniError::InvalidClientHello => "Invalid Client Hello",
            SniError::InvalidSniFormat => "Invalid SNI format",
            SniError::MessageTruncated => "Message truncated",
        }
    }
}

/// Big-endian 16-bit integer at position `i`.
pub open spec fn spec_u16(b: Seq<u8>, i: int) -> int {
    256 * (b[i] as int) + (b[i + 1] as int)
}

/// Big-endian 24-bit integer at position `i`.
pub open spec fn spec_u24(b: Seq<u8>, i: int) -> int {
    65536 * (b[i] as int) + 256 * (b[i + 1] as int) + (b[i + 2] as int)
}

/// Walks the fixed-layout prefix of a ClientHello record (record header,
/// handshake header, version, random, session id, cipher suites,
/// compression methods) and yields the half-open extension region, or the
/// error that the walk runs into.
pub open spec fn spec_locate_extensions(b: Seq<u8>) -> Result<(int, int), SniError> {
    if b.len() < 5 {
        Err(SniError::MessageTruncated)
    } else if b[0] != 0x16 {
        Err(SniError::InvalidHandshakeType)
    } else if b[1] != 0x03 {
        Err(SniError::InvalidTlsVersion)
    } else if b.len() < 5 + spec_u16(b, 3) {
        Err(SniError::MessageTruncated)
    } else if b.len() < 9 {
        Err(SniError::MessageTruncated)
    } else if b[5] != 0x01 {
        Err(SniError::InvalidClientHello)
    } else if b.len() < 9 + spec_u24(b, 6) {
        Err(SniError::MessageTruncated)
    } else if b.len() < 44 {
        // cursor after version (2) and random (32): 43; session-id length byte
        Err(SniError::MessageTruncated)
    } else {
        let p1 = 44 + (b[43] as int);
        if b.len() < p1 + 2 {
            Err(SniError::MessageTruncated)
        } else {
            let p2 = p1 + 2 + spec_u16(b, p1);
            if b.len() < p2 + 1 {
                Err(SniError::MessageTruncated)
            } else {
                let p3 = p2 + 1 + (b[p2] as int);
                if b.len() < p3 + 2 {
                    Err(SniError::MessageTruncated)
                } else {
                    let p4 = p3 + 2;
                    if b.len() < p4 + spec_u16(b, p3) {
                        Err(SniError::MessageTruncated)
                    } else {
                        Ok((p4, p4 + spec_u16(b, p3)))
                    }
                }
            }
        }
    }
}

/// Scans the server-name entry list between `pos` and `end` and yields the
/// bounds of the first entry of type 0 (host name), which must be
/// non-empty.
pub open spec fn spec_find_sni_entry(b: Seq<u8>, pos: int, end: int) -> Result<Seq<u8>, SniError>
    decreases end - pos
        when pos <= end
{
    if end - pos < 3 {
        Err(SniError::InvalidSniFormat)
    } else {
        let nl = spec_u16(b, pos + 1);
        let np = pos + 3;
        if nl > end - np {
            Err(SniError::MessageTruncated)
        } else if b[pos] == 0 {
            if nl == 0 {
                Err(SniError::InvalidSniFormat)
            } else {
                Ok(b.subrange(np, np + nl))
            }
        } else {
            spec_find_sni_entry(b, np + nl, end)
        }
    }
}

/// Scans the extension list between `pos` and `end` for the server-name
/// extension (type 0) and parses its entry list.
pub open spec fn spec_find_sni(b: Seq<u8>, pos: int, end: int) -> Result<Seq<u8>, SniError>
    decreases end - pos
        when pos <= end
{
    if end - pos < 4 {
        Err(SniError::InvalidSniFormat)
    } else {
        let el = spec_u16(b, pos + 2);
        let body = pos + 4;
        if el > end - body {
            Err(SniError::MessageTruncated)
        } else if spec_u16(b, pos) == 0 {
            if el < 2 {
                Err(SniError::InvalidSniFormat)
            } else {
                let ll = spec_u16(b, body);
                if ll + 2 > el {
                    Err(SniError::InvalidSniFormat)
                } else {
                    spec_find_sni_entry(b, body + 2, body + 2 + ll)
                }
            }
        } else {
            spec_find_sni(b, body + el, end)
        }
    }
}

/// The reference meaning of SNI extraction: the byte sequences on which it
/// succeeds, the name bytes it yields, and the error it reports otherwise.
pub open spec fn spec_extract_sni(b: Seq<u8>) -> Result<Seq<u8>, SniError> {
    match spec_locate_extensions(b) {
        Err(e) => Err(e),
        Ok((s, e)) => match spec_find_sni(b, s, e) {
            Err(e2) => Err(e2),
            Ok(name) => if valid_utf8(name) {
                Ok(name)
            } else {
                Err(SniError::InvalidSniFormat)
            },
        },
    }
}

/// Scans the extension list for the ALPN extension (type 16) and yields the
/// bytes of the first protocol in its list.
pub open spec fn spec_find_alpn(b: Seq<u8>, pos: int, end: int) -> Option<Seq<u8>>
    decreases end - pos
        when pos <= end
{
    if end - pos < 4 {
        None
    } else {
        let el = spec_u16(b, pos + 2);
        let body = pos + 4;
        if el > end - body {
            None
        } else if spec_u16(b, pos) == 16 {
            if el < 3 {
                None
            } else {
                let ll = spec_u16(b, body);
                let pl = b[body + 2] as int;
                if ll + 2 > el || ll < 1 || pl < 1 || pl + 1 > ll {
                    None
                } else {
                    Some(b.subrange(body + 3, body + 3 + pl))
                }
            }
        } else {
            spec_find_alpn(b, body + el, end)
        }
    }
}

/// The reference meaning of ALPN extraction: the first protocol of the ALPN
/// extension of a well-formed ClientHello, when it is valid UTF-8.
pub open spec fn spec_extract_alpn(b: Seq<u8>) -> Option<Seq<u8>> {
    match spec_locate_extensions(b) {
        Err(_) => None,
        Ok((s, e)) => match spec_find_alpn(b, s, e) {
            None => None,
            Some(proto) => if valid_utf8(proto) {
                Some(proto)
            } else {
                None
            },
        },
    }
}

/// Reads the big-endian 16-bit integer at `i`.
pub fn u16_at(b: &[u8], i: usize) -> (r: u16)
    requires
        i + 2 <= b@.len(),
    ensures
        r == spec_u16(b@, i as int),
{
    (b[i] as u16) * 256 + (b[i + 1] as u16)
}

/// Reads the big-endian 24-bit integer at `i`.
pub fn u24_at(b: &[u8], i: usize) -> (r: u32)
    requires
        i + 3 <= b@.len(),
    ensures
        r == spec_u24(b@, i as int),
{
    (b[i] as u32) * 65536 + (b[i + 1] as u32) * 256 + (b[i + 2] as u32)
}

/// Validates the fixed-layout prefix of a ClientHello record and returns
/// the half-open byte range that holds the extensions.
pub fn locate_extensions(record: &[u8]) -> (r: Result<(usize, usize), SniError>)
    ensures
        match r {
            Ok(p) => spec_locate_extensions(record@) == Ok::<_, SniError>(
                (p.0 as int, p.1 as int),
            ) && p.0 <= p.1 <= record@.len(),
            Err(e) => spec_locate_extensions(record@) == Err::<(int, int), SniError>(e),
        },
{
    if record.len() < 5 {
        return Err(SniError::MessageTruncated);
    }
    if record[0] != 0x16 {
        return Err(SniError::InvalidHandshakeType);
    }
    if record[1] != 0x03 {
        return Err(SniError::InvalidTlsVersion);
    }
    let rl = u16_at(record, 3) as usize;
    if record.len() < rl + 5 {
        return Err(SniError::MessageTruncated);
    }
    if record.len() < 9 {
        return Err(SniError::MessageTruncated);
    }
    if record[5] != 0x01 {
        return Err(SniError::InvalidClientHello);
    }
    let hl = u24_at(record, 6) as usize;
    if record.len() - 9 < hl {
        return Err(SniError::MessageTruncated);
    }
    if record.len() < 44 {
        return Err(SniError::MessageTruncated);
    }
    let p1 = 44 + (record[43] as usize);
    if record.len() < p1 + 2 {
        return Err(SniError::MessageTruncated);
    }
    let p2 = p1 + 2 + (u16_at(record, p1) as usize);
    if record.len() < p2 + 1 {
        return Err(SniError::MessageTruncated);
    }
    let p3 = p2 + 1 + (record[p2] as usize);
    if record.len() < p3 + 2 {
        return Err(SniError::MessageTruncated);
    }
    let el = u16_at(record, p3) as usize;
    let p4 = p3 + 2;
    if record.len() - p4 < el {
        return Err(SniError::MessageTruncated);
    }
    Ok((p4, p4 + el))
}

/// Finds the first non-empty host-name entry in the server-name list.
fn find_sni_entry(b: &[u8], start: usize, end: usize) -> (r: Result<(usize, usize), SniError>)
    requires
        start <= end <= b@.len(),
    ensures
        match r {
            Ok(p) => spec_find_sni_entry(b@, start as int, end as int) == Ok::<_, SniError>(
                b@.subrange(p.0 as int, p.0 + p.1),
            ) && p.0 + p.1 <= end && p.1 >= 1,
            Err(e) => spec_find_sni_entry(b@, start as int, end as int) == Err::<Seq<u8>, SniError>(
                e,
            ),
        },
{
    let mut pos = start;
    loop
        invariant
            start <= pos <= end <= b@.len(),
            spec_find_sni_entry(b@, pos as int, end as int) == spec_find_sni_entry(
                b@,
                start as int,
                end as int,
            ),
        decreases end - pos,
    {
        if end - pos < 3 {
            return Err(SniError::InvalidSniFormat);
        }
        let nt = b[pos];
        let nl = u16_at(b, pos + 1) as usize;
        let np = pos + 3;
        if nl > end - np {
            return Err(SniError::MessageTruncated);
        }
        if nt == 0 {
            if nl == 0 {
                return Err(SniError::InvalidSniFormat);
            }
            return Ok((np, nl));
        }
        pos = np + nl;
    }
}

/// Finds the server-name extension and the first host-name entry in it.
fn find_sni(b: &[u8], start: usize, end: usize) -> (r: Result<(usize, usize), SniError>)
    requires
        start <= end <= b@.len(),
    ensures
        match r {
            Ok(p) => spec_find_sni(b@, start as int, end as int) == Ok::<_, SniError>(
                b@.subrange(p.0 as int, p.0 + p.1),
            ) && p.0 + p.1 <= end && p.1 >= 1,
            Err(e) => spec_find_sni(b@, start as int, end as int) == Err::<Seq<u8>, SniError>(e),
        },
{
    let mut pos = start;
    loop
        invariant
            start <= pos <= end <= b@.len(),
            spec_find_sni(b@, pos as int, end as int) == spec_find_sni(
                b@,
                start as int,
                end as int,
            ),
        decreases end - pos,
    {
        if end - pos < 4 {
            return Err(SniError::InvalidSniFormat);
        }
        let et = u16_at(b, pos);
        let el = u16_at(b, pos + 2) as usize;
        let body = pos + 4;
        if el > end - body {
            return Err(SniError::MessageTruncated);
        }
        if et == 0 {
            if el < 2 {
                return Err(SniError::InvalidSniFormat);
            }
            let ll = u16_at(b, body) as usize;
            if ll + 2 > el {
                return Err(SniError::InvalidSniFormat);
            }
            return find_sni_entry(b, body + 2, body + 2 + ll);
        }
        pos = body + el;
    }
}

/// Extracts the SNI host name from a TLS ClientHello record.
///
/// Succeeds exactly on the records on which [`spec_extract_sni`] succeeds: a
/// handshake record of TLS version 3.x whose ClientHello carries a
/// server-name extension with a non-empty host-name entry in valid UTF-8.
/// It never reads past the end of `record`.
pub fn extract_sni(record: &[u8]) -> (r: Result<String, SniError>)
    ensures
        match r {
            Ok(host) => spec_extract_sni(record@) matches Ok(name) && encode_utf8(host@) == name,
            Err(e) => spec_extract_sni(record@) == Err::<Seq<u8>, SniError>(e),
        },
{
    let (ext_start, ext_end) = match locate_extensions(record) {
        Ok(p) => p,
        Err(e) => {
            return Err(e);
        },
    };
    match find_sni(record, ext_start, ext_end) {
        Ok((np, nl)) => {
            let name = vstd::slice::slice_to_vec(&record[np..np + nl]);
            match bytes_to_string(name) {
                Some(s) => Ok(s),
                None => Err(SniError::InvalidSniFormat),
            }
        },
        Err(e) => Err(e),
    }
}

/// Finds the ALPN extension and the bounds of its first protocol entry.
fn find_alpn(b: &[u8], start: usize, end: usize) -> (r: Option<(usize, usize)>)
    requires
        start <= end <= b@.len(),
    ensures
        match r {
            Some(p) => spec_find_alpn(b@, start as int, end as int) == Some(
                b@.subrange(p.0 as int, p.0 + p.1),
            ) && p.0 + p.1 <= end && p.1 >= 1,
            None => spec_find_alpn(b@, start as int, end as int) is None,
        },
{
    let mut pos = start;
    loop
        invariant
            start <= pos <= end <= b@.len(),
            spec_find_alpn(b@, pos as int, end as int) == spec_find_alpn(
                b@,
                start as int,
                end as int,
            ),
        decreases end - pos,
    {
        if end - pos < 4 {
            return None;
        }
        let et = u16_at(b, pos);
        let el = u16_at(b, pos + 2) as usize;
        let body = pos + 4;
        if el > end - body {
            return None;
        }
        if et == 16 {
            if el < 3 {
                return None;
            }
            let ll = u16_at(b, body) as usize;
            let pl = b[body + 2] as usize;
            if ll + 2 > el || ll < 1 || pl < 1 || pl + 1 > ll {
                return None;
            }
            return Some((body + 3, pl));
        }
        pos = body + el;
    }
}

/// Extracts the first ALPN protocol from a TLS ClientHello record, when the
/// record is well-formed, carries an ALPN extension, and the first protocol
/// entry is non-empty valid UTF-8.
pub fn extract_alpn(record: &[u8]) -> (r: Option<String>)
    ensures
        match r {
            Some(proto) => spec_extract_alpn(record@) matches Some(p) && encode_utf8(proto@) == p,
            None => spec_extract_alpn(record@) is None,
        },
{
    let (ext_start, ext_end) = match locate_extensions(record) {
        Ok(p) => p,
        Err(_) => {
            return None;
        },
    };
    match find_alpn(record, ext_start, ext_end) {
        Some((pp, pl)) => {
            let proto = vstd::slice::slice_to_vec(&record[pp..pp + pl]);
            bytes_to_string(proto)
        },
        None => None,
    }
}

/// Reads the record length out of a 5-byte TLS record header and accepts it
/// when the header is a handshake record whose length lies in the window
/// the proxy is willing to buffer, 4 to 16384 bytes.
pub fn tls_record_length(header: &[u8]) -> (r: Option<usize>)
    requires
        header@.len() >= 5,
    ensures
        match r {
            Some(n) => header@[0] == 0x16 && n == spec_u16(header@, 3) && 4 <= n <= 16384,
            None => header@[0] != 0x16 || !(4 <= spec_u16(header@, 3) <= 16384),
        },
{
    if header[0] != 0x16 {
        return None;
    }
    let n = u16_at(header, 3) as usize;
    if 4 <= n && n <= 16384 {
        Some(n)
    } else {
        None
    }
}


/// A 16-bit integer as two big-endian bytes.
pub open spec fn spec_u16be(n: int) -> Seq<u8> {
    seq![(n / 256) as u8, (n % 256) as u8]
}

/// The byte sequence of a minimal ClientHello record that carries `d` as
/// its SNI host name and, when given, `a` as its single ALPN protocol:
/// empty session id, one null cipher suite, null compression, and exactly
/// those extensions.
pub open spec fn spec_build_client_hello(d: Seq<u8>, alpn: Option<Seq<u8>>) -> Seq<u8> {
    let dl = d.len() as int;
    let sni_list = 3 + dl;
    let sni_ext = 2 + sni_list;
    let alpn_block = spec_alpn_block(alpn);
    let ext_len = 4 + sni_ext + alpn_block.len() as int;
    let hl = 43 + ext_len;
    let rl = 4 + hl;
    seq![0x16u8, 3u8, 3u8] + spec_u16be(rl) + seq![1u8, 0u8] + spec_u16be(hl) + seq![3u8, 3u8]
        + Seq::new(32, |i: int| 0u8) + seq![0u8, 0u8, 2u8, 0u8, 0u8, 1u8, 0u8] + spec_u16be(
        ext_len,
    ) + seq![0u8, 0u8] + spec_u16be(sni_ext) + spec_u16be(sni_list) + seq![0u8] + spec_u16be(dl)
        + d + alpn_block
}

/// The ALPN extension bytes, or nothing.
pub open spec fn spec_alpn_block(alpn: Option<Seq<u8>>) -> Seq<u8> {
    match alpn {
        None => Seq::<u8>::empty(),
        Some(a) => seq![0u8, 16u8] + spec_u16be(2 + (1 + a.len() as int)) + spec_u16be(
            1 + a.len() as int,
        ) + seq![a.len() as u8] + a,
    }
}

/// Reading back two big-endian bytes gives the value they were made from.
proof fn lemma_u16_bytes(n: int, b0: u8, b1: u8)
    requires
        0 <= n < 65536,
        b0 == (n / 256) as u8,
        b1 == (n % 256) as u8,
    ensures
        256 * (b0 as int) + (b1 as int) == n,
{
    vstd::arithmetic::div_mod::lemma_fundamental_div_mod(n, 256);
    assert(0 <= n / 256 < 256 && 0 <= n % 256 < 256) by (nonlinear_arith)
        requires
            0 <= n < 65536,
    ;
}

/// Law: parsing the SNI out of a built ClientHello gives back the domain,
/// and parsing the ALPN gives back the protocol.
#[verifier::rlimit(100)]
#[verifier::spinoff_prover]
pub proof fn lemma_client_hello_round_trip(d: Seq<u8>, alpn: Option<Seq<u8>>)
    requires
        1 <= d.len() <= 255,
        valid_utf8(d),
        alpn matches Some(a) ==> 1 <= a.len() <= 255,
    ensures
        spec_extract_sni(spec_build_client_hello(d, alpn)) == Ok::<Seq<u8>, SniError>(d),
        match alpn {
            Some(a) => valid_utf8(a) ==> spec_extract_alpn(spec_build_client_hello(d, alpn))
                == Some(a),
            None => true,
        },
{
    let b = spec_build_client_hello(d, alpn);
    let dl = d.len() as int;
    let sni_list = 3 + dl;
    let sni_ext = 2 + sni_list;
    let ab = spec_alpn_block(alpn);
    let abl = ab.len() as int;
    let ext_len = 4 + sni_ext + abl;
    let hl = 43 + ext_len;
    let rl = 4 + hl;
    assert(abl == (match alpn {
        None => 0,
        Some(a) => 7 + a.len(),
    }));
    assert(b.len() == 52 + ext_len);
    assert(b.len() == rl + 5);

    lemma_u16_bytes(rl, b[3], b[4]);
    assert(spec_u16(b, 3) == rl);
    assert(b[0] == 0x16 && b[1] == 3 && b[5] == 1);
    assert(b[6] == 0);
    lemma_u16_bytes(hl, b[7], b[8]);
    assert(spec_u24(b, 6) == hl);
    assert(b[43] == 0);
    assert(b[44] == 0 && b[45] == 2);
    assert(b[48] == 1);
    lemma_u16_bytes(ext_len, b[50], b[51]);
    assert(spec_u16(b, 50) == ext_len);
    assert(spec_locate_extensions(b) == Ok::<(int, int), SniError>((52, 52 + ext_len)));

    let end = 52 + ext_len;
    assert(b[52] == 0 && b[53] == 0);
    lemma_u16_bytes(sni_ext, b[54], b[55]);
    assert(spec_u16(b, 52) == 0);
    assert(spec_u16(b, 54) == sni_ext);
    lemma_u16_bytes(sni_list, b[56], b[57]);
    assert(spec_u16(b, 56) == sni_list);
    assert(b[58] == 0);
    lemma_u16_bytes(dl, b[59], b[60]);
    assert(spec_u16(b, 59) == dl);
    assert(b.subrange(61, 61 + dl) =~= d);
    assert(spec_find_sni_entry(b, 58, 58 + sni_list) == Ok::<Seq<u8>, SniError>(d));
    assert(spec_find_sni(b, 52, end) == Ok::<Seq<u8>, SniError>(d));
    assert(spec_extract_sni(b) == Ok::<Seq<u8>, SniError>(d));

    match alpn {
        None => {
        },
        Some(a) => {
            let al = 1 + a.len() as int;
            let ap = 61 + dl;
            assert(b[ap] == 0 && b[ap + 1] == 16);
            assert(spec_u16(b, ap) == 16);
            lemma_u16_bytes(2 + al, b[ap + 2], b[ap + 3]);
            assert(spec_u16(b, ap + 2) == 2 + al);
            lemma_u16_bytes(al, b[ap + 4], b[ap + 5]);
            assert(spec_u16(b, ap + 4) == al);
            assert(b[ap + 6] == a.len() as u8);
            assert((a.len() as u8) as int == a.len() as int);
            assert(b.subrange(ap + 7, ap + 7 + a.len()) =~= a);
            assert(spec_find_alpn(b, ap, end) == Some(a));
            assert(spec_find_alpn(b, 52, end) == Some(a));
            if valid_utf8(a) {
                assert(spec_extract_alpn(b) == Some(a));
            }
        },
    }
}

/// Builds the minimal ClientHello of [`spec_build_client_hello`]: the
/// record a round trip through [`extract_sni`] and [`extract_alpn`] is
/// proved for.
#[verifier::rlimit(100)]
#[verifier::spinoff_prover]
pub fn build_client_hello(domain: &[u8], alpn: Option<&[u8]>) -> (r: Vec<u8>)
    requires
        1 <= domain@.len() <= 255,
        alpn matches Some(a) ==> 1 <= a@.len() <= 255,
    ensures
        r@ == spec_build_client_hello(domain@, match alpn {
            Some(a) => Some(a@),
            None => None,
        }),
{
    let dl = domain.len();
    let abl: usize = match alpn {
        Some(a) => 7 + a.len(),
        None => 0,
    };
    let sni_list = 3 + dl;
    let sni_ext = 2 + sni_list;
    let ext_len = 4 + sni_ext + abl;
    let hl = 43 + ext_len;
    let rl = 4 + hl;
    let mut out: Vec<u8> = Vec::new();
    out.push(0x16);
    out.push(3);
    out.push(3);
    push_u16be(&mut out, rl);
    out.push(1);
    out.push(0);
    push_u16be(&mut out, hl);
    out.push(3);
    out.push(3);
    let mut i: usize = 0;
    while i < 32
        invariant
            0 <= i <= 32,
            out@.len() == 11 + i,
            out@.take(11) == out@.take(11),
            forall|j: int| 0 <= j < out@.len() ==> out@[j] == (if j < 11 {
                out@.take(11)[j]
            } else {
                0u8
            }),
            out@.take(11) =~= (seq![0x16u8, 3u8, 3u8] + spec_u16be(rl as int) + seq![1u8, 0u8]
                + spec_u16be(hl as int) + seq![3u8, 3u8]).take(11),
            (seq![0x16u8, 3u8, 3u8] + spec_u16be(rl as int) + seq![1u8, 0u8] + spec_u16be(
                hl as int,
            ) + seq![3u8, 3u8]).len() == 11,
        decreases 32 - i,
    {
        out.push(0);
        i += 1;
    }
    proof {
        assert(out@ =~= seq![0x16u8, 3u8, 3u8] + spec_u16be(rl as int) + seq![1u8, 0u8]
            + spec_u16be(hl as int) + seq![3u8, 3u8] + Seq::new(32, |k: int| 0u8));
    }
    let ghost head = out@;
    out.push(0);
    out.push(0);
    out.push(2);
    out.push(0);
    out.push(0);
    out.push(1);
    out.push(0);
    push_u16be(&mut out, ext_len);
    out.push(0);
    out.push(0);
    push_u16be(&mut out, sni_ext);
    push_u16be(&mut out, sni_list);
    out.push(0);
    push_u16be(&mut out, dl);
    let ghost mid = out@;
    let mut k: usize = 0;
    while k < domain.len()
        invariant
            0 <= k <= domain@.len(),
            out@ == mid + domain@.take(k as int),
        decreases domain@.len() - k,
    {
        proof {
            assert(mid + domain@.take(k + 1) =~= (mid + domain@.take(k as int)).push(
                domain@[k as int],
            ));
        }
        out.push(domain[k]);
        k += 1;
    }
    proof {
        assert(domain@.take(domain@.len() as int) =~= domain@);
    }
    match alpn {
        Some(a) => {
            out.push(0);
            out.push(16);
            push_u16be(&mut out, 2 + (1 + a.len()));
            push_u16be(&mut out, 1 + a.len());
            out.push(#[verifier::truncate] (a.len() as u8));
            let ghost mid2 = out@;
            let mut m: usize = 0;
            while m < a.len()
                invariant
                    0 <= m <= a@.len(),
                    out@ == mid2 + a@.take(m as int),
                decreases a@.len() - m,
            {
                proof {
                    assert(mid2 + a@.take(m + 1) =~= (mid2 + a@.take(m as int)).push(a@[m as int]));
                }
                out.push(a[m]);
                m += 1;
            }
            proof {
                assert(a@.take(a@.len() as int) =~= a@);
                assert(out@ =~= spec_build_client_hello(domain@, Some(a@)));
            }
        },
        None => {
            proof {
                assert(spec_alpn_block(None) =~= Seq::<u8>::empty());
                assert(out@ =~= spec_build_client_hello(domain@, None));
            }
        },
    }
    out
}

/// Appends a 16-bit value as two big-endian bytes.
fn push_u16be(out: &mut Vec<u8>, n: usize)
    requires
        n < 65536,
    ensures
        final(out)@ == old(out)@ + spec_u16be(n as int),
{
    proof {
        assert(0 <= (n as int) / 256 < 256 && 0 <= (n as int) % 256 < 256) by (nonlinear_arith)
            requires
                0 <= n < 65536,
        ;
    }
    out.push((n / 256) as u8);
    out.push((n % 256) as u8);
    proof {
        assert(final(out)@ =~= old(out)@ + spec_u16be(n as int));
    }
}

} // verus!
