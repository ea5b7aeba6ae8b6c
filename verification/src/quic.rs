//! QUIC datagram handling: protocol detection on UDP payloads and SNI
//! extraction from a QUIC Initial packet, plus the transport-configuration
//! stubs of the HTTP/3 path.
//!
//! The Initial-packet parser walks the long header (destination and source
//! connection ids, token, length), then scans the remaining payload for an
//! embedded TLS ClientHello and hands it to [`crate::tls::extract_sni`].

use vstd::prelude::*;
use vstd::utf8::encode_utf8;

use crate::tls::spec_extract_sni;

verus! {

/// What a UDP datagram looks like from its first byte.
#[derive(Debug, Clone, Copy, PartialEq, Eq, Structural)]
pub enum UdpProtocol {
    Quic,
    Unknown,
}

/// Classifies a UDP datagram: QUIC long-header packets (first bit set, at
/// least five bytes) and everything else.
pub fn detect_udp_protocol(data: &[u8]) -> (r: UdpProtocol)
    ensures
        r is Quic <==> (data@.len() >= 5 && data@[0] & 0x80 != 0),
{
    if data.len() >= 5 && data[0] & 0x80 != 0 {
        UdpProtocol::Quic
    } else {
        UdpProtocol::Unknown
    }
}

/// Failure modes of QUIC SNI extraction.
#[derive(Debug, Clone, Copy, PartialEq, Eq, Structural)]
pub enum QuicSniError {
    PacketTooSmall,
    NotLongHeader,
    PacketTruncated,
    NoSni,
}

impl QuicSniError {
    /// A short human-readable description of the error.
    pub fn message(&self) -> (r: &'static str)
        ensures
            (*self is PacketTooSmall ==> r@ == "Packet too small to be QUIC Initial"@) && (
            *self is NotLongHeader ==> r@ == "Not a QUIC long header packet"@) && (
            *self is PacketTruncated ==> r@ == "Packet truncated"@) && (*self is NoSni ==> r@
                == "No valid SNI found in QUIC packet"@),
    {
        match self {
            QuicSniError::PacketTooSmall => "Packet too small to be QUIC Initial",
            QuicSniError::NotLongHeader => "Not a QUIC long header packet",
            QuicSniError::PacketTruncated => "Packet truncated",
            QuicSniError::NoSni => "No valid SNI found in QUIC packet",
        }
    }
}

/// Where the payload of a QUIC Initial packet starts: after the version,
/// the destination and source connection ids, the token, and the two-byte
/// length field.
pub open spec fn spec_quic_payload_offset(p: Seq<u8>) -> Result<int, QuicSniError> {
    if p.len() < 20 {
        Err(QuicSniError::PacketTooSmall)
    } else if p[0] & 0x80 == 0 {
        Err(QuicSniError::NotLongHeader)
    } else {
        let o1 = 6 + (p[5] as int);
        if p.len() < o1 + 1 {
            Err(QuicSniError::PacketTruncated)
        } else {
            let o2 = o1 + 1 + (p[o1] as int);
            if p.len() < o2 + 1 {
                Err(QuicSniError::PacketTruncated)
            } else {
                let o3 = o2 + 1 + (p[o2] as int);
                if p.len() < o3 + 2 {
                    Err(QuicSniError::PacketTruncated)
                } else {
                    Ok(o3 + 2)
                }
            }
        }
    }
}

/// The SNI of the first position in the payload that starts a parseable
/// TLS ClientHello record.
pub open spec fn spec_scan_for_hello(p: Seq<u8>, i: int, iend: int) -> Option<Seq<u8>>
    decreases iend - i
        when i <= iend
{
    if i >= iend {
        None
    } else if p[i] == 0x16 && spec_extract_sni(p.skip(i)) is Ok {
        Some(spec_extract_sni(p.skip(i))->Ok_0)
    } else {
        spec_scan_for_hello(p, i + 1, iend)
    }
}

/// What QUIC SNI extraction yields for a datagram.
pub open spec fn spec_quic_sni(p: Seq<u8>) -> Result<Seq<u8>, QuicSniError> {
    match spec_quic_payload_offset(p) {
        Err(e) => Err(e),
        Ok(off) => {
            let payload = p.skip(off);
            let iend = if payload.len() >= 5 {
                payload.len() - 5
            } else {
                0
            };
            match spec_scan_for_hello(payload, 0, iend) {
                Some(s) => Ok(s),
                None => Err(QuicSniError::NoSni),
            }
        },
    }
}

/// Extracts the SNI hostname from a QUIC Initial packet, by locating the
/// packet payload and scanning it for an embedded TLS ClientHello.
pub fn extract_quic_sni(packet: &[u8]) -> (r: Result<String, QuicSniError>)
    ensures
        match r {
            Ok(s) => spec_quic_sni(packet@) matches Ok(name) && encode_utf8(s@) == name,
            Err(e) => spec_quic_sni(packet@) == Err::<Seq<u8>, QuicSniError>(e),
        },
{
    if packet.len() < 20 {
        return Err(QuicSniError::PacketTooSmall);
    }
    if packet[0] & 0x80 == 0 {
        return Err(QuicSniError::NotLongHeader);
    }
    let o1 = 6 + (packet[5] as usize);
    if packet.len() < o1 + 1 {
        return Err(QuicSniError::PacketTruncated);
    }
    let o2 = o1 + 1 + (packet[o1] as usize);
    if packet.len() < o2 + 1 {
        return Err(QuicSniError::PacketTruncated);
    }
    let o3 = o2 + 1 + (packet[o2] as usize);
    if packet.len() < o3 + 2 {
        return Err(QuicSniError::PacketTruncated);
    }
    let off = o3 + 2;
    let ghost payload = packet@.skip(off as int);
    let plen = packet.len() - off;
    let iend = if plen >= 5 {
        plen - 5
    } else {
        0
    };
    let mut i: usize = 0;
    while i < iend
        invariant
            0 <= i <= iend,
            off + plen == packet@.len(),
            packet@.len() <= usize::MAX,
            payload == packet@.skip(off as int),
            plen == payload.len(),
            spec_quic_payload_offset(packet@) == Ok::<int, QuicSniError>(off as int),
            iend == if plen >= 5 {
                plen - 5
            } else {
                0
            },
            spec_scan_for_hello(payload, i as int, iend as int) == spec_scan_for_hello(
                payload,
                0,
                iend as int,
            ),
        decreases iend - i,
    {
        if packet[off + i] == 0x16 {
            proof {
                assert(payload[i as int] == packet@[off + i]);
                assert(packet@.subrange(off + i, packet@.len() as int) =~= payload.skip(i as int));
            }
            match crate::tls::extract_sni(&packet[off + i..packet.len()]) {
                Ok(s) => {
                    proof {
                        assert(spec_scan_for_hello(payload, i as int, iend as int)
                            == Some(spec_extract_sni(payload.skip(i as int))->Ok_0));
                    }
                    return Ok(s);
                },
                Err(_) => {},
            }
        } else {
            proof {
                assert(payload[i as int] == packet@[off + i]);
            }
        }
        i += 1;
    }
    Err(QuicSniError::NoSni)
}

/// Tuning knobs of the QUIC transport (held for the full HTTP/3 path).
#[derive(Debug, Clone)]
pub struct QuicConfig {
    /// Maximum concurrent streams per connection.
    pub max_concurrent_streams: u32,
    /// Connection idle timeout in seconds.
    pub idle_timeout: u64,
    /// Whether 0-RTT resumption is offered.
    pub enable_0rtt: bool,
}

impl Default for QuicConfig {
    /// The stock configuration: 100 streams, 60 s idle, 0-RTT on.
    fn default() -> (r: Self)
        ensures
            r.max_concurrent_streams == 100 && r.idle_timeout == 60 && r.enable_0rtt,
    {
        QuicConfig { max_concurrent_streams: 100, idle_timeout: 60, enable_0rtt: true }
    }
}

/// Holder for a future full QUIC connection handler; the datagram relay
/// above is what runs today.
pub struct QuicHandler {
    config: QuicConfig,
}

impl QuicHandler {
    pub closed spec fn spec_config(&self) -> QuicConfig {
        self.config
    }

    /// Wraps a configuration for the future connection handler.
    pub fn new(config: QuicConfig) -> (r: Self)
        ensures
            r.spec_config() == config,
    {
        QuicHandler { config }
    }

    /// Full QUIC connection handling is not implemented; the call always
    /// reports that.
    pub fn handle_connection(&self, _conn: ()) -> (r: Result<(), String>)
        ensures
            r matches Err(m) && m@ == "Full QUIC connection handling not yet implemented"@,
    {
        Err(String::from_str("Full QUIC connection handling not yet implemented"))
    }
}

/// Accepts any configuration; transport setup happens when a full QUIC
/// stack is wired in.
pub fn configure_quic_transport(_config: &QuicConfig) -> (r: Result<(), String>)
    ensures
        r is Ok,
{
    Ok(())
}

/// 0-RTT resumption is not implemented; the call always reports that.
pub fn handle_0rtt_data(_data: &[u8]) -> (r: Result<(), String>)
    ensures
        r matches Err(m) && m@ == "0-RTT resumption not yet implemented"@,
{
    Err(String::from_str("0-RTT resumption not yet implemented"))
}

} // verus!
