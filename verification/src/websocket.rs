//! WebSocket permessage-deflate handling: negotiation of the extension
//! header, the decision whether to compress, the framing around raw
//! DEFLATE, and transfer statistics.
//!
//! The DEFLATE transform itself comes from the `flate2` crate behind
//! trusted wrappers; what this module proves is the framing around it: the
//! minimum-size and benefit checks, the trailing-marker trimming on
//! compression and its re-addition on decompression.

use vstd::prelude::*;
use vstd::utf8::encode_utf8;

use crate::text::{bytes_contains, lower_bytes, spec_contains, spec_lower_bytes};
use std::io::Read;
use std::io::Write;

verus! {

/// Configuration for WebSocket permessage-deflate.
#[derive(Debug, Clone)]
pub struct WebSocketCompressionConfig {
    /// Whether compression is offered at all.
    pub enabled: bool,
    /// DEFLATE level, 0 (store) to 9 (best).
    pub compression_level: u32,
    /// Demand that the server reset its window between messages.
    pub server_no_context_takeover: bool,
    /// Demand that the client reset its window between messages.
    pub client_no_context_takeover: bool,
    /// Largest LZ77 window the server may use, in bits.
    pub server_max_window_bits: u8,
    /// Largest LZ77 window the client may use, in bits.
    pub client_max_window_bits: u8,
    /// Messages below this size are sent uncompressed.
    pub min_compress_size: usize,
}

impl Default for WebSocketCompressionConfig {
    /// The stock configuration: level 6, 15-bit windows, context takeover
    /// allowed, 256-byte minimum.
    fn default() -> (r: Self)
        ensures
            r.enabled && r.compression_level == 6 && !r.server_no_context_takeover
                && !r.client_no_context_takeover && r.server_max_window_bits == 15
                && r.client_max_window_bits == 15 && r.min_compress_size == 256,
    {
        WebSocketCompressionConfig {
            enabled: true,
            compression_level: 6,
            server_no_context_takeover: false,
            client_no_context_takeover: false,
            server_max_window_bits: 15,
            client_max_window_bits: 15,
            min_compress_size: 256,
        }
    }
}

/// What raw DEFLATE at a given level produces for given bytes. Relied on
/// below: for one flate2 version the output is a function of the input and
/// level alone.
pub uninterp spec fn deflate_of(data: Seq<u8>, level: u32) -> Seq<u8>;

/// What raw INFLATE produces: the decoded bytes, or nothing when the input
/// is not a DEFLATE stream.
pub uninterp spec fn inflate_of(data: Seq<u8>) -> Option<Seq<u8>>;

/// Relies on flate2's `DeflateEncoder`: one-shot raw DEFLATE of the input
/// at the given level, deterministic in the input and level. Writing into
/// a `Vec` sink cannot fail.
#[verifier::external_body]
fn deflate_bytes(data: &[u8], level: u32) -> (r: Vec<u8>)
    ensures
        r@ == deflate_of(data@, level),
{
    let mut encoder = flate2::write::DeflateEncoder::new(
        Vec::new(),
        flate2::Compression::new(level),
    );
    if encoder.write_all(data).is_err() {
        return Vec::new();
    }
    match encoder.finish() {
        Ok(v) => v,
        Err(_) => Vec::new(),
    }
}

/// Relies on flate2's `DeflateDecoder`: one-shot raw INFLATE, failing
/// exactly on inputs that are not a DEFLATE stream, deterministic in the
/// input.
#[verifier::external_body]
fn inflate_bytes(data: &[u8]) -> (r: Result<Vec<u8>, std::io::Error>)
    ensures
        match r {
            Ok(v) => inflate_of(data@) == Some(v@),
            Err(_) => inflate_of(data@) is None,
        },
{
    let mut decoder = flate2::read::DeflateDecoder::new(data);
    let mut out = Vec::new();
    match decoder.read_to_end(&mut out) {
        Ok(_) => Ok(out),
        Err(e) => Err(e),
    }
}

/// The compressed bytes with the RFC 7692 trailing marker
/// `00 00 ff ff` removed, when it is there.
pub open spec fn spec_trim_deflate_tail(c: Seq<u8>) -> Seq<u8> {
    if c.len() >= 4 && c[c.len() - 4] == 0 && c[c.len() - 3] == 0 && c[c.len() - 2] == 0xff && c[c.len()
        - 1] == 0xff {
        c.take(c.len() - 4)
    } else {
        c
    }
}

/// What `compress` yields for a message: nothing when compression is off,
/// the message is under the minimum size, or the trimmed DEFLATE output is
/// no smaller than the input; the trimmed output otherwise.
pub open spec fn spec_compress(
    config: WebSocketCompressionConfig,
    data: Seq<u8>,
) -> Option<Seq<u8>> {
    if !config.enabled || data.len() < config.min_compress_size {
        None
    } else {
        let t = spec_trim_deflate_tail(deflate_of(data, config.compression_level));
        if t.len() < data.len() {
            Some(t)
        } else {
            None
        }
    }
}

/// Compression and decompression of WebSocket message payloads.
pub struct WebSocketCompression {
    config: WebSocketCompressionConfig,
}

impl WebSocketCompression {
    pub closed spec fn spec_config(&self) -> WebSocketCompressionConfig {
        self.config
    }

    /// Wraps a configuration.
    pub fn new(config: WebSocketCompressionConfig) -> (r: Self)
        ensures
            r.spec_config() == config,
    {
        WebSocketCompression { config }
    }

    /// The configuration in use.
    pub fn config(&self) -> (r: &WebSocketCompressionConfig)
        ensures
            *r == self.spec_config(),
    {
        &self.config
    }

    /// Whether a message of `size` bytes is worth trying to compress.
    pub fn should_compress(&self, size: usize) -> (r: bool)
        ensures
            r == (self.spec_config().enabled && size >= self.spec_config().min_compress_size),
    {
        self.config.enabled && size >= self.config.min_compress_size
    }

    /// Compresses a message payload, yielding `None` whenever the original
    /// bytes should be sent instead (see [`spec_compress`]). The trailing
    /// `00 00 ff ff` marker is trimmed per RFC 7692.
    pub fn compress(&self, data: &[u8]) -> (r: Result<Option<Vec<u8>>, std::io::Error>)
        ensures
            r matches Ok(o) && (match o {
                Some(v) => spec_compress(self.spec_config(), data@) == Some(v@),
                None => spec_compress(self.spec_config(), data@) is None,
            }),
    {
        if !self.config.enabled {
            return Ok(None);
        }
        if data.len() < self.config.min_compress_size {
            return Ok(None);
        }
        let mut compressed = deflate_bytes(data, self.config.compression_level);
        let clen = compressed.len();
        if clen >= 4 && compressed[clen - 4] == 0 && compressed[clen - 3] == 0 && compressed[clen
            - 2] == 0xff && compressed[clen - 1] == 0xff {
            compressed.truncate(clen - 4);
        }
        proof {
            assert(compressed@ == spec_trim_deflate_tail(
                deflate_of(data@, self.config.compression_level),
            ));
        }
        if compressed.len() < data.len() {
            Ok(Some(compressed))
        } else {
            Ok(None)
        }
    }

    /// Decompresses a message payload: the RFC 7692 trailing marker is
    /// appended and the result inflated. Fails exactly when the completed
    /// bytes are not a DEFLATE stream; with compression off, the input is
    /// handed back untouched.
    pub fn decompress(&self, data: &[u8]) -> (r: Result<Vec<u8>, std::io::Error>)
        ensures
            !self.spec_config().enabled ==> (r matches Ok(v) && v@ == data@),
            self.spec_config().enabled ==> (match r {
                Ok(v) => inflate_of(data@ + seq![0u8, 0u8, 0xffu8, 0xffu8]) == Some(v@),
                Err(_) => inflate_of(data@ + seq![0u8, 0u8, 0xffu8, 0xffu8]) is None,
            }),
    {
        if !self.config.enabled {
            return Ok(vstd::slice::slice_to_vec(data));
        }
        let mut input = vstd::slice::slice_to_vec(data);
        input.push(0);
        input.push(0);
        input.push(0xff);
        input.push(0xff);
        proof {
            assert(input@ =~= data@ + seq![0u8, 0u8, 0xffu8, 0xffu8]);
        }
        inflate_bytes(input.as_slice())
    }

    /// Builds the `Sec-WebSocket-Extensions` value offering
    /// permessage-deflate with the configured parameters; empty when
    /// compression is off.
    pub fn extension_header(&self) -> (r: String)
        ensures
            r@ == spec_extension_header(self.spec_config()),
    {
        if !self.config.enabled {
            return String::new();
        }
        let mut out = String::from_str("permessage-deflate");
        if self.config.server_no_context_takeover {
            out.append("; server_no_context_takeover");
        }
        if self.config.client_no_context_takeover {
            out.append("; client_no_context_takeover");
        }
        if self.config.server_max_window_bits != 15 {
            out.append("; server_max_window_bits=");
            append_u8_decimal(&mut out, self.config.server_max_window_bits);
        }
        if self.config.client_max_window_bits != 15 {
            out.append("; client_max_window_bits=");
            append_u8_decimal(&mut out, self.config.client_max_window_bits);
        }
        out
    }

    /// Whether a `Sec-WebSocket-Extensions` header offers
    /// permessage-deflate, ASCII case-insensitively.
    pub fn is_compression_supported(header: &str) -> (r: bool)
        ensures
            r == spec_contains(
                spec_lower_bytes(encode_utf8(header@)),
                seq![
                    112u8,
                    101,
                    114,
                    109,
                    101,
                    115,
                    115,
                    97,
                    103,
                    101,
                    45,
                    100,
                    101,
                    102,
                    108,
                    97,
                    116,
                    101,
                ],
            ),
    {
        let lowered = lower_bytes(header.as_bytes());
        let pat: [u8; 18] = [
            112u8,
            101,
            114,
            109,
            101,
            115,
            115,
            97,
            103,
            101,
            45,
            100,
            101,
            102,
            108,
            97,
            116,
            101,
        ];
        proof {
            assert(pat@ =~= seq![
                112u8,
                101,
                114,
                109,
                101,
                115,
                115,
                97,
                103,
                101,
                45,
                100,
                101,
                102,
                108,
                97,
                116,
                101,
            ]);
        }
        bytes_contains(lowered.as_slice(), pat.as_slice())
    }
}

/// The decimal digits of a byte value, as characters.
pub open spec fn spec_u8_decimal(n: u8) -> Seq<char> {
    if n >= 100 {
        seq![
            spec_digit_char((n / 100) as u8),
            spec_digit_char(((n / 10) % 10) as u8),
            spec_digit_char((n % 10) as u8),
        ]
    } else if n >= 10 {
        seq![spec_digit_char((n / 10) as u8), spec_digit_char((n % 10) as u8)]
    } else {
        seq![spec_digit_char(n)]
    }
}

/// The character for one decimal digit.
pub open spec fn spec_digit_char(d: u8) -> char {
    if d == 0 {
        '0'
    } else if d == 1 {
        '1'
    } else if d == 2 {
        '2'
    } else if d == 3 {
        '3'
    } else if d == 4 {
        '4'
    } else if d == 5 {
        '5'
    } else if d == 6 {
        '6'
    } else if d == 7 {
        '7'
    } else if d == 8 {
        '8'
    } else {
        '9'
    }
}

/// One decimal digit as a string.
fn digit_str(d: u8) -> (r: &'static str)
    requires
        d <= 9,
    ensures
        r@ == seq![spec_digit_char(d)],
{
    proof {
        reveal_strlit("0");
        reveal_strlit("1");
        reveal_strlit("2");
        reveal_strlit("3");
        reveal_strlit("4");
        reveal_strlit("5");
        reveal_strlit("6");
        reveal_strlit("7");
        reveal_strlit("8");
        reveal_strlit("9");
        assert("0"@ =~= seq!['0']);
        assert("1"@ =~= seq!['1']);
        assert("2"@ =~= seq!['2']);
        assert("3"@ =~= seq!['3']);
        assert("4"@ =~= seq!['4']);
        assert("5"@ =~= seq!['5']);
        assert("6"@ =~= seq!['6']);
        assert("7"@ =~= seq!['7']);
        assert("8"@ =~= seq!['8']);
        assert("9"@ =~= seq!['9']);
    }
    match d {
        0 => "0",
        1 => "1",
        2 => "2",
        3 => "3",
        4 => "4",
        5 => "5",
        6 => "6",
        7 => "7",
        8 => "8",
        _ => "9",
    }
}

/// Appends the decimal rendering of `n` to `out`.
fn append_u8_decimal(out: &mut String, n: u8)
    ensures
        final(out)@ == old(out)@ + spec_u8_decimal(n),
{
    if n >= 100 {
        out.append(digit_str(n / 100));
        out.append(digit_str((n / 10) % 10));
        out.append(digit_str(n % 10));
    } else if n >= 10 {
        out.append(digit_str(n / 10));
        out.append(digit_str(n % 10));
    } else {
        out.append(digit_str(n));
    }
    proof {
        assert(final(out)@ =~= old(out)@ + spec_u8_decimal(n));
    }
}

/// The `Sec-WebSocket-Extensions` value for a configuration.
pub open spec fn spec_extension_header(c: WebSocketCompressionConfig) -> Seq<char> {
    if !c.enabled {
        Seq::empty()
    } else {
        "permessage-deflate"@ + (if c.server_no_context_takeover {
            "; server_no_context_takeover"@
        } else {
            Seq::<char>::empty()
        }) + (if c.client_no_context_takeover {
            "; client_no_context_takeover"@
        } else {
            Seq::<char>::empty()
        }) + (if c.server_max_window_bits != 15 {
            "; server_max_window_bits="@ + spec_u8_decimal(c.server_max_window_bits)
        } else {
            Seq::<char>::empty()
        }) + (if c.client_max_window_bits != 15 {
            "; client_max_window_bits="@ + spec_u8_decimal(c.client_max_window_bits)
        } else {
            Seq::<char>::empty()
        })
    }
}

/// Transfer statistics of a compressing relay.
#[derive(Debug, Clone, Copy, Default)]
pub struct CompressionStats {
    /// Bytes taken in, before compression.
    pub bytes_in: usize,
    /// Bytes sent on, after compression.
    pub bytes_out: usize,
    /// Messages that went out compressed.
    pub messages_compressed: usize,
    /// Messages that went out as they came.
    pub messages_uncompressed: usize,
}

impl CompressionStats {
    /// How many bytes compression saved so far.
    pub fn bytes_saved(&self) -> (r: usize)
        ensures
            r == if self.bytes_in >= self.bytes_out {
                self.bytes_in - self.bytes_out
            } else {
                0
            },
    {
        if self.bytes_in >= self.bytes_out {
            self.bytes_in - self.bytes_out
        } else {
            0
        }
    }

    /// Records a message sent compressed.
    pub fn add_compressed(&mut self, original_size: usize, compressed_size: usize)
        requires
            old(self).bytes_in + original_size <= usize::MAX,
            old(self).bytes_out + compressed_size <= usize::MAX,
            old(self).messages_compressed < usize::MAX,
        ensures
            final(self).bytes_in == old(self).bytes_in + original_size,
            final(self).bytes_out == old(self).bytes_out + compressed_size,
            final(self).messages_compressed == old(self).messages_compressed + 1,
            final(self).messages_uncompressed == old(self).messages_uncompressed,
    {
        self.bytes_in = self.bytes_in + original_size;
        self.bytes_out = self.bytes_out + compressed_size;
        self.messages_compressed = self.messages_compressed + 1;
    }

    /// Records a message sent as it came.
    pub fn add_uncompressed(&mut self, size: usize)
        requires
            old(self).bytes_in + size <= usize::MAX,
            old(self).bytes_out + size <= usize::MAX,
            old(self).messages_uncompressed < usize::MAX,
        ensures
            final(self).bytes_in == old(self).bytes_in + size,
            final(self).bytes_out == old(self).bytes_out + size,
            final(self).messages_compressed == old(self).messages_compressed,
            final(self).messages_uncompressed == old(self).messages_uncompressed + 1,
    {
        self.bytes_in = self.bytes_in + size;
        self.bytes_out = self.bytes_out + size;
        self.messages_uncompressed = self.messages_uncompressed + 1;
    }
}

} // verus!
