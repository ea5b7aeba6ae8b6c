//! SOAP detection: the `SOAPAction` header of SOAP 1.1, and the
//! `Envelope` element of a SOAP body (any version).

use vstd::prelude::*;
use vstd::utf8::{encode_utf8, valid_utf8};

use crate::http::{spec_is_space, spec_line_end, spec_strip_cr, spec_trim};
use crate::text::{
    bytes_contains, bytes_eq, bytes_to_string, lower_byte, lower_bytes, spec_contains,
    spec_lower_byte, spec_lower_bytes,
};

verus! {

/// What start (or empty) elements a document's prefix holds, by local
/// name, up to the first parse error or the end. Relied on below through
/// quick-xml.
pub uninterp spec fn xml_start_names_of(b: Seq<u8>) -> Seq<Seq<u8>>;

/// Relies on quick-xml's `Reader`: the local names of the start and empty
/// elements that precede the first parse error (or the end of input), in
/// order — a function of the bytes alone.
#[verifier::external_body]
fn xml_start_names(body: &[u8]) -> (r: Vec<Vec<u8>>)
    ensures
        r@.len() == xml_start_names_of(body@).len(),
        forall|i: int| 0 <= i < r@.len() ==> r@[i]@ == xml_start_names_of(body@)[i],
{
    let mut reader = quick_xml::Reader::from_reader(body);
    let mut names: Vec<Vec<u8>> = Vec::new();
    let mut buf = Vec::new();
    loop {
        match reader.read_event_into(&mut buf) {
            Ok(quick_xml::events::Event::Start(e)) => names.push(e.local_name().as_ref().as_bytes().to_vec()),
            Ok(quick_xml::events::Event::Empty(e)) => names.push(e.local_name().as_ref().as_bytes().to_vec()),
            Ok(quick_xml::events::Event::Eof) | Err(_) => {
                return names;
            },
            _ => {},
        }
        buf.clear();
    }
}

/// A SOAP envelope is present when some element before the first parse
/// error is named `Envelope`.
pub open spec fn spec_has_envelope(b: Seq<u8>) -> bool {
    exists|i: int|
        0 <= i < xml_start_names_of(b).len() && #[trigger] xml_start_names_of(b)[i] == seq![
            69u8,
            110,
            118,
            101,
            108,
            111,
            112,
            101,
        ]
}

/// Looks for a SOAP `Envelope` element in an XML body.
pub fn detect_soap_envelope(body: &[u8]) -> (r: bool)
    ensures
        r == spec_has_envelope(body@),
{
    let names = xml_start_names(body);
    let pat: [u8; 8] = [69u8, 110, 118, 101, 108, 111, 112, 101];
    proof {
        assert(pat@ =~= seq![69u8, 110, 118, 101, 108, 111, 112, 101]);
    }
    let mut i: usize = 0;
    while i < names.len()
        invariant
            0 <= i <= names@.len(),
            pat@ == seq![69u8, 110, 118, 101, 108, 111, 112, 101],
            names@.len() == xml_start_names_of(body@).len(),
            forall|j: int| 0 <= j < names@.len() ==> names@[j]@ == xml_start_names_of(body@)[j],
            forall|j: int|
                0 <= j < i ==> xml_start_names_of(body@)[j] != seq![
                    69u8,
                    110,
                    118,
                    101,
                    108,
                    111,
                    112,
                    101,
                ],
        decreases names@.len() - i,
    {
        if bytes_eq(names[i].as_slice(), pat.as_slice()) {
            proof {
                assert(xml_start_names_of(body@)[i as int] == seq![
                    69u8,
                    110,
                    118,
                    101,
                    108,
                    111,
                    112,
                    101,
                ]);
            }
            return true;
        }
        i += 1;
    }
    false
}

/// A SOAP request announces itself by a `SOAPAction` header or by a SOAP
/// envelope in the body.
pub fn detect_soap(headers: &str, body: &[u8]) -> (r: bool)
    ensures
        r == (spec_contains(
            spec_lower_bytes(encode_utf8(headers@)),
            seq![115u8, 111, 97, 112, 97, 99, 116, 105, 111, 110, 58],
        ) || spec_has_envelope(body@)),
{
    let lowered = lower_bytes(headers.as_bytes());
    let pat: [u8; 11] = [115u8, 111, 97, 112, 97, 99, 116, 105, 111, 110, 58];
    proof {
        assert(pat@ =~= seq![115u8, 111, 97, 112, 97, 99, 116, 105, 111, 110, 58]);
    }
    if bytes_contains(lowered.as_slice(), pat.as_slice()) {
        return true;
    }
    detect_soap_envelope(body)
}

/// A line whose name is `SOAPAction`, compared ASCII case-insensitively.
pub open spec fn spec_is_soapaction_line(line: Seq<u8>) -> bool {
    line.len() >= 11 && spec_lower_bytes(line.take(11)) == seq![
        115u8,
        111,
        97,
        112,
        97,
        99,
        116,
        105,
        111,
        110,
        58,
    ]
}

/// The value with surrounding whitespace and then surrounding quotes
/// removed.
pub open spec fn spec_trim_quotes(s: Seq<u8>) -> Seq<u8>
    decreases s.len(),
{
    if s.len() > 0 && s[0] == 34 {
        spec_trim_quotes(s.drop_first())
    } else if s.len() > 0 && s.last() == 34 {
        spec_trim_quotes(s.drop_last())
    } else {
        s
    }
}

/// The value of the first `SOAPAction` line at or after `pos`, if any.
pub open spec fn spec_find_soapaction(b: Seq<u8>, pos: int) -> Option<Seq<u8>>
    decreases b.len() - pos
        when 0 <= pos <= b.len()
        via spec_find_soapaction_decreases
{
    if pos >= b.len() {
        None
    } else {
        let le = spec_line_end(b, pos);
        let line = spec_strip_cr(b.subrange(pos, le));
        if spec_is_soapaction_line(line) {
            Some(spec_trim_quotes(spec_trim(line.subrange(11, line.len() as int))))
        } else if le >= b.len() {
            None
        } else {
            spec_find_soapaction(b, le + 1)
        }
    }
}

#[via_fn]
proof fn spec_find_soapaction_decreases(b: Seq<u8>, pos: int) {
    if 0 <= pos <= b.len() {
        crate::http::lemma_line_end(b, pos);
    }
}

/// Extracts the `SOAPAction` value from the request headers: the first
/// such line's value, trimmed of whitespace and of surrounding quotes.
/// `None` also covers a value that is not valid UTF-8.
pub fn extract_soap_action(headers: &str) -> (r: Option<String>)
    ensures
        ({
            let hb = encode_utf8(headers@);
            match r {
                Some(s) => spec_find_soapaction(hb, 0) matches Some(v) && valid_utf8(v)
                    && encode_utf8(s@) == v,
                None => spec_find_soapaction(hb, 0) is None || !valid_utf8(
                    spec_find_soapaction(hb, 0)->Some_0,
                ),
            }
        }),
{
    let b = headers.as_bytes();
    let hlen = b.len();
    let mut pos: usize = 0;
    loop
        invariant
            0 <= pos <= b@.len(),
            hlen == b@.len(),
            b@ == encode_utf8(headers@),
            spec_find_soapaction(b@, pos as int) == spec_find_soapaction(b@, 0),
        decreases b@.len() - pos,
    {
        if pos >= b.len() {
            return None;
        }
        proof {
            crate::http::lemma_line_end(b@, pos as int);
        }
        let le = match crate::text::find_byte(b, pos, 10) {
            Some(i) => i,
            None => b.len(),
        };
        assert(le == spec_line_end(b@, pos as int));
        let mut lend = le;
        if lend > pos && b[lend - 1] == 13 {
            lend -= 1;
        }
        assert(b@.subrange(pos as int, lend as int) =~= spec_strip_cr(
            b@.subrange(pos as int, le as int),
        ));
        let ghost line = spec_strip_cr(b@.subrange(pos as int, le as int));
        if lend - pos >= 11 && is_soapaction_prefix(b, pos) {
            proof {
                assert(line.take(11) =~= b@.subrange(pos as int, pos + 11));
                assert(spec_is_soapaction_line(line));
            }
            // trim whitespace, then quotes, in [pos + 11, lend)
            let mut vs = pos + 11;
            let mut ve = lend;
            proof {
                assert(b@.subrange(vs as int, ve as int) =~= line.subrange(11, line.len() as int));
            }
            while vs < ve && (b[vs] == 32 || b[vs] == 9 || b[vs] == 13 || b[vs] == 10)
                invariant
                    pos + 11 <= vs <= ve <= lend <= b@.len(),
                    spec_trim(b@.subrange(vs as int, ve as int)) == spec_trim(
                        line.subrange(11, line.len() as int),
                    ),
                decreases ve - vs,
            {
                proof {
                    assert(b@.subrange(vs as int, ve as int).drop_first() =~= b@.subrange(
                        vs as int + 1,
                        ve as int,
                    ));
                }
                vs += 1;
            }
            while ve > vs && (b[ve - 1] == 32 || b[ve - 1] == 9 || b[ve - 1] == 13 || b[ve - 1]
                == 10)
                invariant
                    pos + 11 <= vs <= ve <= lend <= b@.len(),
                    vs < ve ==> !spec_is_space(b@[vs as int]),
                    spec_trim(b@.subrange(vs as int, ve as int)) == spec_trim(
                        line.subrange(11, line.len() as int),
                    ),
                decreases ve,
            {
                proof {
                    assert(b@.subrange(vs as int, ve as int).drop_last() =~= b@.subrange(
                        vs as int,
                        ve as int - 1,
                    ));
                }
                ve -= 1;
            }
            proof {
                assert(b@.subrange(vs as int, ve as int) == spec_trim(
                    line.subrange(11, line.len() as int),
                ));
            }
            let ghost trimmed = spec_trim(line.subrange(11, line.len() as int));
            while vs < ve && b[vs] == 34
                invariant
                    pos + 11 <= vs <= ve <= lend <= b@.len(),
                    spec_trim_quotes(b@.subrange(vs as int, ve as int)) == spec_trim_quotes(
                        trimmed,
                    ),
                decreases ve - vs,
            {
                proof {
                    assert(b@.subrange(vs as int, ve as int).drop_first() =~= b@.subrange(
                        vs as int + 1,
                        ve as int,
                    ));
                }
                vs += 1;
            }
            while ve > vs && b[ve - 1] == 34
                invariant
                    pos + 11 <= vs <= ve <= lend <= b@.len(),
                    vs < ve ==> b@[vs as int] != 34,
                    spec_trim_quotes(b@.subrange(vs as int, ve as int)) == spec_trim_quotes(
                        trimmed,
                    ),
                decreases ve,
            {
                proof {
                    assert(b@.subrange(vs as int, ve as int).drop_last() =~= b@.subrange(
                        vs as int,
                        ve as int - 1,
                    ));
                }
                ve -= 1;
            }
            proof {
                assert(b@.subrange(vs as int, ve as int) == spec_trim_quotes(trimmed));
            }
            let v = vstd::slice::slice_to_vec(&b[vs..ve]);
            return bytes_to_string(v);
        }
        proof {
            if lend - pos >= 11 {
                assert(line.take(11) =~= b@.subrange(pos as int, pos + 11));
            }
            assert(!spec_is_soapaction_line(line));
        }
        if le >= b.len() {
            return None;
        }
        pos = le + 1;
    }
}

/// Whether the eleven bytes at `pos` spell `soapaction:` after case
/// folding.
fn is_soapaction_prefix(b: &[u8], pos: usize) -> (r: bool)
    requires
        pos + 11 <= b@.len(),
    ensures
        r == (spec_lower_bytes(b@.subrange(pos as int, pos + 11)) == seq![
            115u8,
            111,
            97,
            112,
            97,
            99,
            116,
            105,
            111,
            110,
            58,
        ]),
{
    let r = lower_byte(b[pos]) == 115 && lower_byte(b[pos + 1]) == 111 && lower_byte(b[pos + 2])
        == 97 && lower_byte(b[pos + 3]) == 112 && lower_byte(b[pos + 4]) == 97 && lower_byte(
        b[pos + 5],
    ) == 99 && lower_byte(b[pos + 6]) == 116 && lower_byte(b[pos + 7]) == 105 && lower_byte(
        b[pos + 8],
    ) == 111 && lower_byte(b[pos + 9]) == 110 && b[pos + 10] == 58;
    proof {
        let sub = b@.subrange(pos as int, pos + 11);
        let target = seq![115u8, 111, 97, 112, 97, 99, 116, 105, 111, 110, 58];
        if r {
            assert(spec_lower_bytes(sub) =~= target);
        } else {
            if spec_lower_bytes(sub) == target {
                assert(forall|k: int|
                    0 <= k < 11 ==> #[trigger] spec_lower_byte(sub[k]) == target[k]);
                assert(spec_lower_byte(b@[pos as int]) == 115);
                assert(spec_lower_byte(b@[pos + 1]) == 111);
                assert(spec_lower_byte(b@[pos + 2]) == 97);
                assert(spec_lower_byte(b@[pos + 3]) == 112);
                assert(spec_lower_byte(b@[pos + 4]) == 97);
                assert(spec_lower_byte(b@[pos + 5]) == 99);
                assert(spec_lower_byte(b@[pos + 6]) == 116);
                assert(spec_lower_byte(b@[pos + 7]) == 105);
                assert(spec_lower_byte(b@[pos + 8]) == 111);
                assert(spec_lower_byte(b@[pos + 9]) == 110);
                assert(b@[pos + 10] == 58);
            }
        }
    }
    r
}

} // verus!
