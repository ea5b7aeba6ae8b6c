//! XML-RPC detection: a `methodCall` root element, and the method name in
//! its `methodName` element.
//!
//! XML parsing is roxmltree's, behind trusted wrappers whose results are
//! named; the comparisons over those results are verified.

use vstd::prelude::*;

use crate::text::bytes_eq;

verus! {

/// The root element name of a well-formed XML document in the given bytes,
/// when they are UTF-8 and parse.
pub uninterp spec fn xml_root_of(b: Seq<u8>) -> Option<Seq<char>>;

/// The text of the first `methodName` element that has text, in document
/// order.
pub uninterp spec fn xml_method_of(b: Seq<u8>) -> Option<Seq<char>>;

/// Relies on roxmltree's `Document::parse` and `root_element`: the name of
/// the document's root element, a function of the bytes alone.
#[verifier::external_body]
fn xml_root_name(body: &[u8]) -> (r: Option<String>)
    ensures
        match r {
            Some(s) => xml_root_of(body@) == Some(s@),
            None => xml_root_of(body@) is None,
        },
{
    let text = match std::str::from_utf8(body) {
        Ok(t) => t,
        Err(_) => {
            return None;
        },
    };
    match roxmltree::Document::parse(text) {
        Ok(doc) => Some(doc.root_element().tag_name().name().to_string()),
        Err(_) => None,
    }
}

/// Relies on roxmltree's document traversal: the text of the first
/// `methodName` element that has text, a function of the bytes alone.
#[verifier::external_body]
fn xml_method_name(body: &[u8]) -> (r: Option<String>)
    ensures
        match r {
            Some(s) => xml_method_of(body@) == Some(s@),
            None => xml_method_of(body@) is None,
        },
{
    let text = std::str::from_utf8(body).ok()?;
    let doc = roxmltree::Document::parse(text).ok()?;
    for node in doc.descendants() {
        if node.tag_name().name() == "methodName" {
            if let Some(t) = node.text() {
                return Some(t.to_string());
            }
        }
    }
    None
}

/// Detects an XML-RPC request body: a document whose root element is
/// `methodCall`.
pub fn detect_xmlrpc(body: &[u8]) -> (r: bool)
    ensures
        r == (xml_root_of(body@) == Some("methodCall"@)),
{
    match xml_root_name(body) {
        Some(name) => {
            let pat: [u8; 10] = [109u8, 101, 116, 104, 111, 100, 67, 97, 108, 108];
            proof {
                reveal_strlit("methodCall");
                assert(vstd::utf8::is_ascii_chars("methodCall"@)) by {
                    assert("methodCall"@ =~= seq![
                        'm',
                        'e',
                        't',
                        'h',
                        'o',
                        'd',
                        'C',
                        'a',
                        'l',
                        'l',
                    ]);
                }
                vstd::utf8::is_ascii_chars_encode_utf8("methodCall"@);
                assert(pat@ =~= vstd::utf8::encode_utf8("methodCall"@));
            }
            let r = bytes_eq(name.as_str().as_bytes(), pat.as_slice());
            proof {
                if r {
                    crate::text::lemma_encode_utf8_injective(name@, "methodCall"@);
                }
            }
            r
        },
        None => false,
    }
}

/// Extracts the method name from an XML-RPC body: the text of its
/// `methodName` element, or an error when the document has none.
pub fn extract_method(body: &[u8]) -> (r: Result<String, String>)
    ensures
        match r {
            Ok(s) => xml_method_of(body@) == Some(s@),
            Err(_) => xml_method_of(body@) is None,
        },
{
    match xml_method_name(body) {
        Some(s) => Ok(s),
        None => Err(String::from_str("No methodName found")),
    }
}

} // verus!
