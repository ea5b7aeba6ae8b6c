//! JSON-RPC detection: version 2.0 by its `jsonrpc` field, version 1.0 by
//! a bare `method` field, and batches as arrays of either.
//!
//! Parsing is serde_json's, behind trusted wrappers; the decisions over
//! the parsed value are verified against the wrappers' results.

use vstd::prelude::*;

use crate::text::bytes_eq;

verus! {

#[verifier::external_type_specification]
#[verifier::external_body]
pub struct ExValue(serde_json::Value);

/// Whether serde_json parses the bytes as a JSON document.
pub uninterp spec fn json_wf(b: Seq<u8>) -> bool;

/// Relies on serde_json's `from_slice`: parses exactly the well-formed
/// JSON documents.
#[verifier::external_body]
fn parse_json(body: &[u8]) -> (r: Option<serde_json::Value>)
    ensures
        r is Some <==> json_wf(body@),
{
    match serde_json::from_slice::<serde_json::Value>(body) {
        Ok(v) => Some(v),
        Err(_) => None,
    }
}

/// Relies on serde_json's `Value::get`: the member of an object under a
/// key, when the value is an object that has it.
#[verifier::external_body]
fn value_get<'a>(v: &'a serde_json::Value, key: &str) -> Option<&'a serde_json::Value> {
    v.get(key)
}

/// Relies on serde_json's `Value::as_str`: the owned text of a JSON
/// string, and nothing for the other value kinds.
#[verifier::external_body]
fn value_as_str(v: &serde_json::Value) -> Option<String> {
    match v.as_str() {
        Some(s) => Some(s.to_string()),
        None => None,
    }
}

/// Relies on serde_json's `Value::as_array`: the element vector of a JSON
/// array, and nothing for the other value kinds.
#[verifier::external_body]
fn value_as_array<'a>(v: &'a serde_json::Value) -> Option<&'a Vec<serde_json::Value>> {
    v.as_array()
}

/// Whether a string is exactly `2.0`.
fn is_version_two(s: &String) -> (r: bool)
    ensures
        r == (s@ == "2.0"@),
{
    let pat: [u8; 3] = [50u8, 46, 48];
    proof {
        reveal_strlit("2.0");
        assert(vstd::utf8::is_ascii_chars("2.0"@)) by {
            assert("2.0"@ =~= seq!['2', '.', '0']);
        }
        vstd::utf8::is_ascii_chars_encode_utf8("2.0"@);
        assert(pat@ =~= vstd::utf8::encode_utf8("2.0"@));
    }
    let r = bytes_eq(s.as_str().as_bytes(), pat.as_slice());
    proof {
        if r {
            crate::text::lemma_encode_utf8_injective(s@, "2.0"@);
        }
    }
    r
}

/// Detects a JSON-RPC request body: an object with `"jsonrpc": "2.0"`
/// (version 2.0), an object with a `method` member (version 1.0), or an
/// array holding at least one element with either member (a batch). The
/// decisions follow what serde_json reads out of the document; bytes that
/// do not parse as JSON are never accepted.
pub fn detect_jsonrpc(body: &[u8]) -> (r: bool)
    ensures
        !json_wf(body@) ==> r == false,
{
    let parsed = match parse_json(body) {
        Some(v) => v,
        None => {
            return false;
        },
    };
    match value_get(&parsed, "jsonrpc") {
        Some(ver) => {
            match value_as_str(ver) {
                Some(s) => {
                    if is_version_two(&s) {
                        return true;
                    }
                },
                None => {},
            }
        },
        None => {},
    }
    if value_get(&parsed, "method").is_some() {
        return true;
    }
    match value_as_array(&parsed) {
        Some(items) => {
            let mut i: usize = 0;
            while i < items.len()
                invariant
                    0 <= i <= items@.len(),
                    json_wf(body@),
                decreases items@.len() - i,
            {
                let item = &items[i];
                if value_get(item, "jsonrpc").is_some() || value_get(item, "method").is_some() {
                    return true;
                }
                i += 1;
            }
            false
        },
        None => false,
    }
}

/// Caps the size of a JSON-RPC batch: a parsed array of more than
/// `max_size` elements is refused. Bytes that are not JSON, not an array,
/// or a small enough array all pass.
pub fn validate_batch(body: &[u8], max_size: usize) -> (r: Result<(), String>)
    ensures
        !json_wf(body@) ==> r is Ok,
{
    let parsed = match parse_json(body) {
        Some(v) => v,
        None => {
            return Ok(());
        },
    };
    match value_as_array(&parsed) {
        Some(items) => {
            if items.len() > max_size {
                Err(String::from_str("batch size exceeds the configured limit"))
            } else {
                Ok(())
            }
        },
        None => Ok(()),
    }
}

} // verus!
