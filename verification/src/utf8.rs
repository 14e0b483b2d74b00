//! Trusted bridge to std's UTF-8 decoder, used to render tag bytes and chunk
//! payloads as text.

use vstd::prelude::*;

use vstd::utf8::decode_utf8;
use vstd::utf8::valid_utf8;

verus! {

/// Relies on String::from_utf8: it returns a string exactly when the input
/// bytes are valid UTF-8, and that string's characters decode those bytes.
#[verifier::external_body]
pub(crate) fn string_from_bytes(raw: Vec<u8>) -> (r: Option<String>)
    ensures
        r is Some <==> valid_utf8(raw@),
        r matches Some(s) ==> s@ == decode_utf8(raw@),
{
    String::from_utf8(raw).ok()
}

} // verus!
