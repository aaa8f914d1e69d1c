//! Text, from the standard library.

use vstd::prelude::*;
use vstd::utf8::*;

verus! {

/// Calls `String::from_utf8`: a text comes back where the bytes are UTF-8, and
/// it is the text that they encode.
#[verifier::external_body]
pub(crate) fn text_from_utf8(bytes: Vec<u8>) -> (r: Option<String>)
    ensures
        r is Some <==> valid_utf8(bytes@),
        r matches Some(s) ==> encode_utf8(s@) == bytes@,
{
    String::from_utf8(bytes).ok()
}

} // verus!
