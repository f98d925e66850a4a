//! Bytes as text.

use vstd::prelude::*;

verus! {

/// What `String::from_utf8_lossy` makes of the bytes.
pub uninterp spec fn lossy_text(bytes: Seq<u8>) -> Seq<char>;

/// Calls `String::from_utf8_lossy`. The contract takes three things from its documentation: the
/// text depends on the bytes alone, it is what the bytes encode where they are valid UTF-8, and
/// otherwise a replacement character stands in it. Where replacement characters stand in for
/// invalid bytes, and how many, is not said.
#[verifier::external_body]
pub(crate) fn decode_lossy(bytes: &[u8]) -> (text: String)
    ensures
        text@ == lossy_text(bytes@),
        vstd::utf8::valid_utf8(bytes@) ==> text@ == vstd::utf8::decode_utf8(bytes@),
        !vstd::utf8::valid_utf8(bytes@) ==> text@.contains('\u{fffd}'),
{
    String::from_utf8_lossy(bytes).into_owned()
}

/// Calls `String::from_utf8`, which gives the text that the bytes encode where they are valid
/// UTF-8, and an error where they are not.
#[verifier::external_body]
pub(crate) fn decode(bytes: Vec<u8>) -> (text: Option<String>)
    ensures
        match text {
            Some(text) => vstd::utf8::valid_utf8(bytes@) && text@ == vstd::utf8::decode_utf8(
                bytes@,
            ),
            None => !vstd::utf8::valid_utf8(bytes@),
        },
{
    String::from_utf8(bytes).ok()
}

} // verus!
