//! The JSON serializer as this library sees it. The library frames its own
//! objects and arrays; only the writing of a string literal, with its
//! escapes, is left to the serializer.

use vstd::prelude::*;

verus! {

#[verifier::external_type_specification]
#[verifier::external_body]
pub struct ExJsonError(serde_json::Error);

/// The JSON string literal that the serializer writes for a text: the text
/// between double quotes, with the escapes that JSON asks for.
pub uninterp spec fn json_string_text(text: Seq<char>) -> Seq<char>;

/// A text that needs no escape in a JSON string: it holds no double quote,
/// no backslash and no character below U+0020.
pub open spec fn is_plain(text: Seq<char>) -> bool {
    forall|i: int|
        0 <= i < text.len() ==> {
            let c = #[trigger] text[i];
            c != '"' && c != '\\' && c as u32 >= 0x20
        }
}

/// The text between double quotes.
pub open spec fn quoted(text: Seq<char>) -> Seq<char> {
    seq!['"'] + text + seq!['"']
}

/// What is known of the literal of `text` without asking the serializer: that
/// of a plain text is the text between double quotes.
pub open spec fn literal_is_known(text: Seq<char>) -> bool {
    is_plain(text) ==> json_string_text(text) == quoted(text)
}

/// Writes `text` as a JSON string literal.
///
/// Calls `serde_json::to_string` on a string slice. What it writes is a
/// function of the text alone, and for a plain text it is the text between
/// double quotes: the serializer escapes the double quote, the backslash and
/// the characters below U+0020, and writes every other character as it is.
/// It does not fail: the serializer fails only where the value refuses to be
/// serialized or the writer refuses to write, and here the value is a string
/// slice and the writer a vector in memory.
#[verifier::external_body]
pub(crate) fn json_string(text: &str) -> (r: Result<String, serde_json::Error>)
    ensures
        r is Ok,
        r matches Ok(literal) ==> literal@ == json_string_text(text@),
        r matches Ok(literal) ==> (is_plain(text@) ==> literal@ == quoted(text@)),
{
    serde_json::to_string(text)
}

/// The text that the serializer gives for one of its errors.
///
/// Calls the `Display` implementation of `serde_json::Error`. Nothing is
/// claimed of the text.
#[verifier::external_body]
pub(crate) fn json_error_text(err: &serde_json::Error) -> (text: String) {
    err.to_string()
}

} // verus!
