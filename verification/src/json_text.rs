//! The calls into `serde_json` (re-exported by `zed_extension_api`) that the library makes.
use vstd::prelude::*;
use zed_extension_api::serde_json;

verus! {

/// What `serde_json::from_str::<serde_json::Value>` reports for a text: `None` when the
/// text is one JSON document, else the message of the error it returns.
pub uninterp spec fn json_document_error(text: Seq<char>) -> Option<Seq<char>>;

/// What `serde_json::from_str::<String>` makes of a text: the string it decodes, or the
/// message of the error it returns.
pub uninterp spec fn json_string_literal(text: Seq<char>) -> Result<Seq<char>, Seq<char>>;

/// The lower-case hexadecimal digit for `d`, which is below sixteen.
pub open spec fn hex_digit(d: int) -> char {
    if d < 10 {
        (d + 48) as char
    } else {
        (d + 87) as char
    }
}

/// How serde_json writes one character inside a string literal: `"` and `\` after a
/// backslash; backspace, tab, line feed, form feed and carriage return as `\b`, `\t`, `\n`,
/// `\f`, `\r`; the other characters below 0x20 as `\u00` and two lower-case hex digits;
/// every other character as it is.
pub open spec fn json_escape_char(c: char) -> Seq<char> {
    if c == '"' {
        seq!['\\', '"']
    } else if c == '\\' {
        seq!['\\', '\\']
    } else if c as u32 == 0x08 {
        seq!['\\', 'b']
    } else if c as u32 == 0x09 {
        seq!['\\', 't']
    } else if c as u32 == 0x0a {
        seq!['\\', 'n']
    } else if c as u32 == 0x0c {
        seq!['\\', 'f']
    } else if c as u32 == 0x0d {
        seq!['\\', 'r']
    } else if (c as u32) < 0x20 {
        seq!['\\', 'u', '0', '0', hex_digit((c as u32 / 16) as int), hex_digit((c as u32 % 16) as int)]
    } else {
        seq![c]
    }
}

/// The characters of a string, each written as inside a JSON string literal.
pub open spec fn json_escape(text: Seq<char>) -> Seq<char>
    decreases text.len(),
{
    if text.len() == 0 {
        Seq::empty()
    } else {
        json_escape(text.drop_last()) + json_escape_char(text.last())
    }
}

/// What `serde_json::to_string` writes for a string: a quote, the escaped characters, a
/// quote.
pub open spec fn json_quoted(text: Seq<char>) -> Seq<char> {
    seq!['"'] + json_escape(text) + seq!['"']
}

/// Parses `source` with `serde_json::from_str::<serde_json::Value>` and keeps only whether
/// that failed, with the error's message. The contract claims nothing of when a text
/// parses: that is serde_json's grammar, named by `json_document_error`.
#[verifier::external_body]
pub(crate) fn check_json_document(source: &str) -> (res: Option<String>)
    ensures
        (match json_document_error(source@) {
            None => res is None,
            Some(message) => res matches Some(error) && error@ == message,
        }),
{
    match serde_json::from_str::<serde_json::Value>(source) {
        Ok(_) => None,
        Err(error) => Some(error.to_string()),
    }
}

/// Decodes a JSON string literal with `serde_json::from_str::<String>`; an error comes back
/// as its message. The contract claims only that the outcome is `json_string_literal` of the
/// text: what serde_json decodes is not restated.
#[verifier::external_body]
pub(crate) fn decode_json_string(literal: &str) -> (res: Result<String, String>)
    ensures
        (match json_string_literal(literal@) {
            Ok(value) => res matches Ok(decoded) && decoded@ == value,
            Err(message) => res matches Err(error) && error@ == message,
        }),
{
    match serde_json::from_str::<String>(literal) {
        Ok(decoded) => Ok(decoded),
        Err(error) => Err(error.to_string()),
    }
}

/// Writes a string as a JSON string literal with `serde_json::to_string`, which cannot fail
/// on a string: the contract states serde_json's escaping (`json_quoted`).
#[verifier::external_body]
pub(crate) fn quote_json_string(text: &str) -> (res: String)
    ensures
        res@ == json_quoted(text@),
{
    serde_json::to_string(text).expect("serializing a key cannot fail")
}

} // verus!
