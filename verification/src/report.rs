//! The key path at a cursor in a JSON file, written as the text to copy.
use vstd::prelude::*;
use vstd::string::*;
use vstd::utf8::encode_utf8;
use crate::format::{format_json_path, format_json_path_spec};
use crate::grammar::key_path_spec;
use crate::json_text::{check_json_document, json_document_error};
use crate::parser::json_key_path_at_offset;
use crate::position::{byte_offset_for_position, cursor_offset};
use crate::settings::CopyJsonPathSettings;
use crate::text::push_str;

verus! {

/// The characters of an optional string.
pub open spec fn optional_text(value: Option<String>) -> Option<Seq<char>> {
    match value {
        Some(text) => Some(text@),
        None => None,
    }
}

/// "failed to parse `file` as JSON: error"
pub open spec fn document_error_message(file_path: Seq<char>, error: Seq<char>) -> Seq<char> {
    "failed to parse `"@ + file_path + "` as JSON: "@ + error
}

/// What the report is for the cursor (`row`, `column`, both from 1) in `source`, given
/// what the check of the whole document reported: that check's error, or the cursor's
/// offset, then the key path at it, then that path as text.
pub open spec fn report_spec(
    file_path: Seq<char>,
    source: Seq<char>,
    row: int,
    column: int,
    settings: CopyJsonPathSettings,
    document_error: Option<Seq<char>>,
) -> Result<Seq<char>, Seq<char>> {
    match document_error {
        Some(error) => Err(document_error_message(file_path, error)),
        None => match cursor_offset(encode_utf8(source), row, column) {
            Err(message) => Err(message),
            Ok(offset) => match key_path_spec(encode_utf8(source), offset) {
                Err(message) => Err(message),
                Ok(path) => format_json_path_spec(file_path, path, settings),
            },
        },
    }
}

/// The report once the whole document has been checked, with `document_error` what that
/// check reported.
pub fn report_after_document_check(
    document_error: Option<String>,
    file_path: &str,
    source: &str,
    row: usize,
    column: usize,
    settings: &CopyJsonPathSettings,
) -> (res: Result<String, String>)
    ensures
        (match report_spec(
            file_path@,
            source@,
            row as int,
            column as int,
            *settings,
            optional_text(document_error),
        ) {
            Ok(text) => res matches Ok(found) && found@ == text,
            Err(message) => res matches Err(e) && e@ == message,
        }),
{
    if let Some(error) = document_error {
        let mut e = String::new();
        push_str(&mut e, "failed to parse `");
        push_str(&mut e, file_path);
        push_str(&mut e, "` as JSON: ");
        push_str(&mut e, error.as_str());
        assert(e@ =~= document_error_message(file_path@, error@));
        return Err(e);
    }
    let offset = match byte_offset_for_position(source, row, column) {
        Ok(offset) => offset,
        Err(e) => return Err(e),
    };
    let path = match json_key_path_at_offset(source, offset) {
        Ok(path) => path,
        Err(e) => return Err(e),
    };
    format_json_path(file_path, path.as_slice(), settings)
}

/// The text to copy for the key path at the cursor (`row`, `column`, both from 1) in the
/// JSON file `file_path` with contents `source`: the document must parse with serde_json,
/// the cursor must lie in the text, and the path is written as `settings` say.
pub fn json_key_path_report(
    file_path: &str,
    source: &str,
    row: usize,
    column: usize,
    settings: &CopyJsonPathSettings,
) -> (res: Result<String, String>)
    ensures
        (match report_spec(
            file_path@,
            source@,
            row as int,
            column as int,
            *settings,
            json_document_error(source@),
        ) {
            Ok(text) => res matches Ok(found) && found@ == text,
            Err(message) => res matches Err(e) && e@ == message,
        }),
{
    let document_error = check_json_document(source);
    proof {
        assert(optional_text(document_error) == json_document_error(source@));
    }
    report_after_document_check(document_error, file_path, source, row, column, settings)
}

} // verus!
