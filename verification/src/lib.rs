//! Key paths for the JSON value under a cursor.
mod clipboard;
mod extension;
mod file_name;
mod format;
mod grammar;
mod header;
mod json_text;
mod key_pattern;
mod laws;
mod lsp;
mod message;
mod parser;
mod position;
mod report;
mod segment;
mod settings;
mod spans;
mod text;

pub use clipboard::{
    command_view, copy_to_clipboard, not_found_message, unix_candidates, unsupported_message,
    ClipboardCommand, ClipboardPlatform, ClipboardStep,
};
pub use extension::{
    asset_index, asset_name_spec, binary_step, is_json_path_server, language_server_command,
    missing_asset_message, release_asset_name, settings_env, unsupported_platform_message,
    BinaryStep, HostArch, HostOs, ReleaseAsset, ServerCommand, LANGUAGE_SERVER_NAME,
};
pub use file_name::{file_name, file_name_spec, is_separator, last_component, trim_slashes};
pub use format::{
    format_json_path, format_json_path_spec, format_quoted_key, key_segment, path_text,
    push_segment, quoted_key, render_segments, render_path_steps, render_steps, push_step,
    step_matches, key_answers, lemma_render_with_answers, format_path_segments,
};
pub use header::{
    header_line, header_line_spec, is_content_length, length_line, message_header,
    message_header_spec, parse_usize, parse_usize_spec, HeaderLine,
};
pub use grammar::{
    array_spec, consider_step, elements_spec, fold_best, key_path_spec, members_spec, object_spec,
    skip_space, string_token, value_spec, Parsed, Span,
};
pub use json_text::{
    hex_digit, json_document_error, json_escape, json_escape_char, json_quoted, json_string_literal,
};
pub use key_pattern::{regex_compile_error, regex_is_match};
pub use laws::{
    holds_cursor, is_deepest_path, law_best_path_is_deepest, law_code_action_reads_latest_text, law_columns_on_one_line,
    law_env_round_trip, law_file_name_is_last_part, law_index_in_brackets,
    law_key_path_is_deepest, law_path_text_not_empty, law_value_spans, law_steps_are_pieces,
    law_path_is_pieces, law_header_reads_back, law_asset_is_first_with_name,
    law_file_name_is_name, law_line_and_column_count, law_cursor_offset_found, law_line_feed_starts_one_line,
    law_key_bare_exactly_when_matched, law_number_read_whole, slashes, line_feeds,
    character_starts, decimal_digits, number_literal, number_parts, value_may_end, law_server_run, handled, is_run, answered_count,
    reply_count, documents_after_all, first_exit, joined_pieces, step_piece, starts_with_bare_empty_key, law_quoted_key_shape, law_root_path_text,
};
pub use lsp::{
    action_path, answers_request, documents_after, is_reply, copied_text, method_kind, positions_fit, method_kind_spec, JsonPathLsp, LspAction, LspRequest,
    LspResponse, MethodKind, COPY_KEY_PATH_COMMAND,
};
pub use spans::{extends, spans_inside};
pub use message::{
    capabilities_view, copy_action_view, decode_message, entry_value, first_step, first_step_of,
    json_body, json_view, last_element, last_element_of, member, member_of, message_id,
    optional_request, optional_view, position_of, position_value, request_from_value,
    request_spec, response_spec, response_value, string_of, string_value, JsonValue, JsonView,
    RequestView, ACTION_KIND, ACTION_TITLE,
};
pub use parser::{json_key_path_at_offset, CursorPathParser};
pub use position::{
    byte_offset_for_position, char_start, cursor_offset, first_position, line_col, no_line_feed,
    outside_message, starts_between,
};
pub use report::{
    document_error_message, json_key_path_report, optional_text, report_after_document_check,
    report_spec,
};
pub use segment::{copy_path, path_view, PathSegment, SegmentView};
pub use settings::{
    bool_setting, bool_text, env_string, owned, pairs_view, string_setting, text_or_default,
    CopyJsonPathSettings, LspSettingValues, DEFAULT_NON_QUOTED_KEY_REGEX, DEFAULT_PATH_SEPARATOR,
    DEFAULT_PREFIX_SEPARATOR, NON_QUOTED_KEY_REGEX_VAR, PATH_SEPARATOR_VAR, PREFIX_SEPARATOR_VAR,
    PUT_FILE_NAME_IN_PATH_VAR,
};
pub use text::{decimal, push_decimal, str_equals};
