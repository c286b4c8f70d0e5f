//! What holds of the library as a whole.
use vstd::prelude::*;
use crate::extension::settings_env;
use crate::file_name::{file_name_spec, is_separator, last_component, trim_slashes};
use crate::format::{
    format_json_path_spec, key_answers, lemma_render_with_answers, path_text, quoted_key, render_segments,
    render_steps,
};
use crate::json_text::{json_document_error, json_escape, json_escape_char};
use crate::position::{cursor_offset, lemma_first_position, lemma_line_col_forward, no_line_feed, starts_between};
use crate::lsp::{action_path, answers_request, documents_after, is_reply, LspAction, LspRequest};
use crate::report::report_spec;
use crate::grammar::{fold_best, key_path_spec, skip_space, value_spec, Span};
use crate::spans::{lemma_fold_keeps_depth, lemma_value_spans, spans_inside};
use crate::key_pattern::{regex_compile_error, regex_is_match};
use crate::segment::SegmentView;
use crate::settings::{
    bool_text, text_or_default, CopyJsonPathSettings, DEFAULT_NON_QUOTED_KEY_REGEX,
    DEFAULT_PATH_SEPARATOR, DEFAULT_PREFIX_SEPARATOR,
};
use crate::text::decimal;
use crate::header::{
    header_line_spec, is_digit, lemma_decimal_digits, lemma_length_line_reads_back, length_line,
    message_header_spec, trim_line_end, HeaderLine,
};

verus! {

/// The span holds the cursor.
pub open spec fn holds_cursor(span: Span, cursor: int) -> bool {
    span.start <= cursor && cursor <= span.end
}

/// `best` is the deepest path among the spans that hold the cursor, and among equally deep
/// ones the path of the last; the empty path when no span holds the cursor.
pub open spec fn is_deepest_path(spans: Seq<Span>, cursor: int, best: Seq<SegmentView>) -> bool {
    &&& forall|i: int|
        0 <= i < spans.len() && holds_cursor(spans[i], cursor) ==> #[trigger] spans[i].path.len()
            <= best.len()
    &&& (exists|i: int| 0 <= i < spans.len() && holds_cursor(spans[i], cursor)) ==> exists|i: int|
        0 <= i < spans.len() && holds_cursor(spans[i], cursor) && #[trigger] spans[i].path == best
            && forall|j: int|
            i < j < spans.len() && holds_cursor(spans[j], cursor) ==> #[trigger] spans[j].path.len()
                < best.len()
    &&& !(exists|i: int| 0 <= i < spans.len() && holds_cursor(spans[i], cursor)) ==> best
        == Seq::<SegmentView>::empty()
}

/// Keeping the best path while visiting spans ends with the deepest path that holds the
/// cursor, the last one visited among equally deep ones.
pub proof fn law_best_path_is_deepest(spans: Seq<Span>, cursor: int)
    ensures
        is_deepest_path(spans, cursor, fold_best(Seq::empty(), spans, cursor)),
    decreases spans.len(),
{
    let best = fold_best(Seq::empty(), spans, cursor);
    if spans.len() == 0 {
        assert(!(exists|i: int| 0 <= i < spans.len() && holds_cursor(spans[i], cursor)));
    } else {
        let init = spans.drop_last();
        let x = spans.last();
        let n = spans.len() - 1;
        law_best_path_is_deepest(init, cursor);
        let before = fold_best(Seq::empty(), init, cursor);
        assert forall|i: int| 0 <= i < n implies #[trigger] spans[i] == init[i] by {}
        if holds_cursor(x, cursor) && x.path.len() >= before.len() {
            assert(best == x.path);
            assert forall|i: int|
                0 <= i < spans.len() && holds_cursor(spans[i], cursor) implies #[trigger] spans[i].path.len()
                <= best.len() by {
                if i < n {
                    assert(init[i].path.len() <= before.len());
                }
            }
            assert(spans[n].path == best);
        } else {
            assert(best == before);
            if holds_cursor(x, cursor) {
                if !(exists|i: int| 0 <= i < init.len() && holds_cursor(init[i], cursor)) {
                    assert(before == Seq::<SegmentView>::empty());
                    assert(false);
                }
                let w = choose|i: int|
                    0 <= i < init.len() && holds_cursor(init[i], cursor) && #[trigger] init[i].path
                        == before && forall|j: int|
                        i < j < init.len() && holds_cursor(init[j], cursor) ==> #[trigger] init[j].path.len()
                            < before.len();
                assert(spans[w].path == best);
                assert forall|j: int|
                    w < j < spans.len() && holds_cursor(spans[j], cursor) implies #[trigger] spans[j].path.len()
                    < best.len() by {
                    if j < n {
                        assert(init[j] == spans[j]);
                    }
                }
            } else {
                if exists|i: int| 0 <= i < spans.len() && holds_cursor(spans[i], cursor) {
                    let k = choose|i: int| 0 <= i < spans.len() && holds_cursor(spans[i], cursor);
                    assert(init[k] == spans[k]);
                    let w = choose|i: int|
                        0 <= i < init.len() && holds_cursor(init[i], cursor) && #[trigger] init[i].path
                            == before && forall|j: int|
                            i < j < init.len() && holds_cursor(init[j], cursor) ==> #[trigger] init[j].path.len()
                                < before.len();
                    assert(spans[w].path == best);
                    assert forall|j: int|
                        w < j < spans.len() && holds_cursor(spans[j], cursor) implies #[trigger] spans[j].path.len()
                        < best.len() by {
                        assert(init[j] == spans[j]);
                    }
                }
                assert forall|i: int|
                    0 <= i < spans.len() && holds_cursor(spans[i], cursor) implies #[trigger] spans[i].path.len()
                    <= best.len() by {
                    assert(init[i] == spans[i]);
                }
            }
        }
    }
}

/// The key path of a text at a cursor is the deepest path among the values, keys and
/// elements whose spans hold the cursor; among equally deep ones, the last that the parse
/// visits.
pub proof fn law_key_path_is_deepest(b: Seq<u8>, cursor: int)
    ensures
        key_path_spec(b, cursor) matches Ok(path) ==> value_spec(b, 0, Seq::empty()) matches Ok(
            (_, spans),
        ) && is_deepest_path(spans, cursor, path),
{
    if let Ok((_, spans)) = value_spec(b, 0, Seq::empty()) {
        law_best_path_is_deepest(spans, cursor);
    }
}

/// The empty path is written `$`; with the file name in the path, it is the file name alone.
pub proof fn law_root_path_text(file_path: Seq<char>, settings: CopyJsonPathSettings)
    ensures
        path_text(Seq::empty(), settings.path_separator@, settings.non_quoted_key_regex@) == "$"@,
        regex_compile_error(settings.non_quoted_key_regex@) is None
            ==> format_json_path_spec(file_path, Seq::empty(), settings) == Ok::<
            Seq<char>,
            Seq<char>,
        >(
            if settings.put_file_name_in_path {
                match file_name_spec(file_path) {
                    Some(name) => name,
                    None => file_path,
                }
            } else {
                "$"@
            },
        ),
{
    assert(render_segments(Seq::empty(), settings.path_separator@, settings.non_quoted_key_regex@)
        =~= Seq::<char>::empty());
}

/// The text of a path is never empty.
pub proof fn law_path_text_not_empty(path: Seq<SegmentView>, separator: Seq<char>, pattern: Seq<char>)
    ensures
        path_text(path, separator, pattern).len() > 0,
{
    reveal_strlit("$");
}

/// An array index is written in brackets after what comes before it, whatever the settings.
pub proof fn law_index_in_brackets(
    path: Seq<SegmentView>,
    index: nat,
    separator: Seq<char>,
    pattern: Seq<char>,
)
    ensures
        render_segments(path.push(SegmentView::Index(index)), separator, pattern) == render_segments(
            path,
            separator,
            pattern,
        ) + "["@ + decimal(index) + "]"@,
{
    assert(path.push(SegmentView::Index(index)).drop_last() =~= path);
}

proof fn lemma_last_component_shape(s: Seq<char>)
    ensures
        forall|i: int|
            0 <= i < last_component(s).len() ==> !is_separator(#[trigger] last_component(s)[i]),
        last_component(s).len() <= s.len(),
        last_component(s) == s.subrange(s.len() - last_component(s).len(), s.len() as int),
        last_component(s).len() < s.len() ==> is_separator(
            s[s.len() - last_component(s).len() - 1],
        ),
    decreases s.len(),
{
    if s.len() > 0 && !is_separator(s.last()) {
        lemma_last_component_shape(s.drop_last());
        let c = last_component(s.drop_last());
        assert(last_component(s) == c.push(s.last()));
        assert(c.push(s.last()) =~= s.subrange(s.len() - c.len() - 1, s.len() as int));
    } else if s.len() > 0 {
        assert(last_component(s) =~= s.subrange(s.len() as int, s.len() as int));
    } else {
        assert(s =~= s.subrange(0, 0));
    }
}

proof fn lemma_trim_slashes_shape(s: Seq<char>)
    ensures
        trim_slashes(s).len() <= s.len(),
        trim_slashes(s) == s.subrange(0, trim_slashes(s).len() as int),
        trim_slashes(s).len() == 0 || trim_slashes(s).last() != '/',
        forall|i: int| trim_slashes(s).len() <= i < s.len() ==> #[trigger] s[i] == '/',
    decreases s.len(),
{
    if s.len() > 0 && s.last() == '/' {
        lemma_trim_slashes_shape(s.drop_last());
        let t = trim_slashes(s.drop_last());
        assert(t =~= s.subrange(0, t.len() as int));
        assert forall|i: int| t.len() <= i < s.len() implies #[trigger] s[i] == '/' by {
            if i < s.len() - 1 {
                assert(s.drop_last()[i] == s[i]);
            }
        }
    } else {
        assert(s =~= s.subrange(0, s.len() as int));
    }
}

/// A file name is not empty, holds no `/` or `\`, and ends the path once the `/`s at the
/// path's end are removed, right after a separator or at the path's start.
pub proof fn law_file_name_is_last_part(path: Seq<char>)
    ensures
        file_name_spec(path) matches Some(name) ==> {
            let trimmed = trim_slashes(path);
            let start = trimmed.len() - name.len();
            &&& name.len() > 0
            &&& forall|i: int| 0 <= i < name.len() ==> !is_separator(#[trigger] name[i])
            &&& 0 <= start
            &&& trimmed == path.subrange(0, trimmed.len() as int)
            &&& trimmed.subrange(start, trimmed.len() as int) == name
            &&& (start == 0 || is_separator(trimmed[start - 1]))
            &&& forall|i: int| trimmed.len() <= i < path.len() ==> #[trigger] path[i] == '/'
        },
{
    lemma_trim_slashes_shape(path);
    lemma_last_component_shape(trim_slashes(path));
}

/// Handing the settings to the language server through its environment and reading them
/// back there gives the same settings, when none of the three texts is empty.
pub proof fn law_env_round_trip(
    settings: CopyJsonPathSettings,
    non_quoted_key_regex: String,
    put_file_name_in_path: String,
    prefix_separator: String,
    path_separator: String,
)
    requires
        settings.non_quoted_key_regex@.len() > 0,
        settings.prefix_separator@.len() > 0,
        settings.path_separator@.len() > 0,
        non_quoted_key_regex@ == settings_env(settings)[0].1,
        put_file_name_in_path@ == settings_env(settings)[1].1,
        prefix_separator@ == settings_env(settings)[2].1,
        path_separator@ == settings_env(settings)[3].1,
    ensures
        text_or_default(Some(non_quoted_key_regex), DEFAULT_NON_QUOTED_KEY_REGEX@)
            == settings.non_quoted_key_regex@,
        (put_file_name_in_path@ == "true"@) == settings.put_file_name_in_path,
        text_or_default(Some(prefix_separator), DEFAULT_PREFIX_SEPARATOR@)
            == settings.prefix_separator@,
        text_or_default(Some(path_separator), DEFAULT_PATH_SEPARATOR@) == settings.path_separator@,
{
    reveal_strlit("true");
    reveal_strlit("false");
    if !settings.put_file_name_in_path {
        assert(bool_text(false)[0] != "true"@[0]);
    }
}

/// The code action on a document reads the text it was last opened or changed with, and
/// there is none for a document once it is closed.
pub proof fn law_code_action_reads_latest_text(
    documents: Map<Seq<char>, Seq<char>>,
    uri: String,
    text: String,
    line: usize,
    character: usize,
    settings: CopyJsonPathSettings,
)
    ensures
        action_path(documents.insert(uri@, text@), Some(uri), Some(line), Some(character), settings)
            == (match report_spec(
            uri@,
            text@,
            line + 1,
            character + 1,
            settings,
            json_document_error(text@),
        ) {
            Ok(path) => Some(path),
            Err(_) => None,
        }),
        action_path(documents.remove(uri@), Some(uri), Some(line), Some(character), settings)
            is None,
{
}

/// Two cursors on one line: the one with the greater column lies further on, with no line
/// feed between them, and as many characters start between their offsets as their columns
/// differ.
pub proof fn law_columns_on_one_line(b: Seq<u8>, row: int, column1: int, column2: int)
    requires
        cursor_offset(b, row, column1) is Ok,
        cursor_offset(b, row, column2) is Ok,
        column1 < column2,
    ensures
        ({
            let o1 = cursor_offset(b, row, column1)->Ok_0;
            let o2 = cursor_offset(b, row, column2)->Ok_0;
            &&& o1 < o2
            &&& no_line_feed(b, o1, o2)
            &&& starts_between(b, o1, o2) == column2 - column1
        }),
{
    let o1 = cursor_offset(b, row, column1)->Ok_0;
    let o2 = cursor_offset(b, row, column2)->Ok_0;
    lemma_first_position(b, (row - 1, column1 - 1), 0);
    lemma_first_position(b, (row - 1, column2 - 1), 0);
    if o2 <= o1 {
        lemma_line_col_forward(b, o2, o1);
    } else {
        lemma_line_col_forward(b, o1, o2);
    }
}

/// A key is quoted as `["` + its escaped characters + `"]`; a key without `"`, `\` or
/// characters below 0x20 is written inside unchanged.
pub proof fn law_quoted_key_shape(key: Seq<char>)
    ensures
        quoted_key(key) == seq!['[', '"'] + json_escape(key) + seq!['"', ']'],
        (forall|i: int|
            0 <= i < key.len() ==> #[trigger] key[i] != '"' && key[i] != '\\' && key[i] as u32
                >= 0x20) ==> json_escape(key) == key,
    decreases key.len(),
{
    reveal_strlit("[");
    reveal_strlit("]");
    assert(quoted_key(key) =~= seq!['[', '"'] + json_escape(key) + seq!['"', ']']);
    if key.len() > 0 {
        law_quoted_key_shape(key.drop_last());
        if forall|i: int|
            0 <= i < key.len() ==> #[trigger] key[i] != '"' && key[i] != '\\' && key[i] as u32
                >= 0x20 {
            assert forall|i: int| 0 <= i < key.drop_last().len() implies #[trigger] key.drop_last()[i]
                != '"' && key.drop_last()[i] != '\\' && key.drop_last()[i] as u32 >= 0x20 by {
                assert(key.drop_last()[i] == key[i]);
            }
            let c = key.last();
            assert(c == key[key.len() - 1]);
            assert(json_escape_char(c) == seq![c]);
            assert(key.drop_last().push(c) =~= key);
        }
    }
}

} // verus!

verus! {

/// A value read at `pos` starts after the whitespace there and ends after its start, within
/// the text. Its own span, with the value's path, is the last one visited; every span
/// visited lies within it and carries a path that starts with the value's path. Visiting
/// those spans never makes the best path shorter, and with the cursor inside the value the
/// best path is at least as deep as the value's own path.
pub proof fn law_value_spans(
    b: Seq<u8>,
    pos: int,
    path: Seq<SegmentView>,
    best: Seq<SegmentView>,
    cursor: int,
)
    requires
        0 <= pos <= b.len(),
    ensures
        value_spec(b, pos, path) matches Ok((end, spans)) ==> {
            let s = skip_space(b, pos);
            &&& s < end <= b.len()
            &&& spans.len() > 0
            &&& spans.last() == (Span { start: s, end, path })
            &&& spans_inside(spans, s, end, path)
            &&& fold_best(best, spans, cursor).len() >= best.len()
            &&& s <= cursor <= end ==> fold_best(best, spans, cursor).len() >= path.len()
        },
{
    lemma_value_spans(b, pos, path);
    if let Ok((end, spans)) = value_spec(b, pos, path) {
        lemma_fold_keeps_depth(best, spans, cursor);
        lemma_fold_keeps_depth(best, spans.drop_last(), cursor);
        assert(spans.drop_last().push(spans.last()) =~= spans);
        crate::grammar::lemma_fold_push(best, spans.drop_last(), spans.last(), cursor);
    }
}

} // verus!

verus! {

/// The first step is a key with no characters that is written bare.
pub open spec fn starts_with_bare_empty_key(path: Seq<SegmentView>, bare: Seq<bool>) -> bool {
    path.len() > 0 && path[0] == SegmentView::Key(Seq::empty()) && bare[0]
}

/// Step `i` of a path as a piece of text of its own: an index in brackets; a bare key,
/// after the separator unless it is the first step; any other key quoted.
pub open spec fn step_piece(path: Seq<SegmentView>, bare: Seq<bool>, separator: Seq<char>, i: int) -> Seq<char> {
    match path[i] {
        SegmentView::Key(key) => if bare[i] {
            if i == 0 {
                key
            } else {
                separator + key
            }
        } else {
            quoted_key(key)
        },
        SegmentView::Index(index) => "["@ + decimal(index) + "]"@,
    }
}

/// The pieces of the steps, one after the other.
pub open spec fn joined_pieces(path: Seq<SegmentView>, bare: Seq<bool>, separator: Seq<char>) -> Seq<char>
    decreases path.len(),
{
    if path.len() == 0 {
        Seq::empty()
    } else {
        joined_pieces(path.drop_last(), bare, separator) + step_piece(path, bare, separator, path.len() - 1)
    }
}

proof fn lemma_render_steps_nonempty(path: Seq<SegmentView>, bare: Seq<bool>, separator: Seq<char>)
    requires
        path.len() > 0,
        !starts_with_bare_empty_key(path, bare),
    ensures
        render_steps(path, bare, separator).len() > 0,
    decreases path.len(),
{
    reveal_strlit("[");
    reveal_strlit("]");
    let init = path.drop_last();
    if init.len() > 0 {
        assert(init[0] == path[0]);
        lemma_render_steps_nonempty(init, bare, separator);
    } else {
        assert(path.last() == path[0]);
        if let SegmentView::Key(key) = path.last() {
            if bare[0] {
                assert(key != Seq::<char>::empty());
                assert(key.len() > 0) by {
                    if key.len() == 0 {
                        assert(key =~= Seq::<char>::empty());
                    }
                }
            }
        }
    }
}

/// With the keys that are written bare given for each step, the text of a path is the
/// pieces of its steps one after the other, unless its first step is an empty key written
/// bare.
pub proof fn law_steps_are_pieces(path: Seq<SegmentView>, bare: Seq<bool>, separator: Seq<char>)
    requires
        !starts_with_bare_empty_key(path, bare),
    ensures
        render_steps(path, bare, separator) == joined_pieces(path, bare, separator),
    decreases path.len(),
{
    if path.len() > 0 {
        let init = path.drop_last();
        let n = path.len() - 1;
        if init.len() > 0 {
            assert(init[0] == path[0]);
            lemma_render_steps_nonempty(init, bare, separator);
        }
        law_steps_are_pieces(init, bare, separator);
        assert(path.last() == path[n]);
        let out = render_steps(init, bare, separator);
        assert(render_steps(path, bare, separator) =~= out + step_piece(path, bare, separator, n));
    }
}

/// The text of a path's steps is the pieces of its steps one after the other, each key bare
/// when the pattern matches it, unless the first step is an empty key that the pattern
/// matches.
pub proof fn law_path_is_pieces(path: Seq<SegmentView>, separator: Seq<char>, pattern: Seq<char>)
    requires
        !(path.len() > 0 && path[0] == SegmentView::Key(Seq::empty()) && regex_is_match(
            pattern,
            Seq::empty(),
        )),
    ensures
        render_segments(path, separator, pattern) == joined_pieces(
            path,
            key_answers(path, pattern),
            separator,
        ),
{
    let answers = key_answers(path, pattern);
    lemma_render_with_answers(path, answers, separator, pattern);
    law_steps_are_pieces(path, answers, separator);
}

} // verus!

verus! {

/// The headers written before a body are read back, a line at a time up to each line feed,
/// as the body's length and then the end of the headers.
pub proof fn law_header_reads_back(length: usize)
    ensures
        message_header_spec(length as nat) == length_line(length as nat) + "\r\n"@,
        length_line(length as nat).len() > 0,
        length_line(length as nat).last() == '\n',
        forall|i: int|
            0 <= i < length_line(length as nat).len() - 1 ==> #[trigger] length_line(length as nat)[i]
                != '\n',
        header_line_spec(length_line(length as nat)) == HeaderLine::ContentLength(Some(length)),
        header_line_spec("\r\n"@) == HeaderLine::EndOfHeaders,
{
    reveal_strlit("Content-Length: ");
    reveal_strlit("\r\n");
    let n = length as nat;
    let prefix = "Content-Length: "@;
    let d = decimal(n);
    lemma_decimal_digits(n);
    lemma_length_line_reads_back(length);
    let line = length_line(n);
    assert forall|i: int| 0 <= i < line.len() - 1 implies #[trigger] line[i] != '\n' by {
        if i < prefix.len() {
            assert(line[i] == prefix[i]);
        } else if i < prefix.len() + d.len() {
            assert(line[i] == d[i - prefix.len()]);
            assert(is_digit(d[i - prefix.len()]));
        } else {
            assert(line[i] == '\r');
        }
    }
    let blank = "\r\n"@;
    assert(blank.drop_last() =~= seq!['\r']);
    assert(seq!['\r'].drop_last() =~= Seq::<char>::empty());
    assert(trim_line_end(Seq::<char>::empty()) == Seq::<char>::empty());
    assert(seq!['\r'].last() == '\r');
    assert(trim_line_end(seq!['\r']) == Seq::<char>::empty());
    assert(trim_line_end(blank) == Seq::<char>::empty());
}

} // verus!

verus! {

/// One message handled as the server handles it: the documents after it, a reply exactly
/// when the message is one that the server answers, and a stop exactly at `exit`.
pub open spec fn handled(
    before: Map<Seq<char>, Seq<char>>,
    request: LspRequest,
    action: LspAction,
    after: Map<Seq<char>, Seq<char>>,
) -> bool {
    &&& after == documents_after(before, request)
    &&& is_reply(action) == answers_request(request)
    &&& (action is Stop) == (request is Exit)
}

/// The server handled `requests` in turn, each from the documents that the one before left,
/// taking `actions`.
pub open spec fn is_run(
    documents: Seq<Map<Seq<char>, Seq<char>>>,
    requests: Seq<LspRequest>,
    actions: Seq<LspAction>,
) -> bool {
    &&& documents.len() == requests.len() + 1
    &&& actions.len() == requests.len()
    &&& forall|i: int|
        0 <= i < requests.len() ==> #[trigger] handled(documents[i], requests[i], actions[i], documents[i + 1])
}

/// How many of the first `n` messages the server answers.
pub open spec fn answered_count(requests: Seq<LspRequest>, n: int) -> nat
    decreases n,
{
    if n <= 0 {
        0
    } else {
        answered_count(requests, n - 1) + if answers_request(requests[n - 1]) {
            1nat
        } else {
            0nat
        }
    }
}

/// How many of the first `n` actions send a reply.
pub open spec fn reply_count(actions: Seq<LspAction>, n: int) -> nat
    decreases n,
{
    if n <= 0 {
        0
    } else {
        reply_count(actions, n - 1) + if is_reply(actions[n - 1]) {
            1nat
        } else {
            0nat
        }
    }
}

/// The open documents after the first `n` messages.
pub open spec fn documents_after_all(
    documents: Map<Seq<char>, Seq<char>>,
    requests: Seq<LspRequest>,
    n: int,
) -> Map<Seq<char>, Seq<char>>
    decreases n,
{
    if n <= 0 {
        documents
    } else {
        documents_after(documents_after_all(documents, requests, n - 1), requests[n - 1])
    }
}

/// Message `k` is the first `exit`, or `k` is past the last message when none is.
pub open spec fn first_exit(requests: Seq<LspRequest>, k: int) -> bool {
    &&& 0 <= k <= requests.len()
    &&& k < requests.len() ==> requests[k] is Exit
    &&& forall|i: int| 0 <= i < k ==> !(#[trigger] requests[i] is Exit)
}

proof fn lemma_run_prefix(
    documents: Seq<Map<Seq<char>, Seq<char>>>,
    requests: Seq<LspRequest>,
    actions: Seq<LspAction>,
    n: int,
)
    requires
        is_run(documents, requests, actions),
        0 <= n <= requests.len(),
    ensures
        reply_count(actions, n) == answered_count(requests, n),
        documents[n] == documents_after_all(documents[0], requests, n),
    decreases n,
{
    if n > 0 {
        lemma_run_prefix(documents, requests, actions, n - 1);
        let i = n - 1;
        assert(handled(documents[i], requests[i], actions[i], documents[i + 1]));
        assert(i + 1 == n);
    }
}

/// Over a run of messages, the server goes on until the first `exit` and stops there; before
/// it, it sends as many replies as there are messages that it answers, one for each, and
/// the documents it holds are those that the messages before opened, changed and closed.
pub proof fn law_server_run(
    documents: Seq<Map<Seq<char>, Seq<char>>>,
    requests: Seq<LspRequest>,
    actions: Seq<LspAction>,
    k: int,
)
    requires
        is_run(documents, requests, actions),
        first_exit(requests, k),
    ensures
        forall|i: int| 0 <= i < k ==> !(#[trigger] actions[i] is Stop),
        forall|i: int| 0 <= i < k ==> #[trigger] is_reply(actions[i]) == answers_request(requests[i]),
        k < requests.len() ==> actions[k] is Stop,
        reply_count(actions, k) == answered_count(requests, k),
        documents[k] == documents_after_all(documents[0], requests, k),
{
    assert forall|i: int| 0 <= i < k implies !(#[trigger] actions[i] is Stop) && is_reply(actions[i])
        == answers_request(requests[i]) by {
        assert(handled(documents[i], requests[i], actions[i], documents[i + 1]));
        assert(!(requests[i] is Exit));
    }
    if k < requests.len() {
        assert(handled(documents[k], requests[k], actions[k], documents[k + 1]));
    }
    lemma_run_prefix(documents, requests, actions, k);
}

} // verus!

verus! {

use crate::extension::{asset_index, ReleaseAsset};

proof fn lemma_asset_from(assets: Seq<ReleaseAsset>, name: Seq<char>, start: int)
    requires
        0 <= start <= assets.len(),
    ensures
        (exists|k: int| start <= k < assets.len() && assets[k].name@ == name) ==> (asset_index(
            assets,
            name,
            start,
        ) matches Some(i) && start <= i < assets.len() && assets[i].name@ == name && forall|j: int|
            start <= j < i ==> assets[j].name@ != name),
        !(exists|k: int| start <= k < assets.len() && assets[k].name@ == name) ==> asset_index(
            assets,
            name,
            start,
        ) is None,
    decreases assets.len() - start,
{
    if start < assets.len() {
        lemma_asset_from(assets, name, start + 1);
        if assets[start].name@ != name {
            if exists|k: int| start <= k < assets.len() && assets[k].name@ == name {
                let k = choose|k: int| start <= k < assets.len() && assets[k].name@ == name;
                assert(start + 1 <= k);
            }
        }
    }
}

/// The asset downloaded for a platform is the first asset of the release with the
/// platform's name; there is one whenever any asset has that name, and none otherwise.
pub proof fn law_asset_is_first_with_name(assets: Seq<ReleaseAsset>, name: Seq<char>)
    ensures
        (exists|k: int| 0 <= k < assets.len() && assets[k].name@ == name) ==> (asset_index(
            assets,
            name,
            0,
        ) matches Some(i) && 0 <= i < assets.len() && assets[i].name@ == name && forall|j: int|
            0 <= j < i ==> assets[j].name@ != name),
        !(exists|k: int| 0 <= k < assets.len() && assets[k].name@ == name) ==> asset_index(
            assets,
            name,
            0,
        ) is None,
{
    lemma_asset_from(assets, name, 0);
}

/// `n` slashes.
pub open spec fn slashes(n: nat) -> Seq<char> {
    Seq::new(n, |i: int| '/')
}

proof fn lemma_trim_trailing(s: Seq<char>, n: nat)
    requires
        s.len() == 0 || s.last() != '/',
    ensures
        trim_slashes(s + slashes(n)) == s,
    decreases n,
{
    if n == 0 {
        assert(s + slashes(n) =~= s);
    } else {
        let t = s + slashes(n);
        assert(t.last() == '/');
        assert(t.drop_last() =~= s + slashes((n - 1) as nat));
        lemma_trim_trailing(s, (n - 1) as nat);
    }
}

/// A path whose last part is a name (after a `/`, or the whole path), with any number of
/// `/`s after it, has that name as its file name.
pub proof fn law_file_name_is_name(dir: Seq<char>, name: Seq<char>, trailing: nat)
    requires
        name.len() > 0,
        forall|i: int| 0 <= i < name.len() ==> !is_separator(#[trigger] name[i]),
    ensures
        file_name_spec(dir + seq!['/'] + name + slashes(trailing)) == Some(name),
        file_name_spec(name + slashes(trailing)) == Some(name),
{
    let head = dir + seq!['/'];
    assert(!is_separator(name[name.len() - 1]));
    assert((head + name).last() == name.last());
    lemma_trim_trailing(head + name, trailing);
    lemma_trim_trailing(name, trailing);
    crate::file_name::lemma_last_component(head, name);
    crate::file_name::lemma_last_component(Seq::empty(), name);
    assert(Seq::<char>::empty() + name =~= name);
}

} // verus!

verus! {

use crate::position::line_col;

/// How many line feeds the bytes hold.
pub open spec fn line_feeds(bytes: Seq<u8>) -> nat {
    bytes.filter(|x: u8| x == 0x0au8).len()
}

/// How many characters start in the bytes (bytes that do not continue a character).
pub open spec fn character_starts(bytes: Seq<u8>) -> nat {
    bytes.filter(|x: u8| !vstd::utf8::is_continuation_byte(x)).len()
}

proof fn lemma_line_of(b: Seq<u8>, i: int)
    requires
        0 <= i <= b.len(),
    ensures
        line_col(b, i).0 == line_feeds(b.subrange(0, i)),
    decreases i,
{
    reveal(Seq::filter);
    if i > 0 {
        lemma_line_of(b, i - 1);
        let s = b.subrange(0, i);
        assert(s.drop_last() =~= b.subrange(0, i - 1));
        assert(s.last() == b[i - 1]);
        if vstd::utf8::is_continuation_byte(b[i - 1]) {
            assert(b[i - 1] != 0x0a);
        }
    }
}

proof fn lemma_column_of(b: Seq<u8>, j: int, i: int)
    requires
        0 <= j <= i <= b.len(),
        j == 0 || b[j - 1] == 0x0a,
        forall|k: int| j <= k < i ==> b[k] != 0x0a,
    ensures
        line_col(b, i).1 == character_starts(b.subrange(j, i)),
    decreases i,
{
    reveal(Seq::filter);
    if i > j {
        lemma_column_of(b, j, i - 1);
        let s = b.subrange(j, i);
        assert(s.drop_last() =~= b.subrange(j, i - 1));
        assert(s.last() == b[i - 1]);
    } else {
        assert(b.subrange(j, i) =~= Seq::<u8>::empty());
        if j > 0 {
            assert(!vstd::utf8::is_continuation_byte(b[j - 1]));
        }
    }
}

/// The line of a position (from 0) is the number of line feeds before it, whatever bytes
/// surround them; its column (from 0) is the number of characters that start between the
/// line's start (the start of the text, or just after a line feed) and the position.
pub proof fn law_line_and_column_count(b: Seq<u8>, j: int, i: int)
    requires
        0 <= j <= i <= b.len(),
        j == 0 || b[j - 1] == 0x0a,
        forall|k: int| j <= k < i ==> b[k] != 0x0a,
    ensures
        line_col(b, i).0 == line_feeds(b.subrange(0, i)),
        line_col(b, i).1 == character_starts(b.subrange(j, i)),
{
    lemma_line_of(b, i);
    lemma_column_of(b, j, i);
}

/// Each line feed starts exactly one new line, at column 0, whatever byte comes before it.
pub proof fn law_line_feed_starts_one_line(b: Seq<u8>, i: int)
    requires
        0 <= i < b.len(),
        b[i] == 0x0a,
    ensures
        line_col(b, i + 1) == (line_col(b, i).0 + 1, 0int),
{
    lemma_line_of(b, i);
    lemma_line_of(b, i + 1);
    reveal(Seq::filter);
    let s = b.subrange(0, i + 1);
    assert(s.drop_last() =~= b.subrange(0, i));
    assert(s.last() == b[i]);
    lemma_column_of(b, i + 1, i + 1);
    assert(b.subrange(i + 1, i + 1) =~= Seq::<u8>::empty());
}

} // verus!

verus! {

use crate::format::{key_segment, step_matches};
use crate::json_text::json_quoted;

/// A key is written bare exactly when the pattern matches it, with no other condition on
/// the key: after the separator, or alone when nothing is written before it. A key that the
/// pattern does not match is written as a JSON string literal in brackets. What comes
/// before the key is written as without it.
pub proof fn law_key_bare_exactly_when_matched(
    path: Seq<SegmentView>,
    key: Seq<char>,
    separator: Seq<char>,
    pattern: Seq<char>,
)
    ensures
        ({
            let before = render_segments(path, separator, pattern);
            let after = render_segments(path.push(SegmentView::Key(key)), separator, pattern);
            &&& regex_is_match(pattern, key) ==> after == (if before.len() == 0 {
                key
            } else {
                before + separator + key
            })
            &&& !regex_is_match(pattern, key) ==> after == before + seq!['['] + json_quoted(key)
                + seq![']']
        }),
        key_segment(key, pattern) == (if regex_is_match(pattern, key) {
            key
        } else {
            seq!['['] + json_quoted(key) + seq![']']
        }),
        step_matches(SegmentView::Key(key), pattern) == regex_is_match(pattern, key),
        key_answers(path.push(SegmentView::Key(key)), pattern).last() == regex_is_match(pattern, key),
{
    reveal_strlit("[");
    reveal_strlit("]");
    assert(path.push(SegmentView::Key(key)).drop_last() =~= path);
    assert(quoted_key(key) =~= seq!['['] + json_quoted(key) + seq![']']);
    let before = render_segments(path, separator, pattern);
    assert(before + quoted_key(key) =~= before + seq!['['] + json_quoted(key) + seq![']']);
}

} // verus!

verus! {

use crate::grammar::{is_number_byte, number_len, space_len};

/// One or more decimal digits.
pub open spec fn decimal_digits(s: Seq<u8>) -> bool {
    s.len() > 0 && forall|i: int| 0 <= i < s.len() ==> 0x30 <= #[trigger] s[i] <= 0x39
}

/// The bytes of a JSON number: an optional `-`, the integer digits, an optional fraction
/// (`.` and digits) and an optional exponent (`e` or `E`, an optional sign, digits).
pub open spec fn number_literal(
    minus: bool,
    integer: Seq<u8>,
    fraction: Option<Seq<u8>>,
    exponent: Option<(u8, Option<u8>, Seq<u8>)>,
) -> Seq<u8> {
    (if minus {
        seq![0x2du8]
    } else {
        Seq::empty()
    }) + integer + (match fraction {
        Some(digits) => seq![0x2eu8] + digits,
        None => Seq::empty(),
    }) + (match exponent {
        Some((e, sign, digits)) => seq![e] + (match sign {
            Some(s) => seq![s],
            None => Seq::empty(),
        }) + digits,
        None => Seq::empty(),
    })
}

/// The parts make a JSON number as the JSON grammar has it: digits without a leading zero
/// (but `0` itself), digits after the `.`, and `e` or `E` with an optional `+` or `-` before
/// the exponent's digits.
pub open spec fn number_parts(
    integer: Seq<u8>,
    fraction: Option<Seq<u8>>,
    exponent: Option<(u8, Option<u8>, Seq<u8>)>,
) -> bool {
    &&& decimal_digits(integer)
    &&& integer[0] == 0x30 ==> integer.len() == 1
    &&& fraction matches Some(digits) ==> decimal_digits(digits)
    &&& exponent matches Some((e, sign, digits)) ==> (e == 0x65 || e == 0x45) && (sign matches Some(
        s,
    ) ==> s == 0x2b || s == 0x2d) && decimal_digits(digits)
}

/// What may follow a value in a JSON text: whitespace, `,`, `]`, `}`, or the end.
pub open spec fn value_may_end(b: Seq<u8>, k: int) -> bool {
    k == b.len() || (0 <= k < b.len() && (b[k] == 0x20 || b[k] == 0x0a || b[k] == 0x0d || b[k]
        == 0x09 || b[k] == 0x2c || b[k] == 0x5d || b[k] == 0x7d))
}

proof fn lemma_number_run(b: Seq<u8>, pos: int, n: int)
    requires
        0 <= pos,
        0 <= n,
        pos + n <= b.len(),
        forall|k: int| pos <= k < pos + n ==> is_number_byte(#[trigger] b[k]),
        pos + n == b.len() || !is_number_byte(b[pos + n]),
    ensures
        number_len(b, pos) == n,
    decreases n,
{
    if n > 0 {
        assert(is_number_byte(b[pos]));
        lemma_number_run(b, pos + 1, n - 1);
    }
}

/// A JSON number in a text, followed by what may follow a value, is read whole: the
/// number ends where the literal ends, and the value read there is the number, with its
/// own span and nothing inside.
pub proof fn law_number_read_whole(
    b: Seq<u8>,
    pos: int,
    path: Seq<SegmentView>,
    minus: bool,
    integer: Seq<u8>,
    fraction: Option<Seq<u8>>,
    exponent: Option<(u8, Option<u8>, Seq<u8>)>,
)
    requires
        number_parts(integer, fraction, exponent),
        0 <= pos,
        pos + number_literal(minus, integer, fraction, exponent).len() <= b.len(),
        b.subrange(pos, pos + number_literal(minus, integer, fraction, exponent).len())
            == number_literal(minus, integer, fraction, exponent),
        value_may_end(b, pos + number_literal(minus, integer, fraction, exponent).len()),
    ensures
        ({
            let end = pos + number_literal(minus, integer, fraction, exponent).len();
            &&& number_len(b, pos) == end - pos
            &&& value_spec(b, pos, path) == Ok::<(int, Seq<Span>), crate::grammar::ParseFailure>(
                (end, seq![Span { start: pos, end, path }]),
            )
        }),
{
    let lit = number_literal(minus, integer, fraction, exponent);
    let n = lit.len() as int;
    let sign_part: Seq<u8> = if minus {
        seq![0x2du8]
    } else {
        Seq::empty()
    };
    let frac_part: Seq<u8> = match fraction {
        Some(digits) => seq![0x2eu8] + digits,
        None => Seq::empty(),
    };
    let exp_part: Seq<u8> = match exponent {
        Some((e, sign, digits)) => seq![e] + (match sign {
            Some(s) => seq![s],
            None => Seq::empty(),
        }) + digits,
        None => Seq::empty(),
    };
    assert(lit == sign_part + integer + frac_part + exp_part);
    assert forall|k: int| 0 <= k < sign_part.len() implies is_number_byte(#[trigger] sign_part[k]) by {}
    assert forall|k: int| 0 <= k < integer.len() implies is_number_byte(#[trigger] integer[k]) by {}
    assert forall|k: int| 0 <= k < frac_part.len() implies is_number_byte(#[trigger] frac_part[k]) by {
        if let Some(digits) = fraction {
            if k > 0 {
                assert(frac_part[k] == digits[k - 1]);
            }
        }
    }
    assert forall|k: int| 0 <= k < exp_part.len() implies is_number_byte(#[trigger] exp_part[k]) by {
        if let Some((e, sign, digits)) = exponent {
            let sp: Seq<u8> = match sign {
                Some(s) => seq![s],
                None => Seq::empty(),
            };
            assert(exp_part == seq![e] + sp + digits);
            if k >= 1 + sp.len() {
                assert(exp_part[k] == digits[k - 1 - sp.len()]);
            } else if k >= 1 {
                assert(exp_part[k] == sp[k - 1]);
            }
        }
    }
    assert forall|k: int| 0 <= k < n implies is_number_byte(#[trigger] lit[k]) by {
        let a = sign_part.len() as int;
        let c = a + integer.len();
        let d = c + frac_part.len();
        if k < a {
            assert(lit[k] == sign_part[k]);
        } else if k < c {
            assert(lit[k] == integer[k - a]);
        } else if k < d {
            assert(lit[k] == frac_part[k - c]);
        } else {
            assert(lit[k] == exp_part[k - d]);
        }
    }
    assert forall|k: int| pos <= k < pos + n implies is_number_byte(#[trigger] b[k]) by {
        assert(b[k] == b.subrange(pos, pos + n)[k - pos]);
        assert(is_number_byte(lit[k - pos]));
    }
    lemma_number_run(b, pos, n);
    // The value starts right at `pos`, with `-` or a digit.
    assert(b[pos] == lit[0]);
    if minus {
        assert(lit[0] == 0x2du8);
    } else {
        assert(lit[0] == integer[0]);
    }
    assert(space_len(b, pos) == 0);
    assert(seq![Span { start: pos, end: pos + n, path }] =~= Seq::<Span>::empty().push(
        Span { start: pos, end: pos + n, path },
    ));
}

} // verus!

verus! {

use crate::position::{char_start, first_position};

proof fn lemma_first_position_reaches(b: Seq<u8>, target: (int, int), j: int, o: int)
    requires
        0 <= j <= o <= b.len(),
        char_start(b, o),
        line_col(b, o) == target,
    ensures
        first_position(b, target, j) matches Some(p) && j <= p <= o,
    decreases o - j,
{
    if !(char_start(b, j) && line_col(b, j) == target) {
        lemma_first_position_reaches(b, target, j + 1, o);
    }
}

/// Whenever some character (or the end of the text) sits at the 1-based `row` and
/// `column`, the cursor there has an offset: the first such place, a character start with
/// that line and column.
pub proof fn law_cursor_offset_found(b: Seq<u8>, row: int, column: int, o: int)
    requires
        row >= 1,
        column >= 1,
        0 <= o <= b.len(),
        char_start(b, o),
        line_col(b, o) == (row - 1, column - 1),
    ensures
        cursor_offset(b, row, column) matches Ok(p) && p <= o && char_start(b, p) && line_col(b, p)
            == (row - 1, column - 1),
{
    lemma_first_position_reaches(b, (row - 1, column - 1), 0, o);
    lemma_first_position(b, (row - 1, column - 1), 0);
}

} // verus!
