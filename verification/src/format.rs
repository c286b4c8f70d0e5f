//! Writing a key path as text.
use vstd::prelude::*;
use vstd::string::*;
use crate::file_name::{file_name, file_name_spec};
use crate::json_text::{json_quoted, quote_json_string};
use crate::key_pattern::{regex_compile_error, regex_is_match, KeyPattern};
use crate::segment::{path_view, PathSegment, SegmentView};
use crate::settings::CopyJsonPathSettings;
use crate::text::{decimal, push_decimal, push_str};

verus! {

/// A key in brackets, as a JSON string literal: `["key"]`.
pub open spec fn quoted_key(key: Seq<char>) -> Seq<char> {
    "["@ + json_quoted(key) + "]"@
}

/// A key that starts the path: bare when the pattern matches it, else quoted.
pub open spec fn key_segment(key: Seq<char>, pattern: Seq<char>) -> Seq<char> {
    if regex_is_match(pattern, key) {
        key
    } else {
        quoted_key(key)
    }
}

/// The text so far with one more step: a key that the pattern matches is added after the
/// separator (or alone, when nothing is written yet), another key is added quoted, and an
/// index is added in brackets.
pub open spec fn push_segment(
    out: Seq<char>,
    segment: SegmentView,
    separator: Seq<char>,
    pattern: Seq<char>,
) -> Seq<char> {
    match segment {
        SegmentView::Key(key) => if out.len() == 0 {
            key_segment(key, pattern)
        } else if regex_is_match(pattern, key) {
            out + separator + key
        } else {
            out + quoted_key(key)
        },
        SegmentView::Index(index) => out + "["@ + decimal(index) + "]"@,
    }
}

/// The steps of a path written one after the other.
pub open spec fn render_segments(
    path: Seq<SegmentView>,
    separator: Seq<char>,
    pattern: Seq<char>,
) -> Seq<char>
    decreases path.len(),
{
    if path.len() == 0 {
        Seq::empty()
    } else {
        push_segment(
            render_segments(path.drop_last(), separator, pattern),
            path.last(),
            separator,
            pattern,
        )
    }
}

/// The text so far with one more step, where `bare` says whether a key is written bare:
/// a bare key is added after the separator (or alone, when nothing is written yet), another
/// key is added quoted, and an index is added in brackets.
pub open spec fn push_step(out: Seq<char>, segment: SegmentView, bare: bool, separator: Seq<char>) -> Seq<char> {
    match segment {
        SegmentView::Key(key) => if bare {
            if out.len() == 0 {
                key
            } else {
                out + separator + key
            }
        } else {
            out + quoted_key(key)
        },
        SegmentView::Index(index) => out + "["@ + decimal(index) + "]"@,
    }
}

/// The steps of a path written one after the other, the key at position `i` bare when
/// `bare[i]` holds.
pub open spec fn render_steps(path: Seq<SegmentView>, bare: Seq<bool>, separator: Seq<char>) -> Seq<char>
    decreases path.len(),
{
    if path.len() == 0 {
        Seq::empty()
    } else {
        push_step(
            render_steps(path.drop_last(), bare, separator),
            path.last(),
            bare[path.len() - 1],
            separator,
        )
    }
}

/// Whether the pattern matches the step: a key that it matches; never an index.
pub open spec fn step_matches(segment: SegmentView, pattern: Seq<char>) -> bool {
    match segment {
        SegmentView::Key(key) => regex_is_match(pattern, key),
        SegmentView::Index(_) => false,
    }
}

/// For each step of the path, whether the pattern matches it.
pub open spec fn key_answers(path: Seq<SegmentView>, pattern: Seq<char>) -> Seq<bool> {
    Seq::new(path.len(), |i: int| step_matches(path[i], pattern))
}

/// Writing the steps with the pattern is writing them with the pattern's answers.
pub proof fn lemma_render_with_answers(
    path: Seq<SegmentView>,
    answers: Seq<bool>,
    separator: Seq<char>,
    pattern: Seq<char>,
)
    requires
        path.len() <= answers.len(),
        forall|i: int| 0 <= i < path.len() ==> #[trigger] answers[i] == step_matches(path[i], pattern),
    ensures
        render_segments(path, separator, pattern) == render_steps(path, answers, separator),
    decreases path.len(),
{
    if path.len() > 0 {
        let init = path.drop_last();
        assert forall|i: int| 0 <= i < init.len() implies #[trigger] answers[i] == step_matches(
            init[i],
            pattern,
        ) by {
            assert(init[i] == path[i]);
        }
        lemma_render_with_answers(init, answers, separator, pattern);
        assert(answers[path.len() - 1] == step_matches(path[path.len() - 1], pattern));
        reveal_strlit("[");
        reveal_strlit("]");
    }
}

/// A path as text: its steps, or `$` when that is empty.
pub open spec fn path_text(path: Seq<SegmentView>, separator: Seq<char>, pattern: Seq<char>) -> Seq<char> {
    let text = render_segments(path, separator, pattern);
    if text.len() == 0 {
        "$"@
    } else {
        text
    }
}

/// What the copied text is for `path` in the file `file_path`, or the error of a regex
/// that does not compile. With the file name in the path, the file name comes first, then
/// the prefix separator and the path; the empty path is the file name alone.
pub open spec fn format_json_path_spec(
    file_path: Seq<char>,
    path: Seq<SegmentView>,
    settings: CopyJsonPathSettings,
) -> Result<Seq<char>, Seq<char>> {
    match regex_compile_error(settings.non_quoted_key_regex@) {
        Some(error) => Err("invalid nonQuotedKeyRegex: "@ + error),
        None => {
            let text = path_text(path, settings.path_separator@, settings.non_quoted_key_regex@);
            if settings.put_file_name_in_path {
                let name = match file_name_spec(file_path) {
                    Some(name) => name,
                    None => file_path,
                };
                if path.len() == 0 {
                    Ok(name)
                } else {
                    Ok(name + settings.prefix_separator@ + text)
                }
            } else {
                Ok(text)
            }
        },
    }
}

/// A key in brackets, written as a JSON string literal.
pub fn format_quoted_key(key: &str) -> (text: String)
    ensures
        text@ == quoted_key(key@),
{
    let quoted = quote_json_string(key);
    let mut text = String::new();
    push_str(&mut text, "[");
    push_str(&mut text, quoted.as_str());
    push_str(&mut text, "]");
    assert(text@ =~= quoted_key(key@));
    text
}

/// A key at the start of the path: bare when the pattern matches it, else quoted.
pub fn format_key_segment(key: &str, non_quoted_key_regex: &KeyPattern) -> (text: String)
    ensures
        text@ == key_segment(key@, non_quoted_key_regex.pattern()),
{
    if non_quoted_key_regex.is_match(key) {
        let mut text = String::new();
        push_str(&mut text, key);
        assert(text@ =~= key@);
        text
    } else {
        format_quoted_key(key)
    }
}

/// Writes the steps of `path` one after the other, the key at position `i` bare when
/// `bare[i]` holds and quoted otherwise.
pub fn render_path_steps(path: &[PathSegment], bare: &[bool], path_separator: &str) -> (text: String)
    requires
        path@.len() <= bare@.len(),
    ensures
        text@ == render_steps(path_view(path@), bare@, path_separator@),
{
    let mut output = String::new();
    let mut i: usize = 0;
    while i < path.len()
        invariant
            i <= path@.len(),
            path@.len() <= bare@.len(),
            output@ == render_steps(path_view(path@).subrange(0, i as int), bare@, path_separator@),
        decreases path@.len() - i,
    {
        let ghost before = output@;
        match &path[i] {
            PathSegment::Key(key) => {
                if bare[i] {
                    if output.as_str().is_empty() {
                        push_str(&mut output, key.as_str());
                    } else {
                        push_str(&mut output, path_separator);
                        push_str(&mut output, key.as_str());
                    }
                } else {
                    let quoted = format_quoted_key(key.as_str());
                    push_str(&mut output, quoted.as_str());
                }
            },
            PathSegment::Index(index) => {
                push_str(&mut output, "[");
                push_decimal(&mut output, *index);
                push_str(&mut output, "]");
            },
        }
        proof {
            let segments = path_view(path@);
            assert(segments.subrange(0, i + 1).drop_last() =~= segments.subrange(0, i as int));
            assert(segments.subrange(0, i + 1).last() == path@[i as int]@);
            assert(output@ =~= push_step(before, path@[i as int]@, bare@[i as int], path_separator@));
        }
        i = i + 1;
    }
    assert(path_view(path@).subrange(0, i as int) =~= path_view(path@));
    output
}

/// Writes the steps of `path` one after the other, or `$` for the empty path.
pub fn format_path_segments(
    path: &[PathSegment],
    path_separator: &str,
    non_quoted_key_regex: &KeyPattern,
) -> (text: String)
    ensures
        text@ == path_text(path_view(path@), path_separator@, non_quoted_key_regex.pattern()),
{
    let ghost pattern = non_quoted_key_regex.pattern();
    let mut answers: Vec<bool> = Vec::new();
    let mut i: usize = 0;
    while i < path.len()
        invariant
            i <= path@.len(),
            answers@.len() == i,
            pattern == non_quoted_key_regex.pattern(),
            forall|j: int| 0 <= j < i ==> #[trigger] answers@[j] == step_matches(path_view(path@)[j], pattern),
        decreases path@.len() - i,
    {
        let answer = match &path[i] {
            PathSegment::Key(key) => non_quoted_key_regex.is_match(key.as_str()),
            PathSegment::Index(_) => false,
        };
        answers.push(answer);
        i = i + 1;
    }
    let output = render_path_steps(path, answers.as_slice(), path_separator);
    proof {
        lemma_render_with_answers(path_view(path@), answers@, path_separator@, pattern);
    }
    if output.as_str().is_empty() {
        let mut dollar = String::new();
        push_str(&mut dollar, "$");
        assert(dollar@ =~= "$"@);
        dollar
    } else {
        output
    }
}

/// The text that the key path `path` is copied as, for the file `file_path`; fails when
/// `nonQuotedKeyRegex` does not compile.
pub fn format_json_path(
    file_path: &str,
    path: &[PathSegment],
    settings: &CopyJsonPathSettings,
) -> (res: Result<String, String>)
    ensures
        (match format_json_path_spec(file_path@, path_view(path@), *settings) {
            Ok(text) => res matches Ok(found) && found@ == text,
            Err(message) => res matches Err(e) && e@ == message,
        }),
{
    let regex = match KeyPattern::compile(settings.non_quoted_key_regex.as_str()) {
        Ok(regex) => regex,
        Err(error) => {
            let mut e = String::new();
            push_str(&mut e, "invalid nonQuotedKeyRegex: ");
            push_str(&mut e, error.as_str());
            assert(e@ =~= "invalid nonQuotedKeyRegex: "@ + error@);
            return Err(e);
        },
    };
    let mut text = format_path_segments(path, settings.path_separator.as_str(), &regex);
    if settings.put_file_name_in_path {
        let name: &str = match file_name(file_path) {
            Some(name) => name,
            None => file_path,
        };
        if path.len() == 0 {
            let mut whole = String::new();
            push_str(&mut whole, name);
            assert(whole@ =~= name@);
            text = whole;
        } else {
            let mut whole = String::new();
            push_str(&mut whole, name);
            push_str(&mut whole, settings.prefix_separator.as_str());
            push_str(&mut whole, text.as_str());
            assert(whole@ =~= name@ + settings.prefix_separator@ + text@);
            text = whole;
        }
    }
    Ok(text)
}

} // verus!
