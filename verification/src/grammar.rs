//! The JSON grammar that the cursor parser follows, as spec functions over the bytes of
//! the text, and the spans that the parser visits.
use vstd::prelude::*;
use vstd::utf8::*;
use crate::json_text::json_string_literal;
use crate::segment::SegmentView;
use crate::text::decimal;

verus! {

/// Space, line feed, carriage return and tab.
pub open spec fn is_json_space(c: u8) -> bool {
    c == 0x20 || c == 0x0a || c == 0x0d || c == 0x09
}

/// The bytes that the parser takes as part of a number: `-`, `+`, `.`, digits, `e`, `E`.
pub open spec fn is_number_byte(c: u8) -> bool {
    c == 0x2d || c == 0x2b || c == 0x2e || (0x30 <= c <= 0x39) || c == 0x65 || c == 0x45
}

/// How many whitespace bytes start at `pos`.
pub open spec fn space_len(b: Seq<u8>, pos: int) -> nat
    decreases b.len() - pos,
{
    if 0 <= pos < b.len() && is_json_space(b[pos]) {
        1 + space_len(b, pos + 1)
    } else {
        0
    }
}

/// The first position at or after `pos` that holds no whitespace.
pub open spec fn skip_space(b: Seq<u8>, pos: int) -> int {
    pos + space_len(b, pos)
}

/// How many number bytes start at `pos`.
pub open spec fn number_len(b: Seq<u8>, pos: int) -> nat
    decreases b.len() - pos,
{
    if 0 <= pos < b.len() && is_number_byte(b[pos]) {
        1 + number_len(b, pos + 1)
    } else {
        0
    }
}

/// From position `i` inside a string literal, how many bytes up to and including the
/// closing quote; a backslash takes the next byte with it. `None` when the text ends first.
pub open spec fn string_rest_len(b: Seq<u8>, i: int) -> Option<nat>
    decreases b.len() - i,
{
    if !(0 <= i < b.len()) {
        None
    } else if b[i] == 0x5c {
        if i + 1 < b.len() {
            match string_rest_len(b, i + 2) {
                Some(n) => Some(n + 2),
                None => None,
            }
        } else {
            None
        }
    } else if b[i] == 0x22 {
        Some(1)
    } else {
        match string_rest_len(b, i + 1) {
            Some(n) => Some(n + 1),
            None => None,
        }
    }
}

/// "expected `c` at n"
pub open spec fn expected_message(byte: u8, pos: int) -> Seq<char> {
    "expected `"@ + seq![byte as char] + "` at "@ + decimal(pos as nat)
}

/// "unexpected byte `c` at n"
pub open spec fn unexpected_message(byte: u8, pos: int) -> Seq<char> {
    "unexpected byte `"@ + seq![byte as char] + "` at "@ + decimal(pos as nat)
}

/// The message when a value is missing at the end of the text.
pub open spec fn end_message() -> Seq<char> {
    "unexpected end of JSON"@
}

/// The message when a string literal has no closing quote.
pub open spec fn unterminated_message() -> Seq<char> {
    "unterminated JSON string"@
}

/// The message when serde_json refuses a string literal.
pub open spec fn string_error_message(error: Seq<char>) -> Seq<char> {
    "failed to parse JSON string: "@ + error
}

/// "expected `literal` at n"
pub open spec fn literal_message(literal: Seq<char>, pos: int) -> Seq<char> {
    "expected `"@ + literal + "` at "@ + decimal(pos as nat)
}

/// The string literal that starts at `q`: where it ends and what it decodes to.
pub open spec fn string_token(b: Seq<u8>, q: int) -> Result<(int, Seq<char>), ParseFailure> {
    if !(0 <= q < b.len() && b[q] == 0x22) {
        Err((expected_message(0x22, q), q))
    } else {
        match string_rest_len(b, q + 1) {
            None => Err((unterminated_message(), b.len() as int)),
            Some(n) => {
                let end = q + 1 + n;
                match json_string_literal(decode_utf8(b.subrange(q, end))) {
                    Ok(value) => Ok((end, value)),
                    Err(error) => Err((string_error_message(error), end)),
                }
            },
        }
    }
}

/// The literal word `literal` at `pos`: the position after it.
pub open spec fn literal_token(b: Seq<u8>, pos: int, literal: Seq<char>) -> Result<int, ParseFailure> {
    let bytes = encode_utf8(literal);
    if pos + bytes.len() <= b.len() && b.subrange(pos, pos + bytes.len()) == bytes {
        Ok(pos + bytes.len())
    } else {
        Err((literal_message(literal, pos), pos))
    }
}

/// A value, key or element that the parser visits: its bytes `start..end` and its path.
pub struct Span {
    pub start: int,
    pub end: int,
    pub path: Seq<SegmentView>,
}

/// Why a parse stops, and the position where the parser then stands.
pub type ParseFailure = (Seq<char>, int);

/// Where a parse ends and the spans it visits in order, or why and where it stops.
pub type Parsed = Result<(int, Seq<Span>), ParseFailure>;

/// A parse that succeeded with `spans` visited before it.
pub open spec fn after(spans: Seq<Span>, r: Parsed) -> Parsed {
    match r {
        Ok((end, rest)) => Ok((end, spans + rest)),
        Err(message) => Err(message),
    }
}

pub proof fn lemma_space_len(b: Seq<u8>, pos: int)
    requires
        0 <= pos <= b.len(),
    ensures
        skip_space(b, pos) <= b.len(),
    decreases b.len() - pos,
{
    if pos < b.len() && is_json_space(b[pos]) {
        lemma_space_len(b, pos + 1);
    }
}

pub proof fn lemma_string_rest_len(b: Seq<u8>, i: int)
    requires
        0 <= i,
    ensures
        string_rest_len(b, i) matches Some(n) ==> 1 <= n && i + n <= b.len(),
    decreases b.len() - i,
{
    if 0 <= i < b.len() {
        if b[i] == 0x5c {
            if i + 1 < b.len() {
                lemma_string_rest_len(b, i + 2);
            }
        } else if b[i] != 0x22 {
            lemma_string_rest_len(b, i + 1);
        }
    }
}

/// The value that starts at or after `pos` (after whitespace), visited with path `path`.
/// The value's own span comes after the spans inside it.
pub open spec fn value_spec(b: Seq<u8>, pos: int, path: Seq<SegmentView>) -> Parsed
    decreases b.len() - pos, 0int,
{
    if !(0 <= pos <= b.len()) {
        Err((end_message(), pos))
    } else {
        proof {
            lemma_space_len(b, pos);
        }
        let s = skip_space(b, pos);
        if s >= b.len() {
            Err((end_message(), s))
        } else {
            let c = b[s];
            let inner: Parsed = if c == 0x7b {
                members_spec(b, s + 1, path)
            } else if c == 0x5b {
                elements_spec(b, s + 1, path, 0)
            } else if c == 0x22 {
                match string_token(b, s) {
                    Ok((end, _)) => Ok((end, Seq::empty())),
                    Err(message) => Err(message),
                }
            } else if c == 0x2d || (0x30 <= c <= 0x39) {
                Ok((s + number_len(b, s), Seq::empty()))
            } else if c == 0x74 {
                match literal_token(b, s, "true"@) {
                    Ok(end) => Ok((end, Seq::empty())),
                    Err(message) => Err(message),
                }
            } else if c == 0x66 {
                match literal_token(b, s, "false"@) {
                    Ok(end) => Ok((end, Seq::empty())),
                    Err(message) => Err(message),
                }
            } else if c == 0x6e {
                match literal_token(b, s, "null"@) {
                    Ok(end) => Ok((end, Seq::empty())),
                    Err(message) => Err(message),
                }
            } else {
                Err((unexpected_message(c, s), s))
            };
            match inner {
                Ok((end, spans)) => Ok((end, spans.push(Span { start: s, end, path }))),
                Err(message) => Err(message),
            }
        }
    }
}

#[verifier::opaque]
/// The members of an object, from `p` (after `{` or after a `,`) through the closing `}`.
/// Each key is visited, with the key added to the path, before its value.
pub open spec fn members_spec(b: Seq<u8>, p: int, path: Seq<SegmentView>) -> Parsed
    decreases b.len() - p, 1int,
{
    if !(0 <= p <= b.len()) {
        Err((end_message(), p))
    } else {
        proof {
            lemma_space_len(b, p);
        }
        let q = skip_space(b, p);
        if q < b.len() && b[q] == 0x7d {
            Ok((q + 1, Seq::empty()))
        } else {
            match string_token(b, q) {
                Err(message) => Err(message),
                Ok((key_end, key)) => {
                    proof {
                        lemma_string_rest_len(b, q + 1);
                        lemma_space_len(b, key_end);
                    }
                    let key_path = path.push(SegmentView::Key(key));
                    let c = skip_space(b, key_end);
                    if !(c < b.len() && b[c] == 0x3a) {
                        Err((expected_message(0x3a, c), c))
                    } else {
                        match value_spec(b, c + 1, key_path) {
                            Err(message) => Err(message),
                            Ok((value_end, value_spans)) => {
                                if !(p <= value_end <= b.len()) {
                                    Err((end_message(), value_end))
                                } else {
                                    proof {
                                        lemma_space_len(b, value_end);
                                    }
                                    let d = skip_space(b, value_end);
                                    let visited = seq![Span { start: q, end: key_end, path: key_path }]
                                        + value_spans;
                                    if d < b.len() && b[d] == 0x2c {
                                        after(visited, members_spec(b, d + 1, path))
                                    } else if d < b.len() && b[d] == 0x7d {
                                        Ok((d + 1, visited))
                                    } else {
                                        Err((expected_message(0x7d, d), d))
                                    }
                                }
                            },
                        }
                    }
                },
            }
        }
    }
}

#[verifier::opaque]
/// The elements of an array, from `p` (after `[` or after a `,`) through the closing `]`;
/// the next element has index `index`.
pub open spec fn elements_spec(b: Seq<u8>, p: int, path: Seq<SegmentView>, index: int) -> Parsed
    decreases b.len() - p, 1int,
{
    if !(0 <= p <= b.len()) {
        Err((end_message(), p))
    } else {
        proof {
            lemma_space_len(b, p);
        }
        let q = skip_space(b, p);
        if q < b.len() && b[q] == 0x5d {
            Ok((q + 1, Seq::empty()))
        } else {
            match value_spec(b, q, path.push(SegmentView::Index(index as nat))) {
                Err(message) => Err(message),
                Ok((value_end, value_spans)) => {
                    if !(p <= value_end <= b.len()) {
                        Err((end_message(), value_end))
                    } else {
                        proof {
                            lemma_space_len(b, value_end);
                        }
                        let d = skip_space(b, value_end);
                        if d < b.len() && b[d] == 0x2c {
                            after(value_spans, elements_spec(b, d + 1, path, index + 1))
                        } else if d < b.len() && b[d] == 0x5d {
                            Ok((d + 1, value_spans))
                        } else {
                            Err((expected_message(0x5d, d), d))
                        }
                    }
                },
            }
        }
    }
}

/// The span of an object key with its path.
pub open spec fn key_visit(b: Seq<u8>, q: int, path: Seq<SegmentView>) -> Span {
    Span {
        start: q,
        end: string_token(b, q)->Ok_0.0,
        path: path.push(SegmentView::Key(string_token(b, q)->Ok_0.1)),
    }
}

/// One member of an object at `p`: the object closes at `skip_space(b, p)`, or a key there
/// fails, or the member reads through its value.
pub proof fn lemma_members_unfold(b: Seq<u8>, p: int, path: Seq<SegmentView>)
    requires
        0 <= p <= b.len(),
    ensures
        ({
            let q = skip_space(b, p);
            if q < b.len() && b[q] == 0x7d {
                members_spec(b, p, path) == Ok::<(int, Seq<Span>), ParseFailure>((q + 1, Seq::empty()))
            } else {
                match string_token(b, q) {
                    Err(message) => members_spec(b, p, path) == Err::<(int, Seq<Span>), ParseFailure>(message),
                    Ok((key_end, key)) => {
                        let key_path = path.push(SegmentView::Key(key));
                        let c = skip_space(b, key_end);
                        if !(c < b.len() && b[c] == 0x3a) {
                            members_spec(b, p, path) == Err::<(int, Seq<Span>), ParseFailure>(
                                (expected_message(0x3a, c), c),
                            )
                        } else {
                            match value_spec(b, c + 1, key_path) {
                                Err(message) => members_spec(b, p, path) == Err::<(int, Seq<Span>), ParseFailure>(message),
                                Ok((value_end, value_spans)) => p <= value_end <= b.len() ==> {
                                    let d = skip_space(b, value_end);
                                    let visited = seq![key_visit(b, q, path)] + value_spans;
                                    if d < b.len() && b[d] == 0x2c {
                                        members_spec(b, p, path) == after(
                                            visited,
                                            members_spec(b, d + 1, path),
                                        )
                                    } else if d < b.len() && b[d] == 0x7d {
                                        members_spec(b, p, path) == Ok::<(int, Seq<Span>), ParseFailure>((d + 1, visited))
                                    } else {
                                        members_spec(b, p, path) == Err::<(int, Seq<Span>), ParseFailure>((expected_message(0x7d, d), d))
                                    }
                                },
                            }
                        }
                    },
                }
            }
        }),
{
    reveal(members_spec);
}

/// One element of an array at `p`: the array closes at `skip_space(b, p)`, or the element
/// reads through its value.
pub proof fn lemma_elements_unfold(b: Seq<u8>, p: int, path: Seq<SegmentView>, index: int)
    requires
        0 <= p <= b.len(),
    ensures
        ({
            let q = skip_space(b, p);
            if q < b.len() && b[q] == 0x5d {
                elements_spec(b, p, path, index) == Ok::<(int, Seq<Span>), ParseFailure>(
                    (q + 1, Seq::empty()),
                )
            } else {
                match value_spec(b, q, path.push(SegmentView::Index(index as nat))) {
                    Err(message) => elements_spec(b, p, path, index) == Err::<(int, Seq<Span>), ParseFailure>(message),
                    Ok((value_end, value_spans)) => p <= value_end <= b.len() ==> {
                        let d = skip_space(b, value_end);
                        if d < b.len() && b[d] == 0x2c {
                            elements_spec(b, p, path, index) == after(
                                value_spans,
                                elements_spec(b, d + 1, path, index + 1),
                            )
                        } else if d < b.len() && b[d] == 0x5d {
                            elements_spec(b, p, path, index) == Ok::<(int, Seq<Span>), ParseFailure>(
                                (d + 1, value_spans),
                            )
                        } else {
                            elements_spec(b, p, path, index) == Err::<(int, Seq<Span>), ParseFailure>(
                                (expected_message(0x5d, d), d),
                            )
                        }
                    },
                }
            }
        }),
{
    reveal(elements_spec);
}

/// An object at `pos`: `{` and then its members.
pub open spec fn object_spec(b: Seq<u8>, pos: int, path: Seq<SegmentView>) -> Parsed {
    if 0 <= pos < b.len() && b[pos] == 0x7b {
        members_spec(b, pos + 1, path)
    } else {
        Err((expected_message(0x7b, pos), pos))
    }
}

/// An array at `pos`: `[` and then its elements.
pub open spec fn array_spec(b: Seq<u8>, pos: int, path: Seq<SegmentView>) -> Parsed {
    if 0 <= pos < b.len() && b[pos] == 0x5b {
        elements_spec(b, pos + 1, path, 0)
    } else {
        Err((expected_message(0x5b, pos), pos))
    }
}

/// What visiting one span does to the best path so far: a span that contains the cursor
/// and whose path is at least as deep as the best one replaces it.
pub open spec fn consider_step(best: Seq<SegmentView>, span: Span, cursor: int) -> Seq<SegmentView> {
    if span.start <= cursor && cursor <= span.end && span.path.len() >= best.len() {
        span.path
    } else {
        best
    }
}

/// The best path after visiting `spans` in order, starting from `best`.
pub open spec fn fold_best(best: Seq<SegmentView>, spans: Seq<Span>, cursor: int) -> Seq<SegmentView>
    decreases spans.len(),
{
    if spans.len() == 0 {
        best
    } else {
        consider_step(fold_best(best, spans.drop_last(), cursor), spans.last(), cursor)
    }
}

/// Visiting two runs of spans one after the other.
pub proof fn lemma_fold_concat(best: Seq<SegmentView>, s1: Seq<Span>, s2: Seq<Span>, cursor: int)
    ensures
        fold_best(best, s1 + s2, cursor) == fold_best(fold_best(best, s1, cursor), s2, cursor),
    decreases s2.len(),
{
    if s2.len() == 0 {
        assert(s1 + s2 =~= s1);
    } else {
        lemma_fold_concat(best, s1, s2.drop_last(), cursor);
        assert((s1 + s2).drop_last() =~= s1 + s2.drop_last());
        assert((s1 + s2).last() == s2.last());
    }
}

/// Visiting one more span.
pub broadcast proof fn lemma_fold_push(best: Seq<SegmentView>, spans: Seq<Span>, span: Span, cursor: int)
    ensures
        #[trigger] fold_best(best, spans.push(span), cursor) == consider_step(
            fold_best(best, spans, cursor),
            span,
            cursor,
        ),
{
    assert(spans.push(span).drop_last() =~= spans);
}

/// A parse after two runs of visited spans.
pub proof fn lemma_after_after(s1: Seq<Span>, s2: Seq<Span>, r: Parsed)
    ensures
        after(s1, after(s2, r)) == after(s1 + s2, r),
{
    match r {
        Ok((end, rest)) => {
            assert(s1 + (s2 + rest) =~= (s1 + s2) + rest);
        },
        Err(_) => {},
    }
}

/// The key path of a whole text at a cursor: the deepest path among the spans that
/// contain the cursor, or the error that stops the parse. Bytes after the first value
/// are not read.
pub open spec fn key_path_spec(b: Seq<u8>, cursor: int) -> Result<Seq<SegmentView>, Seq<char>> {
    match value_spec(b, 0, Seq::empty()) {
        Ok((_, spans)) => Ok(fold_best(Seq::empty(), spans, cursor)),
        Err((message, _)) => Err(message),
    }
}

} // verus!
