//! The cursor parser: it walks the JSON text once and keeps the deepest path whose span
//! contains the cursor.
use vstd::prelude::*;
use vstd::string::*;
use vstd::utf8::*;
use crate::grammar::{
    after, array_spec, consider_step, elements_spec, end_message, expected_message, fold_best,
    key_path_spec, key_visit, lemma_after_after, lemma_elements_unfold, lemma_members_unfold, lemma_fold_concat, lemma_fold_push, literal_message,
    literal_token, members_spec, number_len, object_spec, skip_space, string_error_message,
    string_rest_len, string_token, unexpected_message, unterminated_message, value_spec, Span,
};
use crate::json_text::{decode_json_string, json_string_literal};
use crate::segment::{copy_path, path_view, PathSegment, SegmentView};
use crate::text::{lemma_after_ascii, push_char, push_decimal, push_str};

verus! {

broadcast use vstd::utf8::group_utf8_lib, lemma_fold_push;

/// The error "expected `c` at n".
fn expected_error(byte: u8, pos: usize) -> (e: String)
    ensures
        e@ == expected_message(byte, pos as int),
{
    let mut e = String::new();
    push_str(&mut e, "expected `");
    push_char(&mut e, byte as char);
    push_str(&mut e, "` at ");
    push_decimal(&mut e, pos);
    assert(e@ =~= expected_message(byte, pos as int));
    e
}

/// The error "unexpected byte `c` at n".
fn unexpected_error(byte: u8, pos: usize) -> (e: String)
    ensures
        e@ == unexpected_message(byte, pos as int),
{
    let mut e = String::new();
    push_str(&mut e, "unexpected byte `");
    push_char(&mut e, byte as char);
    push_str(&mut e, "` at ");
    push_decimal(&mut e, pos);
    assert(e@ =~= unexpected_message(byte, pos as int));
    e
}

/// Walks a JSON text from its first byte, keeping the deepest path whose span holds the
/// cursor offset.
pub struct CursorPathParser<'a> {
    source: &'a str,
    bytes: &'a [u8],
    offset: usize,
    position: usize,
    best_path: Vec<PathSegment>,
}

impl<'a> CursorPathParser<'a> {
    /// The UTF-8 bytes of the text.
    pub closed spec fn text(&self) -> Seq<u8> {
        self.bytes@
    }

    /// The position of the next byte to read.
    pub closed spec fn pos(&self) -> int {
        self.position as int
    }

    /// The cursor, as a byte offset into the text.
    pub closed spec fn cursor(&self) -> int {
        self.offset as int
    }

    /// The best path so far.
    pub closed spec fn best(&self) -> Seq<SegmentView> {
        path_view(self.best_path@)
    }

    /// The bytes are those of the source, and the position lies within them.
    pub closed spec fn wf(&self) -> bool {
        &&& self.bytes@ == self.source.spec_bytes()
        &&& self.position <= self.bytes@.len()
    }

    /// `self` reads the same text with the same cursor as `other`.
    pub open spec fn same_input(&self, other: &Self) -> bool {
        &&& self.wf()
        &&& self.text() == other.text()
        &&& self.cursor() == other.cursor()
    }

    /// A parser at the start of `source`, with the empty path as the best one so far.
    pub fn new(source: &'a str, offset: usize) -> (parser: Self)
        ensures
            parser.wf(),
            parser.text() == source.spec_bytes(),
            parser.pos() == 0,
            parser.cursor() == offset,
            parser.best() == Seq::<SegmentView>::empty(),
    {
        let parser = CursorPathParser {
            source,
            bytes: source.as_bytes(),
            offset,
            position: 0,
            best_path: Vec::new(),
        };
        assert(parser.best() =~= Seq::<SegmentView>::empty());
        parser
    }

    /// A well-formed parser stands within its text.
    pub proof fn lemma_pos_in_text(&self)
        requires
            self.wf(),
        ensures
            0 <= self.pos() <= self.text().len(),
    {
    }

    /// The position of the next byte to read.
    pub fn position(&self) -> (pos: usize)
        ensures
            pos == self.pos(),
    {
        self.position
    }

    /// The best path found so far.
    pub fn best_path(self) -> (path: Vec<PathSegment>)
        ensures
            path_view(path@) == self.best(),
    {
        self.best_path
    }

    /// The byte at the position, if any.
    pub fn current_byte(&self) -> (byte: Option<u8>)
        ensures
            byte == (if self.pos() < self.text().len() {
                Some(self.text()[self.pos()])
            } else {
                None
            }),
    {
        if self.position < self.bytes.len() {
            Some(self.bytes[self.position])
        } else {
            None
        }
    }

    /// Steps over `byte` when it is the byte at the position.
    pub fn consume_byte(&mut self, byte: u8) -> (consumed: bool)
        requires
            old(self).wf(),
        ensures
            final(self).same_input(old(self)),
            final(self).best() == old(self).best(),
            consumed == (old(self).pos() < old(self).text().len() && old(self).text()[old(self).pos()]
                == byte),
            final(self).pos() == old(self).pos() + if consumed { 1int } else { 0int },
    {
        if self.position < self.bytes.len() && self.bytes[self.position] == byte {
            self.position = self.position + 1;
            true
        } else {
            false
        }
    }

    /// Steps over `byte`, or fails with "expected `byte` at position".
    pub fn expect_byte(&mut self, byte: u8) -> (res: Result<(), String>)
        requires
            old(self).wf(),
        ensures
            final(self).same_input(old(self)),
            final(self).best() == old(self).best(),
            (if old(self).pos() < old(self).text().len() && old(self).text()[old(self).pos()] == byte {
                res is Ok && final(self).pos() == old(self).pos() + 1
            } else {
                res matches Err(e) && e@ == expected_message(byte, old(self).pos())
                    && final(self).pos() == old(self).pos()
            }),
    {
        if self.consume_byte(byte) {
            Ok(())
        } else {
            Err(expected_error(byte, self.position))
        }
    }

    /// Steps over whitespace.
    pub fn skip_whitespace(&mut self)
        requires
            old(self).wf(),
        ensures
            final(self).same_input(old(self)),
            final(self).best() == old(self).best(),
            final(self).pos() == skip_space(old(self).text(), old(self).pos()),
            old(self).pos() <= final(self).pos() <= final(self).text().len(),
    {
        let ghost start = self.pos();
        while self.position < self.bytes.len() && (self.bytes[self.position] == 0x20u8
            || self.bytes[self.position] == 0x0au8 || self.bytes[self.position] == 0x0du8
            || self.bytes[self.position] == 0x09u8)
            invariant
                self.same_input(old(self)),
                self.best() == old(self).best(),
                start == old(self).pos(),
                start <= self.pos(),
                skip_space(self.text(), start) == skip_space(self.text(), self.pos()),
            decreases self.text().len() - self.pos(),
        {
            self.position = self.position + 1;
        }
    }

    /// Steps over the number bytes at the position and returns the position after them.
    pub fn parse_number(&mut self) -> (end: usize)
        requires
            old(self).wf(),
        ensures
            final(self).same_input(old(self)),
            final(self).best() == old(self).best(),
            final(self).pos() == old(self).pos() + number_len(old(self).text(), old(self).pos()),
            end == final(self).pos(),
    {
        let ghost start = self.pos();
        while self.position < self.bytes.len() && (self.bytes[self.position] == 0x2du8
            || self.bytes[self.position] == 0x2bu8 || self.bytes[self.position] == 0x2eu8
            || (0x30u8 <= self.bytes[self.position] && self.bytes[self.position] <= 0x39u8)
            || self.bytes[self.position] == 0x65u8 || self.bytes[self.position] == 0x45u8)
            invariant
                self.same_input(old(self)),
                self.best() == old(self).best(),
                start == old(self).pos(),
                start <= self.pos(),
                start + number_len(self.text(), start) == self.pos() + number_len(
                    self.text(),
                    self.pos(),
                ),
            decreases self.text().len() - self.pos(),
        {
            self.position = self.position + 1;
        }
        self.position
    }

    /// Steps over the word `literal` at the position, or fails with "expected `literal` at
    /// position". The position must be a character boundary.
    pub fn parse_literal(&mut self, literal: &str) -> (res: Result<usize, String>)
        requires
            old(self).wf(),
            is_char_boundary(old(self).text(), old(self).pos()),
        ensures
            final(self).same_input(old(self)),
            final(self).best() == old(self).best(),
            (match literal_token(old(self).text(), old(self).pos(), literal@) {
                Ok(end) => res == Ok::<usize, String>(end as usize) && final(self).pos() == end,
                Err((message, at)) => res matches Err(e) && e@ == message && final(self).pos() == at,
            }),
    {
        let word = literal.as_bytes();
        let n = word.len();
        let mut same = n <= self.bytes.len() - self.position;
        if same {
            let mut i: usize = 0;
            while i < n
                invariant
                    self.wf(),
                    word@ == literal.spec_bytes(),
                    n == word@.len(),
                    self.position + n <= self.bytes.len(),
                    i <= n,
                    same == (forall|j: int| 0 <= j < i ==> self.bytes@[self.position + j] == word@[j]),
                decreases n - i,
            {
                if self.bytes[self.position + i] != word[i] {
                    same = false;
                }
                i = i + 1;
            }
            if same {
                assert(self.bytes@.subrange(self.pos(), self.pos() + n) =~= word@);
            } else {
                assert(self.bytes@.subrange(self.pos(), self.pos() + n) != word@) by {
                    let j = choose|j: int| 0 <= j < n && self.bytes@[self.position + j] != word@[j];
                    assert(self.bytes@.subrange(self.pos(), self.pos() + n)[j] != word@[j]);
                }
            }
        }
        if same {
            self.position = self.position + n;
            Ok(self.position)
        } else {
            let mut e = String::new();
            push_str(&mut e, "expected `");
            push_str(&mut e, literal);
            push_str(&mut e, "` at ");
            push_decimal(&mut e, self.position);
            assert(e@ =~= literal_message(literal@, self.pos()));
            Err(e)
        }
    }

    /// Takes `path` as the best path when the span `start..end` contains the cursor and
    /// `path` is at least as deep as the best path so far.
    pub fn consider(&mut self, start: usize, end: usize, path: &[PathSegment])
        requires
            old(self).wf(),
        ensures
            final(self).same_input(old(self)),
            final(self).pos() == old(self).pos(),
            final(self).best() == consider_step(
                old(self).best(),
                Span { start: start as int, end: end as int, path: path_view(path@) },
                old(self).cursor(),
            ),
    {
        if start <= self.offset && self.offset <= end && path.len() >= self.best_path.len() {
            self.best_path = copy_path(path);
        }
    }

    /// Reads the string literal at the position and decodes it with serde_json; returns the
    /// decoded string and the literal's span.
    pub fn parse_string(&mut self) -> (res: Result<(String, (usize, usize)), String>)
        requires
            old(self).wf(),
        ensures
            final(self).same_input(old(self)),
            final(self).best() == old(self).best(),
            old(self).pos() <= final(self).pos(),
            (match string_token(old(self).text(), old(self).pos()) {
                Ok((end, value)) => res matches Ok((decoded, span)) && decoded@ == value && span.0
                    == old(self).pos() && span.1 == end && final(self).pos() == end,
                Err((message, at)) => res matches Err(e) && e@ == message && final(self).pos() == at,
            }),
    {
        let start = self.position;
        match self.expect_byte(0x22u8) {
            Ok(()) => {},
            Err(e) => return Err(e),
        }
        loop
            invariant
                self.same_input(old(self)),
                self.best() == old(self).best(),
                start == old(self).pos(),
                start < self.pos(),
                start < self.text().len() && self.text()[start as int] == 0x22,
                string_rest_len(self.text(), start + 1) == (match string_rest_len(
                    self.text(),
                    self.pos(),
                ) {
                    Some(n) => Some((n + (self.pos() - start - 1)) as nat),
                    None => None::<nat>,
                }),
            decreases self.text().len() - self.pos(),
        {
            if self.position >= self.bytes.len() {
                let mut e = String::new();
                push_str(&mut e, "unterminated JSON string");
                assert(e@ =~= unterminated_message());
                return Err(e);
            }
            let byte = self.bytes[self.position];
            self.position = self.position + 1;
            if byte == 0x5cu8 {
                if self.position < self.bytes.len() {
                    self.position = self.position + 1;
                }
            } else if byte == 0x22u8 {
                let end = self.position;
                proof {
                    let b = self.text();
                    assert(b == encode_utf8(self.source@));
                    assert(valid_utf8(b));
                    if end < b.len() {
                        lemma_after_ascii(self.source@, end - 1);
                        assert(!is_continuation_byte(b[end as int]));
                        is_char_boundary_iff_not_is_continuation_byte(b, end as int);
                    } else {
                        is_char_boundary_start_end_of_seq(b);
                    }
                }
                let (head, _tail) = self.source.split_at(end);
                proof {
                    let hb = head.spec_bytes();
                    assert(hb =~= self.text().subrange(0, end as int));
                    assert(hb[start as int] == 0x22);
                    assert(is_leading_byte_width_1(hb[start as int]));
                    is_char_boundary_iff_is_leading_byte(hb, start as int);
                }
                let (_before, literal) = head.split_at(start);
                proof {
                    assert(literal.spec_bytes() =~= self.text().subrange(start as int, end as int));
                    assert(literal@ == decode_utf8(self.text().subrange(start as int, end as int)));
                }
                let decoded = decode_json_string(literal);
                match decoded {
                    Ok(value) => {
                        return Ok((value, (start, end)));
                    },
                    Err(error) => {
                        let mut e = String::new();
                        push_str(&mut e, "failed to parse JSON string: ");
                        push_str(&mut e, error.as_str());
                        assert(e@ =~= string_error_message(error@));
                        return Err(e);
                    },
                }
            }
        }
    }

    /// Reads the value that starts after whitespace at the position, visiting the spans in
    /// it with `path` as the path of the value; returns the value's span.
    pub fn parse_value(&mut self, path: &mut Vec<PathSegment>) -> (res: Result<(usize, usize), String>)
        requires
            old(self).wf(),
        ensures
            final(self).same_input(old(self)),
            old(self).pos() <= final(self).pos(),
            final(path)@.len() >= old(path)@.len(),
            final(path)@.subrange(0, old(path)@.len() as int) == old(path)@,
            res is Ok ==> final(path)@ == old(path)@,
            (match value_spec(old(self).text(), old(self).pos(), path_view(old(path)@)) {
                Ok((end, spans)) => res matches Ok((start, e)) && start == skip_space(
                    old(self).text(),
                    old(self).pos(),
                ) && e == end && final(self).pos() == end && final(self).best() == fold_best(
                    old(self).best(),
                    spans,
                    old(self).cursor(),
                ),
                Err((message, at)) => res matches Err(e) && e@ == message && final(self).pos() == at,
            }),
        decreases old(self).text().len() - old(self).pos(), 2int,
    {
        self.skip_whitespace();
        let start = self.position;
        let c = match self.current_byte() {
            Some(c) => c,
            None => {
                let mut e = String::new();
                push_str(&mut e, "unexpected end of JSON");
                assert(e@ =~= end_message());
                return Err(e);
            },
        };
        proof {
            let b = self.text();
            assert(b == encode_utf8(self.source@));
            assert(valid_utf8(b));
            if c == 0x74u8 || c == 0x66u8 || c == 0x6eu8 {
                assert(is_leading_byte_width_1(b[start as int]));
                is_char_boundary_iff_is_leading_byte(b, start as int);
            }
        }
        let inner: Result<usize, String> = if c == 0x7bu8 {
            self.parse_object(path)
        } else if c == 0x5bu8 {
            self.parse_array(path)
        } else if c == 0x22u8 {
            match self.parse_string() {
                Ok((_, span)) => Ok(span.1),
                Err(e) => Err(e),
            }
        } else if c == 0x2du8 || (0x30u8 <= c && c <= 0x39u8) {
            Ok(self.parse_number())
        } else if c == 0x74u8 {
            self.parse_literal("true")
        } else if c == 0x66u8 {
            self.parse_literal("false")
        } else if c == 0x6eu8 {
            self.parse_literal("null")
        } else {
            return Err(unexpected_error(c, start));
        };
        let end = match inner {
            Ok(end) => end,
            Err(e) => return Err(e),
        };
        self.consider(start, end, path.as_slice());
        Ok((start, end))
    }

    /// Reads the object at the position, `{` through `}`, with `path` as its path.
    #[verifier::rlimit(30)]
    pub fn parse_object(&mut self, path: &mut Vec<PathSegment>) -> (res: Result<usize, String>)
        requires
            old(self).wf(),
        ensures
            final(self).same_input(old(self)),
            old(self).pos() <= final(self).pos(),
            final(path)@.len() >= old(path)@.len(),
            final(path)@.subrange(0, old(path)@.len() as int) == old(path)@,
            res is Ok ==> final(path)@ == old(path)@,
            (match object_spec(old(self).text(), old(self).pos(), path_view(old(path)@)) {
                Ok((end, spans)) => res matches Ok(e) && e == end && final(self).pos() == end
                    && final(self).best() == fold_best(old(self).best(), spans, old(self).cursor()),
                Err((message, at)) => res matches Err(e) && e@ == message && final(self).pos() == at,
            }),
        decreases old(self).text().len() - old(self).pos(), 1int,
    {
        match self.expect_byte(0x7bu8) {
            Ok(()) => {},
            Err(e) => return Err(e),
        }
        let ghost p0 = self.pos();
        let ghost best0 = self.best();
        let ghost pv = path_view(path@);
        let ghost mut visited: Seq<Span> = Seq::empty();
        assert(visited + Seq::<Span>::empty() =~= visited);
        loop
            invariant
                self.same_input(old(self)),
                path@ == old(path)@,
                pv == path_view(old(path)@),
                best0 == old(self).best(),
                p0 == old(self).pos() + 1,
                p0 <= self.pos() <= self.text().len(),
                old(self).pos() < old(self).text().len(),
                old(self).text()[old(self).pos()] == 0x7b,
                members_spec(self.text(), p0, pv) == after(
                    visited,
                    members_spec(self.text(), self.pos(), pv),
                ),
                self.best() == fold_best(best0, visited, self.cursor()),
            decreases self.text().len() - self.pos(),
        {
            let ghost p = self.pos();
            let ghost b = self.text();
            let ghost best_before = self.best();
            proof {
                lemma_members_unfold(b, p, pv);
            }
            self.skip_whitespace();
            let ghost q = self.pos();
            if self.consume_byte(0x7du8) {
                proof {
                    lemma_fold_concat(best0, visited, Seq::empty(), self.cursor());
                    assert(visited + Seq::<Span>::empty() =~= visited);
                }
                return Ok(self.position);
            }
            let (key, key_span) = match self.parse_string() {
                Ok(x) => x,
                Err(e) => return Err(e),
            };
            let ghost key_view = key@;
            path.push(PathSegment::Key(key));
            assert(path_view(path@) =~= pv.push(SegmentView::Key(key_view)));
            self.consider(key_span.0, key_span.1, path.as_slice());
            let ghost key_visit = key_visit(b, q, pv);
            assert(key_visit == Span {
                start: key_span.0 as int,
                end: key_span.1 as int,
                path: pv.push(SegmentView::Key(key_view)),
            });
            let ghost path_with_key = path@;
            self.skip_whitespace();
            match self.expect_byte(0x3au8) {
                Ok(()) => {},
                Err(e) => {
                    assert(path@.subrange(0, old(path)@.len() as int) =~= old(path)@);
                    return Err(e);
                },
            }
            let ghost value_start = self.pos();
            let ghost best_mid = self.best();
            match self.parse_value(path) {
                Ok(_) => {},
                Err(e) => {
                    assert(path@.subrange(0, path_with_key.len() as int) == path_with_key);
                    assert(path@.subrange(0, old(path)@.len() as int) =~= path_with_key.subrange(
                        0,
                        old(path)@.len() as int,
                    ));
                    assert(path_with_key.subrange(0, old(path)@.len() as int) =~= old(path)@);
                    return Err(e);
                },
            }
            let _ = path.pop();
            assert(path@ =~= old(path)@);
            let ghost value_spans = value_spec(b, value_start, key_visit.path)->Ok_0.1;
            proof {
                lemma_fold_concat(best0, visited, seq![key_visit], self.cursor());
                lemma_fold_concat(best0, visited + seq![key_visit], value_spans, self.cursor());
                assert(fold_best(best_before, seq![key_visit], self.cursor()) == consider_step(
                    fold_best(best_before, Seq::empty(), self.cursor()),
                    key_visit,
                    self.cursor(),
                )) by {
                    assert(seq![key_visit] =~= Seq::<Span>::empty().push(key_visit));
                }
            }
            self.skip_whitespace();
            if self.consume_byte(0x2cu8) {
                proof {
                    let visit = seq![key_visit] + value_spans;
                    lemma_after_after(visited, visit, members_spec(b, self.pos(), pv));
                    assert(visited + seq![key_visit] + value_spans =~= visited + visit);
                    visited = visited + visit;
                }
                continue;
            }
            match self.expect_byte(0x7du8) {
                Ok(()) => {},
                Err(e) => return Err(e),
            }
            proof {
                assert(visited + seq![key_visit] + value_spans =~= visited + (seq![key_visit]
                    + value_spans));
            }
            return Ok(self.position);
        }
    }

    /// Reads the array at the position, `[` through `]`, with `path` as its path; element
    /// `i` has the path `path` and then index `i`.
    pub fn parse_array(&mut self, path: &mut Vec<PathSegment>) -> (res: Result<usize, String>)
        requires
            old(self).wf(),
        ensures
            final(self).same_input(old(self)),
            old(self).pos() <= final(self).pos(),
            final(path)@.len() >= old(path)@.len(),
            final(path)@.subrange(0, old(path)@.len() as int) == old(path)@,
            res is Ok ==> final(path)@ == old(path)@,
            (match array_spec(old(self).text(), old(self).pos(), path_view(old(path)@)) {
                Ok((end, spans)) => res matches Ok(e) && e == end && final(self).pos() == end
                    && final(self).best() == fold_best(old(self).best(), spans, old(self).cursor()),
                Err((message, at)) => res matches Err(e) && e@ == message && final(self).pos() == at,
            }),
        decreases old(self).text().len() - old(self).pos(), 1int,
    {
        match self.expect_byte(0x5bu8) {
            Ok(()) => {},
            Err(e) => return Err(e),
        }
        let mut index: usize = 0;
        let ghost p0 = self.pos();
        let ghost best0 = self.best();
        let ghost pv = path_view(path@);
        let ghost mut visited: Seq<Span> = Seq::empty();
        assert(visited + Seq::<Span>::empty() =~= visited);
        loop
            invariant
                self.same_input(old(self)),
                path@ == old(path)@,
                pv == path_view(old(path)@),
                best0 == old(self).best(),
                p0 == old(self).pos() + 1,
                p0 <= self.pos() <= self.text().len(),
                old(self).pos() < old(self).text().len(),
                old(self).text()[old(self).pos()] == 0x5b,
                index <= self.pos(),
                elements_spec(self.text(), p0, pv, 0) == after(
                    visited,
                    elements_spec(self.text(), self.pos(), pv, index as int),
                ),
                self.best() == fold_best(best0, visited, self.cursor()),
            decreases self.text().len() - self.pos(),
        {
            let ghost p = self.pos();
            let ghost b = self.text();
            proof {
                lemma_elements_unfold(b, p, pv, index as int);
            }
            self.skip_whitespace();
            if self.consume_byte(0x5du8) {
                proof {
                    assert(visited + Seq::<Span>::empty() =~= visited);
                }
                return Ok(self.position);
            }
            path.push(PathSegment::Index(index));
            let ghost element_path = pv.push(SegmentView::Index(index as nat));
            assert(path_view(path@) =~= element_path);
            let ghost path_with_index = path@;
            let ghost value_start = self.pos();
            match self.parse_value(path) {
                Ok(_) => {},
                Err(e) => {
                    assert(path@.subrange(0, path_with_index.len() as int) == path_with_index);
                    assert(path@.subrange(0, old(path)@.len() as int) =~= path_with_index.subrange(
                        0,
                        old(path)@.len() as int,
                    ));
                    assert(path_with_index.subrange(0, old(path)@.len() as int) =~= old(path)@);
                    return Err(e);
                },
            }
            let _ = path.pop();
            assert(path@ =~= old(path)@);
            let ghost value_spans = value_spec(b, value_start, element_path)->Ok_0.1;
            proof {
                lemma_fold_concat(best0, visited, value_spans, self.cursor());
            }
            self.skip_whitespace();
            if self.consume_byte(0x2cu8) {
                proof {
                    lemma_after_after(
                        visited,
                        value_spans,
                        elements_spec(b, self.pos(), pv, index + 1),
                    );
                    visited = visited + value_spans;
                }
                index = index + 1;
                continue;
            }
            match self.expect_byte(0x5du8) {
                Ok(()) => {},
                Err(e) => return Err(e),
            }
            return Ok(self.position);
        }
    }
}

/// The path to the deepest value, key or element whose span holds the byte `offset`:
/// among equally deep ones, the last that the parse visits. The parse reads the first value
/// of `source`; an error stops it.
pub fn json_key_path_at_offset(source: &str, offset: usize) -> (res: Result<Vec<PathSegment>, String>)
    ensures
        (match key_path_spec(source.spec_bytes(), offset as int) {
            Ok(path) => res matches Ok(found) && path_view(found@) == path,
            Err(message) => res matches Err(e) && e@ == message,
        }),
{
    let mut parser = CursorPathParser::new(source, offset);
    let mut root_path: Vec<PathSegment> = Vec::new();
    assert(path_view(root_path@) =~= Seq::<SegmentView>::empty());
    match parser.parse_value(&mut root_path) {
        Ok(_) => Ok(parser.best_path()),
        Err(e) => Err(e),
    }
}


} // verus!
