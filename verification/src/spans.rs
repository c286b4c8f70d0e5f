//! What the parse of a value visits: where its spans lie and what paths they carry.
use vstd::prelude::*;
use vstd::utf8::*;
use crate::grammar::{
    elements_spec, fold_best, is_number_byte, key_visit, lemma_elements_unfold, lemma_members_unfold,
    lemma_space_len, lemma_string_rest_len, literal_token, members_spec, number_len, skip_space,
    string_token, value_spec, Span,
};
use crate::segment::SegmentView;
use crate::text::{lemma_encode_push, lemma_encode_scalar};

verus! {

/// `path` starts with `prefix`.
pub open spec fn extends(path: Seq<SegmentView>, prefix: Seq<SegmentView>) -> bool {
    prefix.len() <= path.len() && path.subrange(0, prefix.len() as int) == prefix
}

/// Every span lies within `lo..hi` and its path starts with `path`.
pub open spec fn spans_inside(spans: Seq<Span>, lo: int, hi: int, path: Seq<SegmentView>) -> bool {
    forall|i: int|
        #![trigger spans[i]]
        0 <= i < spans.len() ==> lo <= spans[i].start && spans[i].start <= spans[i].end
            && spans[i].end <= hi && extends(spans[i].path, path)
}

proof fn lemma_number_len(b: Seq<u8>, pos: int)
    requires
        0 <= pos <= b.len(),
    ensures
        pos + number_len(b, pos) <= b.len(),
    decreases b.len() - pos,
{
    if pos < b.len() && is_number_byte(b[pos]) {
        lemma_number_len(b, pos + 1);
    }
}

proof fn lemma_encode_nonempty(a: Seq<char>)
    requires
        a.len() > 0,
    ensures
        encode_utf8(a).len() >= 1,
{
    lemma_encode_push(a.drop_last(), a.last());
    assert(a.drop_last().push(a.last()) =~= a);
    lemma_encode_scalar(a.last());
}

proof fn lemma_literal_span(b: Seq<u8>, s: int, literal: Seq<char>)
    requires
        literal.len() > 0,
    ensures
        literal_token(b, s, literal) matches Ok(end) ==> s < end <= b.len(),
{
    lemma_encode_nonempty(literal);
}

proof fn lemma_inside_shift(spans: Seq<Span>, lo: int, hi: int, path: Seq<SegmentView>, lo2: int, hi2: int, path2: Seq<SegmentView>)
    requires
        spans_inside(spans, lo, hi, path),
        lo2 <= lo,
        hi <= hi2,
        extends(path, path2),
    ensures
        spans_inside(spans, lo2, hi2, path2),
{
    assert forall|i: int| 0 <= i < spans.len() implies #[trigger] extends(spans[i].path, path2) by {
        let q = spans[i].path;
        assert(q.subrange(0, path.len() as int).subrange(0, path2.len() as int) =~= q.subrange(
            0,
            path2.len() as int,
        ));
    }
}

proof fn lemma_inside_concat(s1: Seq<Span>, s2: Seq<Span>, lo: int, hi: int, path: Seq<SegmentView>)
    requires
        spans_inside(s1, lo, hi, path),
        spans_inside(s2, lo, hi, path),
    ensures
        spans_inside(s1 + s2, lo, hi, path),
{
    assert forall|i: int| 0 <= i < (s1 + s2).len() implies #[trigger] (s1 + s2)[i] == (if i < s1.len() {
        s1[i]
    } else {
        s2[i - s1.len()]
    }) by {}
}

/// A value read at `pos` starts after the whitespace there and ends after it, within the
/// text; its own span is the last one visited, and every span visited lies within it with
/// a path that starts with the value's path.
pub proof fn lemma_value_spans(b: Seq<u8>, pos: int, path: Seq<SegmentView>)
    requires
        0 <= pos <= b.len(),
    ensures
        value_spec(b, pos, path) matches Ok((end, spans)) ==> {
            let s = skip_space(b, pos);
            &&& s < end <= b.len()
            &&& spans.len() > 0
            &&& spans.last() == (Span { start: s, end, path })
            &&& spans_inside(spans, s, end, path)
        },
    decreases b.len() - pos, 0int,
{
    lemma_space_len(b, pos);
    let s = skip_space(b, pos);
    if s < b.len() {
        let c = b[s];
        if c == 0x7b {
            lemma_members_spans(b, s + 1, path);
        } else if c == 0x5b {
            lemma_elements_spans(b, s + 1, path, 0);
        } else if c == 0x22 {
            lemma_string_rest_len(b, s + 1);
        } else if c == 0x2d || (0x30 <= c <= 0x39) {
            lemma_number_len(b, s);
        } else if c == 0x74 {
            reveal_strlit("true");
            lemma_literal_span(b, s, "true"@);
        } else if c == 0x66 {
            reveal_strlit("false");
            lemma_literal_span(b, s, "false"@);
        } else if c == 0x6e {
            reveal_strlit("null");
            lemma_literal_span(b, s, "null"@);
        }
        assert(path.subrange(0, path.len() as int) =~= path);
        if let Ok((end, spans)) = value_spec(b, pos, path) {
            let inner = spans.drop_last();
            assert(spans_inside(inner, s, end, path)) by {
                if c == 0x7b {
                    let (_, sp) = members_spec(b, s + 1, path)->Ok_0;
                    assert(inner =~= sp);
                    lemma_inside_shift(inner, s + 1, end, path, s, end, path);
                } else if c == 0x5b {
                    let (_, sp) = elements_spec(b, s + 1, path, 0)->Ok_0;
                    assert(inner =~= sp);
                    lemma_inside_shift(inner, s + 1, end, path, s, end, path);
                } else {
                    assert(inner.len() == 0);
                }
            }
            assert(path.subrange(0, path.len() as int) =~= path);
            assert(spans_inside(seq![spans.last()], s, end, path));
            assert(inner + seq![spans.last()] =~= spans);
            lemma_inside_concat(inner, seq![spans.last()], s, end, path);
        }
    }
}

/// The members of an object read from `p` end after `p`, within the text, and every span
/// visited lies within them with a path that starts with the object's path.
pub proof fn lemma_members_spans(b: Seq<u8>, p: int, path: Seq<SegmentView>)
    requires
        0 <= p <= b.len(),
    ensures
        members_spec(b, p, path) matches Ok((end, spans)) ==> p < end <= b.len() && spans_inside(
            spans,
            p,
            end,
            path,
        ),
    decreases b.len() - p, 1int,
{
    lemma_members_unfold(b, p, path);
    lemma_space_len(b, p);
    assert(path.subrange(0, path.len() as int) =~= path);
    let q = skip_space(b, p);
    if !(q < b.len() && b[q] == 0x7d) {
        if let Ok((key_end, key)) = string_token(b, q) {
            lemma_string_rest_len(b, q + 1);
            lemma_space_len(b, key_end);
            let key_path = path.push(SegmentView::Key(key));
            let c = skip_space(b, key_end);
            if c < b.len() && b[c] == 0x3a {
                lemma_value_spans(b, c + 1, key_path);
                if let Ok((value_end, value_spans)) = value_spec(b, c + 1, key_path) {
                    if p <= value_end <= b.len() {
                        lemma_space_len(b, value_end);
                        let d = skip_space(b, value_end);
                        let key_span = key_visit(b, q, path);
                        let visited = seq![key_span] + value_spans;
                        assert(key_path.subrange(0, path.len() as int) =~= path);
                        assert(key_span.path.subrange(0, path.len() as int) =~= path);
                        if d < b.len() && b[d] == 0x2c {
                            lemma_members_spans(b, d + 1, path);
                        }
                        if let Ok((end, spans)) = members_spec(b, p, path) {
                            assert(value_end <= end);
                            assert(spans_inside(seq![key_span], p, end, path)) by {
                                assert(seq![key_span][0] == key_span);
                            }
                            lemma_inside_shift(value_spans, c + 1, value_end, key_path, p, end, path);
                            lemma_inside_concat(seq![key_span], value_spans, p, end, path);
                            if d < b.len() && b[d] == 0x2c {
                                let (e2, rest) = members_spec(b, d + 1, path)->Ok_0;
                                assert(spans == visited + rest);
                                lemma_inside_shift(rest, d + 1, end, path, p, end, path);
                                lemma_inside_concat(visited, rest, p, end, path);
                            }
                        }
                    }
                }
            }
        }
    }
}

/// The elements of an array read from `p` end after `p`, within the text, and every span
/// visited lies within them with a path that starts with the array's path.
pub proof fn lemma_elements_spans(b: Seq<u8>, p: int, path: Seq<SegmentView>, index: int)
    requires
        0 <= p <= b.len(),
    ensures
        elements_spec(b, p, path, index) matches Ok((end, spans)) ==> p < end <= b.len()
            && spans_inside(spans, p, end, path),
    decreases b.len() - p, 1int,
{
    lemma_elements_unfold(b, p, path, index);
    lemma_space_len(b, p);
    assert(path.subrange(0, path.len() as int) =~= path);
    let q = skip_space(b, p);
    if !(q < b.len() && b[q] == 0x5d) {
        let item_path = path.push(SegmentView::Index(index as nat));
        lemma_value_spans(b, q, item_path);
        if let Ok((value_end, value_spans)) = value_spec(b, q, item_path) {
            if p <= value_end <= b.len() {
                lemma_space_len(b, value_end);
                let d = skip_space(b, value_end);
                assert(item_path.subrange(0, path.len() as int) =~= path);
                if d < b.len() && b[d] == 0x2c {
                    lemma_elements_spans(b, d + 1, path, index + 1);
                }
                if let Ok((end, spans)) = elements_spec(b, p, path, index) {
                    lemma_inside_shift(value_spans, skip_space(b, q), value_end, item_path, p, end, path);
                    if d < b.len() && b[d] == 0x2c {
                        let (e2, rest) = elements_spec(b, d + 1, path, index + 1)->Ok_0;
                        assert(spans == value_spans + rest);
                        lemma_inside_shift(rest, d + 1, end, path, p, end, path);
                        lemma_inside_concat(value_spans, rest, p, end, path);
                    }
                }
            }
        }
    }
}

/// Visiting spans never makes the best path shorter.
pub proof fn lemma_fold_keeps_depth(best: Seq<SegmentView>, spans: Seq<Span>, cursor: int)
    ensures
        fold_best(best, spans, cursor).len() >= best.len(),
    decreases spans.len(),
{
    if spans.len() > 0 {
        lemma_fold_keeps_depth(best, spans.drop_last(), cursor);
    }
}

} // verus!
