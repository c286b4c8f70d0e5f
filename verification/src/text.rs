//! Building strings, and what the UTF-8 bytes of a string say about its characters.
use vstd::prelude::*;
use vstd::string::*;
use vstd::utf8::*;

verus! {

broadcast use vstd::utf8::group_utf8_lib;

/// The ASCII digit for `d`, which is below ten.
pub open spec fn digit_char(d: int) -> char {
    (d + 48) as char
}

/// The decimal representation of `n`, most significant digit first.
pub open spec fn decimal(n: nat) -> Seq<char>
    decreases n,
{
    if n < 10 {
        seq![digit_char(n as int)]
    } else {
        decimal(n / 10).push(digit_char((n % 10) as int))
    }
}

/// Appends one character to a string (`String::push`).
#[verifier::external_body]
pub(crate) fn push_char(s: &mut String, c: char)
    ensures
        final(s)@ == old(s)@.push(c),
{
    s.push(c);
}

/// Appends the decimal representation of `n` to `s`.
pub fn push_decimal(s: &mut String, n: usize)
    ensures
        final(s)@ == old(s)@ + decimal(n as nat),
    decreases n,
{
    if n >= 10 {
        push_decimal(s, n / 10);
    }
    let d: u8 = (n % 10) as u8;
    let c: char = (d + 48u8) as char;
    push_char(s, c);
}

/// Appends `t` to `s`.
pub fn push_str(s: &mut String, t: &str)
    ensures
        final(s)@ == old(s)@ + t@,
{
    s.append(t);
}

/// The UTF-8 encoding of a concatenation is the concatenation of the encodings.
pub proof fn lemma_encode_concat(a: Seq<char>, c: Seq<char>)
    ensures
        encode_utf8(a + c) == encode_utf8(a) + encode_utf8(c),
    decreases a.len(),
{
    if a.len() == 0 {
        assert(a + c =~= c);
        assert(encode_utf8(a) + encode_utf8(c) =~= encode_utf8(c));
    } else {
        lemma_encode_concat(a.drop_first(), c);
        assert((a + c).drop_first() =~= a.drop_first() + c);
        assert((a + c)[0] == a[0]);
        assert(encode_utf8(a + c) =~= encode_scalar(a[0] as u32) + encode_utf8(a.drop_first() + c));
        assert(encode_utf8(a + c) =~= encode_utf8(a) + encode_utf8(c));
    }
}

/// Encoding the characters with one more at the end.
pub proof fn lemma_encode_push(a: Seq<char>, c: char)
    ensures
        encode_utf8(a.push(c)) == encode_utf8(a) + encode_scalar(c as u32),
{
    lemma_encode_concat(a, seq![c]);
    assert(a.push(c) =~= a + seq![c]);
    assert(seq![c].drop_first() =~= Seq::<char>::empty());
    assert(encode_utf8(seq![c]) =~= encode_scalar(c as u32) + encode_utf8(Seq::<char>::empty()));
    assert(encode_utf8(seq![c]) =~= encode_scalar(c as u32));
}

/// The encoding of an ASCII character is that one byte; every byte of the encoding
/// of any other character is at least 0x80, and its first byte is no continuation byte.
pub proof fn lemma_encode_scalar(c: char)
    ensures
        encode_scalar(c as u32).len() >= 1,
        !is_continuation_byte(encode_scalar(c as u32)[0]),
        (c as u32) < 0x80 ==> encode_scalar(c as u32) == seq![c as u32 as u8],
        (c as u32) >= 0x80 ==> forall|i: int|
            0 <= i < encode_scalar(c as u32).len() ==> #[trigger] encode_scalar(c as u32)[i] >= 0x80,
{
    let v = c as u32;
    assert(is_scalar(v));
    if has_width_1_encoding(v) {
        assert(leading_byte_width_1(v) == v as u8) by (bit_vector)
            requires
                v <= 0x7f,
        ;
        assert(encode_scalar(v) =~= seq![v as u8]);
    } else if has_width_2_encoding(v) {
        assert(0xC0 <= (0xC0 | ((v >> 6) & 0x1F) as u8) && 0x80 <= (0x80 | (v & 0x3F) as u8)) by (bit_vector);
    } else if has_width_3_encoding(v) {
        assert(0xE0 <= (0xE0 | ((v >> 12) & 0x0F) as u8) && 0x80 <= (0x80 | (v & 0x3F) as u8)
            && 0x80 <= (0x80 | ((v >> 6) & 0x3F) as u8)) by (bit_vector);
    } else {
        assert(0xF0 <= (0xF0 | ((v >> 18) & 0x7) as u8) && 0x80 <= (0x80 | (v & 0x3F) as u8)
            && 0x80 <= (0x80 | ((v >> 6) & 0x3F) as u8) && 0x80 <= (0x80 | ((v >> 12)
            & 0x3F) as u8)) by (bit_vector);
    }
}

/// An ASCII byte occurs in the encoding exactly where its character occurs in the text.
pub proof fn lemma_ascii_byte_occurs(a: Seq<char>, x: u8)
    requires
        x < 0x80,
    ensures
        encode_utf8(a).contains(x) <==> a.contains(x as char),
    decreases a.len(),
{
    if a.len() == 0 {
    } else {
        let e = encode_scalar(a[0] as u32);
        let rest = a.drop_first();
        lemma_ascii_byte_occurs(rest, x);
        lemma_encode_scalar(a[0]);
        assert(encode_utf8(a) =~= e + encode_utf8(rest));
        if a.contains(x as char) {
            let k = choose|k: int| 0 <= k < a.len() && a[k] == x as char;
            if k == 0 {
                assert((x as char) as u32 == x as u32);
                assert(encode_utf8(a)[0] == x);
            } else {
                assert(rest[k - 1] == x as char);
                let j = choose|j: int| 0 <= j < encode_utf8(rest).len() && encode_utf8(rest)[j] == x;
                assert(encode_utf8(a)[e.len() + j] == x);
            }
        }
        if encode_utf8(a).contains(x) {
            let j = choose|j: int| 0 <= j < encode_utf8(a).len() && encode_utf8(a)[j] == x;
            if j < e.len() {
                let v = a[0] as u32;
                assert(v < 0x80);
                assert(e == seq![v as u8]);
                assert(v as u8 == x);
                assert(v == x as u32);
                char_u32_cast(a[0], v);
                assert((v as char) == a[0]);
                assert(a[0] == x as char);
            } else {
                assert(encode_utf8(rest)[j - e.len()] == x);
                let k = choose|k: int| 0 <= k < rest.len() && rest[k] == x as char;
                assert(a[k + 1] == x as char);
            }
        }
    }
}

/// When the encoding ends with an ASCII byte, the text ends with that character.
pub proof fn lemma_ascii_last(a: Seq<char>)
    requires
        encode_utf8(a).len() > 0,
        encode_utf8(a).last() < 0x80,
    ensures
        a.len() > 0,
        a.last() as u32 == encode_utf8(a).last() as u32,
{
    if a.len() == 0 {
        assert(encode_utf8(a).len() == 0);
    }
    let init = a.drop_last();
    assert(init.push(a.last()) =~= a);
    lemma_encode_push(init, a.last());
    lemma_encode_scalar(a.last());
    let e = encode_scalar(a.last() as u32);
    assert(encode_utf8(a).last() == e[e.len() - 1]);
}

/// Within valid UTF-8 text, the byte after an ASCII byte starts a character.
pub proof fn lemma_after_ascii(a: Seq<char>, i: int)
    requires
        0 <= i,
        i + 1 < encode_utf8(a).len(),
        encode_utf8(a)[i] < 0x80,
    ensures
        !is_continuation_byte(encode_utf8(a)[i + 1]),
    decreases a.len(),
{
    if a.len() == 0 {
    } else {
        let e = encode_scalar(a[0] as u32);
        let rest = a.drop_first();
        lemma_encode_scalar(a[0]);
        assert(encode_utf8(a) =~= e + encode_utf8(rest));
        if i + 1 < e.len() {
            assert(e[i] < 0x80);
        } else if i + 1 == e.len() {
            if rest.len() == 0 {
                assert(encode_utf8(rest).len() == 0);
            }
            lemma_encode_scalar(rest[0]);
            assert(encode_utf8(rest) =~= encode_scalar(rest[0] as u32) + encode_utf8(rest.drop_first()));
            assert(encode_utf8(a)[i + 1] == encode_utf8(rest)[0]);
        } else {
            assert(encode_utf8(a)[i] == encode_utf8(rest)[i - e.len()]);
            lemma_after_ascii(rest, i - e.len());
        }
    }
}

/// A text of characters below 0x80 is encoded byte for byte.
pub proof fn lemma_ascii_chars(a: Seq<char>)
    requires
        forall|i: int| 0 <= i < a.len() ==> (#[trigger] a[i] as u32) < 0x80,
    ensures
        a.len() == encode_utf8(a).len(),
        forall|i: int| 0 <= i < a.len() ==> #[trigger] a[i] as u32 == encode_utf8(a)[i] as u32,
    decreases a.len(),
{
    if a.len() > 0 {
        let rest = a.drop_first();
        lemma_encode_scalar(a[0]);
        assert(encode_utf8(a) =~= encode_scalar(a[0] as u32) + encode_utf8(rest));
        assert forall|i: int| 0 <= i < rest.len() implies (#[trigger] rest[i] as u32) < 0x80 by {
            assert(rest[i] == a[i + 1]);
        }
        lemma_ascii_chars(rest);
        assert forall|i: int| 0 <= i < a.len() implies #[trigger] a[i] as u32 == encode_utf8(a)[i] as u32 by {
            if i > 0 {
                assert(a[i] == rest[i - 1]);
                assert(encode_utf8(a)[i] == encode_utf8(rest)[i - 1]);
            }
        }
    }
}

/// Splitting the bytes of a text splits its characters.
pub proof fn lemma_split_chars(whole: Seq<char>, left: Seq<char>, right: Seq<char>)
    requires
        encode_utf8(left) + encode_utf8(right) == encode_utf8(whole),
    ensures
        whole == left + right,
{
    lemma_encode_concat(left, right);
    assert(decode_utf8(encode_utf8(left + right)) == left + right);
    assert(decode_utf8(encode_utf8(whole)) == whole);
}

/// A text whose encoding is all ASCII is that many ASCII characters, byte for byte.
pub proof fn lemma_all_ascii(a: Seq<char>)
    requires
        forall|i: int| 0 <= i < encode_utf8(a).len() ==> #[trigger] encode_utf8(a)[i] < 0x80,
    ensures
        a.len() == encode_utf8(a).len(),
        forall|i: int| 0 <= i < a.len() ==> #[trigger] a[i] as u32 == encode_utf8(a)[i] as u32,
    decreases a.len(),
{
    if a.len() > 0 {
        let e = encode_scalar(a[0] as u32);
        let rest = a.drop_first();
        lemma_encode_scalar(a[0]);
        assert(encode_utf8(a) =~= e + encode_utf8(rest));
        assert(e[0] == encode_utf8(a)[0]);
        assert forall|i: int| 0 <= i < encode_utf8(rest).len() implies #[trigger] encode_utf8(rest)[i] < 0x80 by {
            assert(encode_utf8(a)[e.len() + i] == encode_utf8(rest)[i]);
        }
        lemma_all_ascii(rest);
        assert forall|i: int| 0 <= i < a.len() implies #[trigger] a[i] as u32 == encode_utf8(a)[i] as u32 by {
            if i > 0 {
                assert(a[i] == rest[i - 1]);
                assert(encode_utf8(a)[i] == encode_utf8(rest)[i - 1]);
            }
        }
    }
}

/// Whether two texts hold the same characters.
pub fn str_equals(a: &str, b: &str) -> (same: bool)
    ensures
        same == (a@ == b@),
{
    let x = a.as_bytes();
    let y = b.as_bytes();
    proof {
        assert(decode_utf8(encode_utf8(a@)) == a@);
        assert(decode_utf8(encode_utf8(b@)) == b@);
    }
    if x.len() != y.len() {
        return false;
    }
    let mut i: usize = 0;
    while i < x.len()
        invariant
            x@ == encode_utf8(a@),
            y@ == encode_utf8(b@),
            x@.len() == y@.len(),
            i <= x@.len(),
            forall|j: int| 0 <= j < i ==> x@[j] == y@[j],
        decreases x@.len() - i,
    {
        if x[i] != y[i] {
            return false;
        }
        i = i + 1;
    }
    assert(x@ =~= y@);
    true
}

} // verus!
