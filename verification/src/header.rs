//! One header line of a language server message: the end of the headers, the content
//! length, or another header.
use vstd::prelude::*;
use vstd::string::*;
use vstd::utf8::*;
use crate::text::{
    decimal, digit_char, push_decimal, push_str, lemma_all_ascii, lemma_ascii_byte_occurs, lemma_ascii_chars, lemma_encode_push, lemma_encode_scalar,
    lemma_split_chars,
};

verus! {

broadcast use vstd::utf8::group_utf8_lib;

/// What one header line says.
pub enum HeaderLine {
    /// The empty line that ends the headers.
    EndOfHeaders,
    /// A `Content-Length` header, with its value when that is a number.
    ContentLength(Option<usize>),
    /// Any other line.
    Other,
}

/// The line without the carriage returns and line feeds at its end.
pub open spec fn trim_line_end(s: Seq<char>) -> Seq<char>
    decreases s.len(),
{
    if s.len() > 0 && (s.last() == '\r' || s.last() == '\n') {
        trim_line_end(s.drop_last())
    } else {
        s
    }
}

/// Where the first `:` is.
pub open spec fn colon_index(s: Seq<char>) -> Option<int>
    decreases s.len(),
{
    if s.len() == 0 {
        None
    } else if s[0] == ':' {
        Some(0)
    } else {
        match colon_index(s.drop_first()) {
            Some(k) => Some(k + 1),
            None => None,
        }
    }
}

/// The code of a character, with ASCII upper-case letters in lower case.
pub open spec fn ascii_lower_code(c: char) -> u32 {
    if 65 <= c as u32 <= 90 {
        (c as u32 + 32) as u32
    } else {
        c as u32
    }
}

/// The bytes of `content-length`.
pub open spec fn content_length_bytes() -> Seq<u8> {
    seq![
        0x63u8, 0x6fu8, 0x6eu8, 0x74u8, 0x65u8, 0x6eu8, 0x74u8, 0x2du8, 0x6cu8, 0x65u8, 0x6eu8,
        0x67u8, 0x74u8, 0x68u8,
    ]
}

/// The name is `content-length` in any mix of ASCII case.
pub open spec fn is_content_length_name(name: Seq<char>) -> bool {
    name.len() == content_length_bytes().len() && forall|i: int|
        0 <= i < name.len() ==> ascii_lower_code(#[trigger] name[i]) == content_length_bytes()[i] as u32
}

/// The characters with the Unicode property White_Space.
pub open spec fn is_white_space(c: char) -> bool {
    ('\u{9}' <= c <= '\u{d}') || c == ' ' || c == '\u{85}' || c == '\u{a0}' || c == '\u{1680}'
        || ('\u{2000}' <= c <= '\u{200a}') || c == '\u{2028}' || c == '\u{2029}' || c
        == '\u{202f}' || c == '\u{205f}' || c == '\u{3000}'
}

/// The text without its leading white space.
pub open spec fn trim_start_white_space(s: Seq<char>) -> Seq<char>
    decreases s.len(),
{
    if s.len() > 0 && is_white_space(s[0]) {
        trim_start_white_space(s.drop_first())
    } else {
        s
    }
}

/// The text without its trailing white space.
pub open spec fn trim_end_white_space(s: Seq<char>) -> Seq<char>
    decreases s.len(),
{
    if s.len() > 0 && is_white_space(s.last()) {
        trim_end_white_space(s.drop_last())
    } else {
        s
    }
}

/// The text without leading and trailing white space.
pub open spec fn trim_white_space(s: Seq<char>) -> Seq<char> {
    trim_end_white_space(trim_start_white_space(s))
}

/// A decimal digit.
pub open spec fn is_digit(c: char) -> bool {
    48 <= c as u32 <= 57
}

/// The number that a run of decimal digits writes.
pub open spec fn digits_value(s: Seq<char>) -> nat
    decreases s.len(),
{
    if s.len() == 0 {
        0
    } else {
        digits_value(s.drop_last()) * 10 + (s.last() as u32 - 48) as nat
    }
}

/// The text without a `+` at its start.
pub open spec fn without_plus(s: Seq<char>) -> Seq<char> {
    if s.len() > 0 && s[0] == '+' {
        s.drop_first()
    } else {
        s
    }
}

/// What `usize::from_str` makes of a text: an optional `+` and then one or more decimal
/// digits whose number fits in a `usize`.
pub open spec fn parse_usize_spec(s: Seq<char>) -> Option<usize> {
    let digits = without_plus(s);
    if digits.len() > 0 && (forall|i: int| 0 <= i < digits.len() ==> is_digit(#[trigger] digits[i]))
        && digits_value(digits) <= usize::MAX {
        Some(digits_value(digits) as usize)
    } else {
        None
    }
}

/// What a header line says, with its line ending.
pub open spec fn header_line_spec(line: Seq<char>) -> HeaderLine {
    let t = trim_line_end(line);
    if t.len() == 0 {
        HeaderLine::EndOfHeaders
    } else {
        match colon_index(t) {
            None => HeaderLine::Other,
            Some(k) => if is_content_length_name(t.take(k)) {
                HeaderLine::ContentLength(parse_usize_spec(trim_white_space(t.skip(k + 1))))
            } else {
                HeaderLine::Other
            },
        }
    }
}

/// Removes white space at both ends with `str::trim`, which std documents as removing the
/// leading and trailing characters of the Unicode property White_Space.
#[verifier::external_body]
fn trim_white_space_str(text: &str) -> (trimmed: &str)
    ensures
        trimmed@ == trim_white_space(text@),
{
    text.trim()
}

proof fn lemma_colon_index(name: Seq<char>, rest: Seq<char>)
    requires
        !name.contains(':'),
    ensures
        colon_index(name + seq![':'] + rest) == Some(name.len() as int),
    decreases name.len(),
{
    let s = name + seq![':'] + rest;
    if name.len() == 0 {
        assert(s[0] == ':');
    } else {
        assert(s[0] == name[0]);
        assert(!name.drop_first().contains(':')) by {
            if name.drop_first().contains(':') {
                let k = choose|k: int| 0 <= k < name.drop_first().len() && name.drop_first()[k] == ':';
                assert(name[k + 1] == ':');
            }
        }
        lemma_colon_index(name.drop_first(), rest);
        assert(s.drop_first() =~= name.drop_first() + seq![':'] + rest);
    }
}

proof fn lemma_no_colon(s: Seq<char>)
    requires
        !s.contains(':'),
    ensures
        colon_index(s) is None,
    decreases s.len(),
{
    if s.len() > 0 {
        assert(s[0] != ':');
        assert(!s.drop_first().contains(':')) by {
            if s.drop_first().contains(':') {
                let k = choose|k: int| 0 <= k < s.drop_first().len() && s.drop_first()[k] == ':';
                assert(s[k + 1] == ':');
            }
        }
        lemma_no_colon(s.drop_first());
    }
}

proof fn lemma_digits_value_prefix(s: Seq<char>, k: int)
    requires
        0 <= k <= s.len(),
    ensures
        digits_value(s.take(k)) <= digits_value(s),
    decreases s.len(),
{
    if k < s.len() {
        lemma_digits_value_prefix(s.drop_last(), k);
        assert(s.drop_last().take(k) =~= s.take(k));
    } else {
        assert(s.take(k) =~= s);
    }
}

/// The number in `text` as `usize::from_str` reads it: an optional `+` and then decimal
/// digits, when the number fits.
pub fn parse_usize(text: &str) -> (value: Option<usize>)
    ensures
        value == parse_usize_spec(text@),
{
    let bytes = text.as_bytes();
    let n = bytes.len();
    let start: usize = if n > 0 && bytes[0] == 0x2bu8 {
        1
    } else {
        0
    };
    let ghost s = text@;
    let ghost digits = without_plus(s);
    proof {
        assert(bytes@ == encode_utf8(s));
        if s.len() > 0 {
            lemma_encode_scalar(s[0]);
            assert(encode_utf8(s) =~= encode_scalar(s[0] as u32) + encode_utf8(s.drop_first()));
            assert(bytes@[0] == encode_scalar(s[0] as u32)[0]);
            if s[0] == '+' {
                assert(encode_scalar(s[0] as u32) == seq![0x2bu8]);
            }
            if bytes@[0] == 0x2b {
                assert(s[0] as u32 == 0x2b);
                char_u32_cast(s[0], 0x2bu32);
            }
        } else {
            lemma_all_ascii(s);
        }
    }
    let mut i: usize = start;
    while i < n
        invariant
            s == text@,
            bytes@ == encode_utf8(s),
            n == bytes@.len(),
            start <= i <= n,
            start <= 1,
            start == 1 ==> s.len() > 0 && s[0] == '+' && bytes@[0] == 0x2b,
            start == 0 ==> !(s.len() > 0 && s[0] == '+'),
            digits == without_plus(s),
            forall|j: int| start <= j < i ==> 0x30 <= #[trigger] bytes@[j] <= 0x39,
        decreases n - i,
    {
        if !(0x30u8 <= bytes[i] && bytes[i] <= 0x39u8) {
            proof {
                if (forall|j: int| 0 <= j < digits.len() ==> is_digit(#[trigger] digits[j])) {
                    assert forall|j: int| 0 <= j < s.len() implies (#[trigger] s[j] as u32) < 0x80 by {
                        if start == 1 {
                            if j > 0 {
                                assert(digits[j - 1] == s[j]);
                            }
                        } else {
                            assert(digits[j] == s[j]);
                        }
                    }
                    lemma_ascii_chars(s);
                    assert(s.len() == n);
                    assert(s[i as int] as u32 == bytes@[i as int] as u32);
                    if start == 1 {
                        assert(digits[i - 1] == s[i as int]);
                        assert(is_digit(digits[i - 1]));
                    } else {
                        assert(digits[i as int] == s[i as int]);
                        assert(is_digit(digits[i as int]));
                    }
                    assert(false);
                }
            }
            return None;
        }
        i = i + 1;
    }
    proof {
        assert forall|k: int| 0 <= k < bytes@.len() implies #[trigger] bytes@[k] < 0x80 by {
            if k < start {
                assert(k == 0);
            }
        }
        lemma_all_ascii(s);
        assert(digits =~= s.subrange(start as int, n as int));
    }
    if start == n {
        return None;
    }
    let mut value: usize = 0;
    let mut j: usize = start;
    proof {
        assert(digits.take(0) =~= Seq::<char>::empty());
    }
    while j < n
        invariant
            s == text@,
            digits == without_plus(s),
            n == s.len(),
            n == bytes@.len(),
            start < n,
            start <= j <= n,
            forall|k: int| 0 <= k < s.len() ==> #[trigger] s[k] as u32 == bytes@[k] as u32,
            forall|k: int| start <= k < n ==> 0x30 <= #[trigger] bytes@[k] <= 0x39,
            digits == s.subrange(start as int, n as int),
            value == digits_value(digits.take(j - start)),
        decreases n - j,
    {
        let d = (bytes[j] - 0x30u8) as usize;
        let ghost prefix = digits.take(j - start + 1);
        proof {
            assert(prefix.drop_last() =~= digits.take(j - start));
            assert(prefix.last() == s[j as int]);
            assert(s[j as int] as u32 == bytes@[j as int] as u32);
            assert(digits_value(prefix) == value * 10 + d);
        }
        let scaled = match value.checked_mul(10) {
            Some(v) => v,
            None => {
                proof {
                    lemma_digits_value_prefix(digits, j - start + 1);
                }
                return None;
            },
        };
        value = match scaled.checked_add(d) {
            Some(v) => v,
            None => {
                proof {
                    lemma_digits_value_prefix(digits, j - start + 1);
                }
                return None;
            },
        };
        j = j + 1;
    }
    proof {
        assert(digits.take(n - start) =~= digits);
        assert forall|k: int| 0 <= k < digits.len() implies is_digit(#[trigger] digits[k]) by {
            assert(digits[k] == s[k + start]);
            assert(s[k + start] as u32 == bytes@[k + start] as u32);
        }
        lemma_digits_value_prefix(digits, digits.len() as int);
    }
    Some(value)
}

/// Whether a header name is `content-length`, ignoring ASCII case.
pub fn is_content_length(name: &str) -> (yes: bool)
    ensures
        yes == is_content_length_name(name@),
{
    let bytes = name.as_bytes();
    let target: [u8; 14] = [
        0x63u8, 0x6fu8, 0x6eu8, 0x74u8, 0x65u8, 0x6eu8, 0x74u8, 0x2du8, 0x6cu8, 0x65u8, 0x6eu8,
        0x67u8, 0x74u8, 0x68u8,
    ];
    assert(target@ =~= content_length_bytes());
    let ghost s = name@;
    proof {
        assert(bytes@ == encode_utf8(s));
        if is_content_length_name(s) {
            assert forall|k: int| 0 <= k < s.len() implies (#[trigger] s[k] as u32) < 0x80 by {
                assert(ascii_lower_code(s[k]) == content_length_bytes()[k] as u32);
            }
            lemma_ascii_chars(s);
        }
    }
    if bytes.len() != 14 {
        return false;
    }
    let mut i: usize = 0;
    while i < 14
        invariant
            s == name@,
            bytes@ == encode_utf8(s),
            bytes@.len() == 14,
            target@ == content_length_bytes(),
            i <= 14,
            forall|k: int|
                0 <= k < i ==> #[trigger] bytes@[k] == target@[k] || (bytes@[k] + 32 == target@[k]
                    && 0x41 <= bytes@[k] <= 0x5a),
            is_content_length_name(s) ==> s.len() == 14 && forall|k: int|
                0 <= k < s.len() ==> #[trigger] s[k] as u32 == bytes@[k] as u32,
        decreases 14 - i,
    {
        let b = bytes[i];
        let lower = if 0x41u8 <= b && b <= 0x5au8 {
            b + 32
        } else {
            b
        };
        if lower != target[i] {
            proof {
                if is_content_length_name(s) {
                    assert(ascii_lower_code(s[i as int]) == content_length_bytes()[i as int] as u32);
                    assert(s[i as int] as u32 == b as u32);
                }
            }
            return false;
        }
        i = i + 1;
    }
    proof {
        assert forall|k: int| 0 <= k < 14 implies #[trigger] bytes@[k] < 0x80 by {
            assert(bytes@[k] == target@[k] || bytes@[k] + 32 == target@[k]);
        }
        lemma_all_ascii(s);
        assert forall|k: int| 0 <= k < s.len() implies ascii_lower_code(#[trigger] s[k])
            == content_length_bytes()[k] as u32 by {
            assert(s[k] as u32 == bytes@[k] as u32);
        }
    }
    true
}

/// What one header line says; the line may still end in its line ending.
pub fn header_line(line: &str) -> (header: HeaderLine)
    ensures
        header == header_line_spec(line@),
{
    let mut trimmed: &str = line;
    loop
        invariant
            trim_line_end(line@) == trim_line_end(trimmed@),
        ensures
            trim_line_end(line@) == trim_line_end(trimmed@),
            trimmed.spec_bytes().len() == 0 || (trimmed.spec_bytes().last() != 0x0d
                && trimmed.spec_bytes().last() != 0x0a),
        decreases trimmed.spec_bytes().len(),
    {
        let bytes = trimmed.as_bytes();
        let n = bytes.len();
        if n == 0 || (bytes[n - 1] != 0x0du8 && bytes[n - 1] != 0x0au8) {
            break;
        }
        proof {
            let b = trimmed.spec_bytes();
            assert(is_leading_byte_width_1(b[n - 1]));
            is_char_boundary_iff_is_leading_byte(b, n - 1);
        }
        let (rest, end) = trimmed.split_at(n - 1);
        proof {
            let b = trimmed.spec_bytes();
            assert(rest.spec_bytes() + end.spec_bytes() =~= b);
            lemma_split_chars(trimmed@, rest@, end@);
            assert(end.spec_bytes() =~= seq![b[n - 1]]);
            lemma_all_ascii(end@);
            let c = end@[0];
            char_u32_cast(c, c as u32);
            if b[n - 1] == 0x0d {
                char_u32_cast(c, 0x0du32);
                assert(c == '\r');
            } else {
                char_u32_cast(c, 0x0au32);
                assert(c == '\n');
            }
            assert(trimmed@ =~= rest@.push(c));
            assert(trimmed@.drop_last() =~= rest@);
        }
        trimmed = rest;
    }
    proof {
        let t = trimmed@;
        if t.len() > 0 && (t.last() == '\r' || t.last() == '\n') {
            lemma_encode_push(t.drop_last(), t.last());
            assert(t.drop_last().push(t.last()) =~= t);
            lemma_encode_scalar(t.last());
        }
        assert(trim_line_end(t) == t);
    }
    if trimmed.is_empty() {
        return HeaderLine::EndOfHeaders;
    }
    let bytes = trimmed.as_bytes();
    let n = bytes.len();
    let mut k: usize = 0;
    while k < n && bytes[k] != 0x3au8
        invariant
            bytes@ == trimmed.spec_bytes(),
            n == bytes@.len(),
            k <= n,
            forall|j: int| 0 <= j < k ==> bytes@[j] != 0x3a,
        decreases n - k,
    {
        k = k + 1;
    }
    if k == n {
        proof {
            assert(!bytes@.contains(0x3au8));
            lemma_ascii_byte_occurs(trimmed@, 0x3au8);
            lemma_no_colon(trimmed@);
        }
        return HeaderLine::Other;
    }
    proof {
        let b = trimmed.spec_bytes();
        assert(is_leading_byte_width_1(b[k as int]));
        is_char_boundary_iff_is_leading_byte(b, k as int);
    }
    let (name, rest) = trimmed.split_at(k);
    proof {
        let rb = rest.spec_bytes();
        assert(rb[0] == 0x3a);
        assert(is_leading_byte_width_1(rb[0]));
        if rb.len() > 1 {
            crate::text::lemma_after_ascii(rest@, 0);
            is_char_boundary_iff_not_is_continuation_byte(rb, 1);
        } else {
            is_char_boundary_start_end_of_seq(rb);
        }
    }
    let (colon, value) = rest.split_at(1);
    proof {
        let b = trimmed.spec_bytes();
        assert(name.spec_bytes() + rest.spec_bytes() =~= b);
        lemma_split_chars(trimmed@, name@, rest@);
        assert(colon.spec_bytes() + value.spec_bytes() =~= rest.spec_bytes());
        lemma_split_chars(rest@, colon@, value@);
        assert(colon.spec_bytes() =~= seq![0x3au8]);
        lemma_all_ascii(colon@);
        char_u32_cast(colon@[0], 0x3au32);
        assert(colon@ =~= seq![':']);
        assert(!name.spec_bytes().contains(0x3au8));
        lemma_ascii_byte_occurs(name@, 0x3au8);
        lemma_colon_index(name@, value@);
        assert(trimmed@ =~= name@ + seq![':'] + value@);
        assert(trimmed@.take(name@.len() as int) =~= name@);
        assert(trimmed@.skip(name@.len() + 1int) =~= value@);
    }
    if is_content_length(name) {
        HeaderLine::ContentLength(parse_usize(trim_white_space_str(value)))
    } else {
        HeaderLine::Other
    }
}

/// The header line that announces a body of `length` bytes.
pub open spec fn length_line(length: nat) -> Seq<char> {
    "Content-Length: "@ + decimal(length) + "\r\n"@
}

/// The headers written before a body of `length` bytes: its length line, then the empty
/// line that ends the headers.
pub open spec fn message_header_spec(length: nat) -> Seq<char> {
    length_line(length) + "\r\n"@
}

/// The headers to write before a body of `length` bytes.
pub fn message_header(length: usize) -> (header: String)
    ensures
        header@ == message_header_spec(length as nat),
{
    let mut header = String::new();
    push_str(&mut header, "Content-Length: ");
    push_decimal(&mut header, length);
    push_str(&mut header, "\r\n\r\n");
    proof {
        reveal_strlit("\r\n\r\n");
        reveal_strlit("\r\n");
    }
    assert(header@ =~= message_header_spec(length as nat));
    header
}

/// The decimal text of a number is a non-empty run of digits that reads back as the number.
pub proof fn lemma_decimal_digits(n: nat)
    ensures
        decimal(n).len() > 0,
        forall|i: int| 0 <= i < decimal(n).len() ==> is_digit(#[trigger] decimal(n)[i]),
        digits_value(decimal(n)) == n,
    decreases n,
{
    let d = decimal(n);
    let c = digit_char((n % 10) as int);
    char_u32_cast(c, (n % 10 + 48) as u32);
    assert(c as u32 == n % 10 + 48);
    if n >= 10 {
        lemma_decimal_digits(n / 10);
        let p = decimal(n / 10);
        assert(d == p.push(c));
        assert(d.drop_last() =~= p);
        assert forall|i: int| 0 <= i < d.len() implies is_digit(#[trigger] d[i]) by {
            if i < p.len() {
                assert(d[i] == p[i]);
            }
        }
        assert(d.last() == c);
        assert(digits_value(d) == digits_value(p) * 10 + (n % 10));
        assert(n == (n / 10) * 10 + n % 10);
    } else {
        assert(d.drop_last() =~= Seq::<char>::empty());
        assert(d.last() == c);
        assert(digits_value(d) == digits_value(Seq::<char>::empty()) * 10 + (n % 10));
    }
}

/// The length line of a body of `length` bytes reads back as that length.
#[verifier::spinoff_prover]
#[verifier::rlimit(50)]
pub proof fn lemma_length_line_reads_back(length: usize)
    ensures
        header_line_spec(length_line(length as nat)) == HeaderLine::ContentLength(Some(length)),
{
    reveal_strlit("Content-Length: ");
    reveal_strlit("Content-Length");
    reveal_strlit("\r\n");
    let n = length as nat;
    let prefix = "Content-Length: "@;
    let name = "Content-Length"@;
    let d = decimal(n);
    lemma_decimal_digits(n);
    let body = prefix + d;
    let line = length_line(n);
    assert(is_digit(d[0]));
    assert(is_digit(d.last())) by {
        assert(d.last() == d[d.len() - 1]);
    }
    assert(body.last() == d.last());
    assert(trim_line_end(body) == body);
    assert(body.push('\r').drop_last() =~= body);
    assert(trim_line_end(body.push('\r')) == body);
    assert(line =~= body.push('\r').push('\n'));
    assert(line.drop_last() =~= body.push('\r'));
    assert(trim_line_end(line) == body);
    let rest = seq![' '] + d;
    assert(!name.contains(':')) by {
        if name.contains(':') {
            let k = choose|k: int| 0 <= k < name.len() && name[k] == ':';
            assert(name[k] == ':');
        }
    }
    lemma_colon_index(name, rest);
    assert(body =~= name + seq![':'] + rest);
    assert(body.take(14) =~= name);
    assert(is_content_length_name(name));
    assert(body.skip(15) =~= rest);
    assert(rest.drop_first() =~= d);
    assert(!is_white_space(d[0]));
    assert(trim_start_white_space(d) == d);
    assert(trim_start_white_space(rest) == d);
    assert(!is_white_space(d.last()));
    assert(trim_end_white_space(d) == d);
    assert(trim_white_space(rest) == d);
    assert(d[0] != '+');
    assert(without_plus(d) == d);
    assert(parse_usize_spec(d) == Some(length));
}

} // verus!
