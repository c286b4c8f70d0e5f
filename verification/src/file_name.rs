//! The file name at the end of a path.
use vstd::prelude::*;
use vstd::string::*;
use vstd::utf8::*;
use crate::text::{
    lemma_after_ascii, lemma_all_ascii, lemma_ascii_byte_occurs, lemma_ascii_last,
    lemma_encode_push, lemma_encode_scalar, lemma_split_chars,
};

verus! {

broadcast use vstd::utf8::group_utf8_lib;

/// `/` and `\` separate the parts of a path.
pub open spec fn is_separator(c: char) -> bool {
    c == '/' || c == '\\'
}

/// The text without the `/` characters at its end.
pub open spec fn trim_slashes(s: Seq<char>) -> Seq<char>
    decreases s.len(),
{
    if s.len() > 0 && s.last() == '/' {
        trim_slashes(s.drop_last())
    } else {
        s
    }
}

/// The part of the text after its last separator (all of it when it has none).
pub open spec fn last_component(s: Seq<char>) -> Seq<char>
    decreases s.len(),
{
    if s.len() == 0 {
        s
    } else if is_separator(s.last()) {
        Seq::empty()
    } else {
        last_component(s.drop_last()).push(s.last())
    }
}

/// The file name of a path: its last part once the trailing `/`s are gone, if that part
/// is not empty.
pub open spec fn file_name_spec(path: Seq<char>) -> Option<Seq<char>> {
    let name = last_component(trim_slashes(path));
    if name.len() == 0 {
        None
    } else {
        Some(name)
    }
}

pub(crate) proof fn lemma_last_component(head: Seq<char>, name: Seq<char>)
    requires
        forall|i: int| 0 <= i < name.len() ==> !is_separator(#[trigger] name[i]),
        head.len() == 0 || is_separator(head.last()),
    ensures
        last_component(head + name) == name,
    decreases name.len(),
{
    if name.len() == 0 {
        assert(head + name =~= head);
    } else {
        assert((head + name).drop_last() =~= head + name.drop_last());
        assert((head + name).last() == name.last());
        lemma_last_component(head, name.drop_last());
        assert(name.drop_last().push(name.last()) =~= name);
    }
}

/// An empty encoding holds no characters.
proof fn lemma_empty_encoding(a: Seq<char>)
    requires
        encode_utf8(a).len() == 0,
    ensures
        a.len() == 0,
{
    lemma_all_ascii(a);
}

/// The file name of `file_path`: what follows its last `/` or `\` once the `/`s at its end
/// are removed, or `None` when that is empty.
pub fn file_name(file_path: &str) -> (res: Option<&str>)
    ensures
        (match file_name_spec(file_path@) {
            Some(name) => res matches Some(found) && found@ == name,
            None => res is None,
        }),
{
    let mut trimmed: &str = file_path;
    loop
        invariant
            trim_slashes(file_path@) == trim_slashes(trimmed@),
        ensures
            trim_slashes(file_path@) == trim_slashes(trimmed@),
            trimmed.spec_bytes().len() == 0 || trimmed.spec_bytes().last() != 0x2f,
        decreases trimmed.spec_bytes().len(),
    {
        let bytes = trimmed.as_bytes();
        let n = bytes.len();
        if n == 0 || bytes[n - 1] != 0x2fu8 {
            break;
        }
        proof {
            let b = trimmed.spec_bytes();
            assert(valid_utf8(b));
            assert(is_leading_byte_width_1(b[n - 1]));
            is_char_boundary_iff_is_leading_byte(b, n - 1);
        }
        let (rest, slash) = trimmed.split_at(n - 1);
        proof {
            let b = trimmed.spec_bytes();
            assert(rest.spec_bytes() + slash.spec_bytes() =~= b);
            lemma_split_chars(trimmed@, rest@, slash@);
            assert(slash.spec_bytes() =~= seq![0x2fu8]);
            lemma_all_ascii(slash@);
            assert(slash@[0] as u32 == 0x2f);
            char_u32_cast(slash@[0], 0x2fu32);
            assert(slash@ =~= seq!['/']);
            assert(trimmed@ =~= rest@.push('/'));
            assert(trimmed@.drop_last() =~= rest@);
        }
        trimmed = rest;
    }
    proof {
        let t = trimmed@;
        if t.len() > 0 && t.last() == '/' {
            lemma_encode_push(t.drop_last(), '/');
            assert(t.drop_last().push('/') =~= t);
            lemma_encode_scalar('/');
            assert(encode_utf8(t).last() == 0x2f);
        }
        assert(trim_slashes(t) == t);
    }
    let bytes = trimmed.as_bytes();
    let n = bytes.len();
    let mut j = n;
    while j > 0 && bytes[j - 1] != 0x2fu8 && bytes[j - 1] != 0x5cu8
        invariant
            bytes@ == trimmed.spec_bytes(),
            n == bytes@.len(),
            j <= n,
            forall|k: int| j <= k < n ==> bytes@[k] != 0x2f && bytes@[k] != 0x5c,
        decreases j,
    {
        j = j - 1;
    }
    proof {
        let b = trimmed.spec_bytes();
        assert(valid_utf8(b));
        if j == n || j == 0 {
            is_char_boundary_start_end_of_seq(b);
        } else {
            lemma_after_ascii(trimmed@, j - 1);
            is_char_boundary_iff_not_is_continuation_byte(b, j as int);
        }
    }
    let (head, name) = trimmed.split_at(j);
    proof {
        let b = trimmed.spec_bytes();
        assert(head.spec_bytes() + name.spec_bytes() =~= b);
        lemma_split_chars(trimmed@, head@, name@);
        let nb = name.spec_bytes();
        assert(!nb.contains(0x2fu8));
        assert(!nb.contains(0x5cu8));
        lemma_ascii_byte_occurs(name@, 0x2fu8);
        lemma_ascii_byte_occurs(name@, 0x5cu8);
        assert forall|i: int| 0 <= i < name@.len() implies !is_separator(#[trigger] name@[i]) by {
            if name@[i] == '/' {
                assert(name@.contains(0x2fu8 as char));
            }
            if name@[i] == '\\' {
                assert(name@.contains(0x5cu8 as char));
            }
        }
        if j == 0 {
            lemma_empty_encoding(head@);
        } else {
            let hb = head.spec_bytes();
            assert(hb.last() == b[j - 1]);
            lemma_ascii_last(head@);
            let c = head@.last();
            char_u32_cast(c, c as u32);
            if b[j - 1] == 0x2f {
                char_u32_cast(c, 0x2fu32);
                assert(c == '/');
            } else {
                char_u32_cast(c, 0x5cu32);
                assert(c == '\\');
            }
        }
        lemma_last_component(head@, name@);
    }
    if name.is_empty() {
        None
    } else {
        Some(name)
    }
}

} // verus!
