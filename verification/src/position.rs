//! From a 1-based (row, column) cursor position to a byte offset into the text.
use vstd::prelude::*;
use vstd::string::*;
use vstd::utf8::*;
use crate::text::{decimal, push_decimal, push_str};

verus! {

broadcast use vstd::utf8::group_utf8_lib;

/// The line and the column (both from 0, the column counted in characters) of the
/// character that starts at byte `i`, or of the end of the text when `i` is its length.
pub open spec fn line_col(b: Seq<u8>, i: int) -> (int, int)
    decreases i,
{
    if i <= 0 {
        (0, 0)
    } else {
        let (row, col) = line_col(b, i - 1);
        if is_continuation_byte(b[i - 1]) {
            (row, col)
        } else if b[i - 1] == 0x0a {
            (row + 1, 0)
        } else {
            (row, col + 1)
        }
    }
}

/// How many characters start in bytes `i..j`.
pub open spec fn starts_between(b: Seq<u8>, i: int, j: int) -> nat
    decreases j - i,
{
    if j <= i {
        0
    } else {
        starts_between(b, i, j - 1) + if is_continuation_byte(b[j - 1]) {
            0nat
        } else {
            1nat
        }
    }
}

/// No line feed in bytes `i..j`.
pub open spec fn no_line_feed(b: Seq<u8>, i: int, j: int) -> bool {
    forall|k: int| i <= k < j ==> b[k] != 0x0a
}

/// Moving forward from byte `i` to byte `j`: the line never goes back; without a line
/// feed between them it stays and the column grows by the characters that start between
/// them; with one, the line grows.
pub proof fn lemma_line_col_forward(b: Seq<u8>, i: int, j: int)
    requires
        0 <= i <= j <= b.len(),
    ensures
        line_col(b, j).0 >= line_col(b, i).0,
        no_line_feed(b, i, j) ==> line_col(b, j) == (
            line_col(b, i).0,
            line_col(b, i).1 + starts_between(b, i, j),
        ),
        !no_line_feed(b, i, j) ==> line_col(b, j).0 > line_col(b, i).0,
    decreases j - i,
{
    if i < j {
        lemma_line_col_forward(b, i, j - 1);
        if !no_line_feed(b, i, j - 1) {
            assert(!no_line_feed(b, i, j));
        }
        if no_line_feed(b, i, j) {
            assert(no_line_feed(b, i, j - 1));
        } else if no_line_feed(b, i, j - 1) {
            assert(b[j - 1] == 0x0a);
        }
    }
}

/// What `first_position` finds: a character start (or the end) within the text with the
/// line and column looked for.
pub proof fn lemma_first_position(b: Seq<u8>, target: (int, int), j: int)
    ensures
        first_position(b, target, j) matches Some(o) ==> j <= o <= b.len() && char_start(b, o)
            && line_col(b, o) == target,
    decreases b.len() + 1 - j,
{
    if 0 <= j <= b.len() && !(char_start(b, j) && line_col(b, j) == target) {
        lemma_first_position(b, target, j + 1);
    }
}

/// Byte `i` starts a character, or is the end of the text.
pub open spec fn char_start(b: Seq<u8>, i: int) -> bool {
    i == b.len() || (0 <= i < b.len() && !is_continuation_byte(b[i]))
}

/// The first character start (or the end of the text) at or after byte `j` whose line and
/// column are `target`.
pub open spec fn first_position(b: Seq<u8>, target: (int, int), j: int) -> Option<int>
    decreases b.len() + 1 - j,
{
    if !(0 <= j <= b.len()) {
        None
    } else if char_start(b, j) && line_col(b, j) == target {
        Some(j)
    } else {
        first_position(b, target, j + 1)
    }
}

/// The byte offset of the 1-based cursor (`row`, `column`), or why there is none.
pub open spec fn cursor_offset(b: Seq<u8>, row: int, column: int) -> Result<int, Seq<char>> {
    if row <= 0 {
        Err("cursor row must be 1-based"@)
    } else if column <= 0 {
        Err("cursor column must be 1-based"@)
    } else {
        match first_position(b, (row - 1, column - 1), 0) {
            Some(offset) => Ok(offset),
            None => Err(outside_message(row as nat, column as nat)),
        }
    }
}

/// "cursor position row:column is outside the file"
pub open spec fn outside_message(row: nat, column: nat) -> Seq<char> {
    "cursor position "@ + decimal(row) + ":"@ + decimal(column) + " is outside the file"@
}

/// The byte offset of the cursor at 1-based `row` and `column`: the first character start
/// (or the end of the text) whose line is `row - 1` and whose column is `column - 1`.
pub fn byte_offset_for_position(source: &str, row: usize, column: usize) -> (res: Result<
    usize,
    String,
>)
    ensures
        (match cursor_offset(source.spec_bytes(), row as int, column as int) {
            Ok(offset) => res matches Ok(found) && found == offset,
            Err(message) => res matches Err(e) && e@ == message,
        }),
        row == 0 ==> (res matches Err(e) && e@ == "cursor row must be 1-based"@),
        row > 0 && column == 0 ==> (res matches Err(e) && e@ == "cursor column must be 1-based"@),
        row > 0 && column > 0 ==> ({
            let b = source.spec_bytes();
            let target = (row - 1, column - 1);
            match res {
                Ok(offset) => {
                    &&& offset <= b.len()
                    &&& char_start(b, offset as int)
                    &&& is_char_boundary(b, offset as int)
                    &&& line_col(b, offset as int) == target
                    &&& forall|j: int|
                        0 <= j < offset && char_start(b, j) ==> #[trigger] line_col(b, j) != target
                },
                Err(e) => {
                    &&& e@ == outside_message(row as nat, column as nat)
                    &&& forall|j: int|
                        0 <= j <= b.len() && char_start(b, j) ==> #[trigger] line_col(b, j)
                            != target
                },
            }
        }),
{
    if row == 0 {
        let mut e = String::new();
        push_str(&mut e, "cursor row must be 1-based");
        assert(e@ =~= "cursor row must be 1-based"@);
        return Err(e);
    }
    if column == 0 {
        let mut e = String::new();
        push_str(&mut e, "cursor column must be 1-based");
        assert(e@ =~= "cursor column must be 1-based"@);
        return Err(e);
    }
    let target_row = row - 1;
    let target_col = column - 1;
    let bytes = source.as_bytes();
    let ghost b = source.spec_bytes();
    let ghost target = (target_row as int, target_col as int);
    proof {
        assert(b == encode_utf8(source@));
        assert(valid_utf8(b));
    }
    let mut current_row: usize = 0;
    let mut current_col: usize = 0;
    let mut i: usize = 0;
    while i < bytes.len()
        invariant
            bytes@ == b,
            b == source.spec_bytes(),
            valid_utf8(b),
            target == (target_row as int, target_col as int),
            row > 0 && column > 0 && target_row == row - 1 && target_col == column - 1,
            i <= b.len(),
            (current_row as int, current_col as int) == line_col(b, i as int),
            current_row <= i,
            current_col <= i,
            forall|j: int| 0 <= j < i && char_start(b, j) ==> #[trigger] line_col(b, j) != target,
            first_position(b, target, 0) == first_position(b, target, i as int),
        decreases b.len() - i,
    {
        if !(0x80u8 <= bytes[i] && bytes[i] <= 0xbfu8) {
            if current_row == target_row && current_col == target_col {
                proof {
                    is_char_boundary_iff_not_is_continuation_byte(b, i as int);
                }
                return Ok(i);
            }
            if bytes[i] == 0x0au8 {
                current_row = current_row + 1;
                current_col = 0;
            } else {
                current_col = current_col + 1;
            }
        }
        i = i + 1;
    }
    proof {
        assert(first_position(b, target, b.len() + 1int) == None::<int>);
    }
    if current_row == target_row && current_col == target_col {
        proof {
            is_char_boundary_start_end_of_seq(b);
        }
        return Ok(bytes.len());
    }
    let mut e = String::new();
    push_str(&mut e, "cursor position ");
    push_decimal(&mut e, row);
    push_str(&mut e, ":");
    push_decimal(&mut e, column);
    push_str(&mut e, " is outside the file");
    assert(e@ =~= outside_message(row as nat, column as nat));
    Err(e)
}

} // verus!
