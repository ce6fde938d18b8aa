//! Coordinates as players write them: a column letter, `A` to `S` from the
//! left, and a row number, 19 down to 1 from the top.

use vstd::prelude::*;
use vstd::string::{StrSliceExecFns, StringExecFns};
use crate::goban::{Position, GOBAN_SIZE};

verus! {

/// Why a text is not a coordinate.
#[derive(Debug, Clone, Copy, PartialEq, Eq, Structural)]
pub enum CoordinateError {
    /// The text has fewer than two characters.
    TooShort,
    /// The first character is no column letter.
    Column,
    /// What follows the first character is no row number.
    Row,
}

/// Whether `c` is white space, as Unicode defines it.
pub open spec fn is_space(c: char) -> bool {
    let code = c as u32;
    ||| 0x09 <= code <= 0x0d
    ||| code == 0x20
    ||| code == 0x85
    ||| code == 0xa0
    ||| code == 0x1680
    ||| 0x2000 <= code <= 0x200a
    ||| code == 0x2028
    ||| code == 0x2029
    ||| code == 0x202f
    ||| code == 0x205f
    ||| code == 0x3000
}

/// The column that a letter names, in either case.
pub open spec fn column_of(c: char) -> Option<int> {
    let code = c as u32;
    if 0x61 <= code < 0x61 + 19 {
        Some(code - 0x61)
    } else if 0x41 <= code < 0x41 + 19 {
        Some(code - 0x41)
    } else {
        None
    }
}

/// The first index from `from` on whose character is no white space, or
/// the length of `text`.
pub open spec fn first_solid(text: Seq<char>, from: int) -> int
    decreases text.len() - from,
{
    if 0 <= from < text.len() && is_space(text[from]) {
        first_solid(text, from + 1)
    } else {
        from
    }
}

/// The end of the last character before `to` that is no white space, or
/// `floor`.
pub open spec fn last_solid(text: Seq<char>, floor: int, to: int) -> int
    decreases to - floor,
{
    if floor < to <= text.len() && is_space(text[to - 1]) {
        last_solid(text, floor, to - 1)
    } else {
        to
    }
}

/// The value of a decimal digit.
pub open spec fn digit_of(c: char) -> Option<int> {
    let code = c as u32;
    if 0x30 <= code <= 0x39 {
        Some(code - 0x30)
    } else {
        None
    }
}

/// Whether the characters of `text` from `from` to `to` are all digits.
pub open spec fn all_digits(text: Seq<char>, from: int, to: int) -> bool {
    forall|i: int| from <= i < to ==> digit_of(#[trigger] text[i]) is Some
}

/// The number that the digits of `text` from `from` to `to` write.
pub open spec fn decimal(text: Seq<char>, from: int, to: int) -> int
    decreases to - from,
{
    if to <= from {
        0
    } else {
        decimal(text, from, to - 1) * 10 + digit_of(text[to - 1]).unwrap()
    }
}

/// The row that the characters of `text` from `from` on name: white space
/// around the number is skipped, a plus sign may stand before it, and the
/// number is counted from the bottom row, which is row 1.
pub open spec fn row_of(text: Seq<char>, from: int) -> Option<int> {
    let start = first_solid(text, from);
    let end = last_solid(text, start, text.len() as int);
    let digits = if start < end && text[start] == '+' {
        start + 1
    } else {
        start
    };
    if digits < end && all_digits(text, digits, end) && 1 <= decimal(text, digits, end)
        <= GOBAN_SIZE {
        Some(GOBAN_SIZE - decimal(text, digits, end))
    } else {
        None
    }
}

/// The cell that `text` names, or why it names none.
pub open spec fn parsed(text: Seq<char>) -> Result<Position, CoordinateError> {
    if text.len() < 2 {
        Err(CoordinateError::TooShort)
    } else {
        match column_of(text[0]) {
            None => Err(CoordinateError::Column),
            Some(col) => match row_of(text, 1) {
                None => Err(CoordinateError::Row),
                Some(row) => Ok(Position { row: row as usize, col: col as usize }),
            },
        }
    }
}

/// The message for a text that names no cell.
pub open spec fn complaint(error: CoordinateError, text: Seq<char>) -> Seq<char> {
    match error {
        CoordinateError::TooShort => "Invalid position `"@ + text + "`"@,
        CoordinateError::Column => "invalid col value `"@ + text.subrange(0, 1) + "`"@,
        CoordinateError::Row => "invalid row value `"@ + text.subrange(1, text.len() as int)
            + "`"@,
    }
}

/// The digits of a number below `limit`, the number itself from `limit`
/// on: enough to tell whether the number is below `limit`.
spec fn capped(value: int, limit: int) -> int {
    if value < limit {
        value
    } else {
        limit
    }
}

/// A number grows with its digits.
proof fn lemma_decimal_grows(text: Seq<char>, from: int, to: int)
    requires
        all_digits(text, from, to),
    ensures
        0 <= decimal(text, from, to),
    decreases to - from,
{
    if from < to {
        lemma_decimal_grows(text, from, to - 1);
    }
}

/// Whether `c` is white space, as Unicode defines it.
fn is_whitespace(c: char) -> (space: bool)
    ensures
        space == is_space(c),
{
    let code = c as u32;
    (0x09 <= code && code <= 0x0d) || code == 0x20 || code == 0x85 || code == 0xa0 || code
        == 0x1680 || (0x2000 <= code && code <= 0x200a) || code == 0x2028 || code == 0x2029
        || code == 0x202f || code == 0x205f || code == 0x3000
}

/// The row that the characters of `text` from the second on name.
fn parse_row(text: &str) -> (row: Option<usize>)
    requires
        text@.len() >= 2,
    ensures
        match row {
            Some(row) => row_of(text@, 1) == Some(row as int),
            None => row_of(text@, 1) is None,
        },
{
    let len = text.unicode_len();
    let mut start: usize = 1;
    while start < len && is_whitespace(text.get_char(start))
        invariant
            1 <= start <= len,
            len == text@.len(),
            first_solid(text@, 1) == first_solid(text@, start as int),
        decreases len - start,
    {
        start += 1;
    }
    let mut end: usize = len;
    while start < end && is_whitespace(text.get_char(end - 1))
        invariant
            start <= end <= len,
            len == text@.len(),
            last_solid(text@, start as int, len as int) == last_solid(
                text@,
                start as int,
                end as int,
            ),
        decreases end - start,
    {
        end -= 1;
    }
    let mut digits = start;
    if start < end && text.get_char(start) == '+' {
        digits = start + 1;
    }
    if digits >= end {
        return None;
    }
    let mut value: usize = 0;
    let mut at = digits;
    while at < end
        invariant
            digits <= at <= end <= len,
            len == text@.len(),
            row_of(text@, 1) == if all_digits(text@, digits as int, end as int) && 1 <= decimal(
                text@,
                digits as int,
                end as int,
            ) <= GOBAN_SIZE {
                Some(GOBAN_SIZE - decimal(text@, digits as int, end as int))
            } else {
                None
            },
            all_digits(text@, digits as int, at as int),
            value == capped(decimal(text@, digits as int, at as int), 20),
        decreases end - at,
    {
        let code = text.get_char(at) as u32;
        if code < 0x30 || code > 0x39 {
            assert(!all_digits(text@, digits as int, end as int)) by {
                assert(digit_of(text@[at as int]) is None);
            }
            return None;
        }
        proof {
            lemma_decimal_grows(text@, digits as int, at as int);
        }
        let digit = (code - 0x30) as usize;
        value = if value >= 2 {
            20
        } else {
            value * 10 + digit
        };
        at += 1;
    }
    if 1 <= value && value <= GOBAN_SIZE {
        Some(GOBAN_SIZE - value)
    } else {
        None
    }
}

impl Position {
    /// Reads a coordinate such as `A19`: the cell it names, or a message
    /// that tells what is wrong with it.
    pub fn from_coordinates(position: &str) -> (result: Result<Position, String>)
        ensures
            match parsed(position@) {
                Ok(cell) => result == Ok::<Position, String>(cell) && cell.on_board(),
                Err(error) => result is Err && result->Err_0@ == complaint(error, position@),
            },
    {
        let len = position.unicode_len();
        if len < 2 {
            let mut message = String::from_str("Invalid position `");
            message.append(position);
            message.append("`");
            return Err(message);
        }
        let code = position.get_char(0) as u32;
        let col: usize = if 0x61 <= code && code < 0x61 + 19 {
            (code - 0x61) as usize
        } else if 0x41 <= code && code < 0x41 + 19 {
            (code - 0x41) as usize
        } else {
            let mut message = String::from_str("invalid col value `");
            message.append(position.substring_char(0, 1));
            message.append("`");
            return Err(message);
        };
        match parse_row(position) {
            Some(row) => Ok(Position::new(row, col)),
            None => {
                let mut message = String::from_str("invalid row value `");
                message.append(position.substring_char(1, len));
                message.append("`");
                Err(message)
            },
        }
    }
}

} // verus!
