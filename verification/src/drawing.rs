//! How the board is drawn as text.

use vstd::prelude::*;
use crate::goban::{GobanView, Position, Stone, GOBAN_SIZE};

verus! {

/// How a cell is drawn.
pub open spec fn cell_text(stone: Option<Stone>) -> Seq<char> {
    match stone {
        None => ". "@,
        Some(Stone::Black) => "X "@,
        Some(Stone::White) => "O "@,
    }
}

/// How a digit is written.
pub open spec fn digit_text(digit: int) -> Seq<char> {
    if digit == 0 {
        "0"@
    } else if digit == 1 {
        "1"@
    } else if digit == 2 {
        "2"@
    } else if digit == 3 {
        "3"@
    } else if digit == 4 {
        "4"@
    } else if digit == 5 {
        "5"@
    } else if digit == 6 {
        "6"@
    } else if digit == 7 {
        "7"@
    } else if digit == 8 {
        "8"@
    } else {
        "9"@
    }
}

/// How a number below 100 is written.
pub open spec fn number_text(number: int) -> Seq<char> {
    if number >= 10 {
        digit_text(number / 10) + digit_text(number % 10)
    } else {
        digit_text(number)
    }
}

/// The first `upto` cells of row `row` as they are drawn.
pub open spec fn row_text(board: GobanView, row: int, upto: int) -> Seq<char>
    decreases upto,
{
    if upto <= 0 {
        Seq::empty()
    } else {
        row_text(board, row, upto - 1) + cell_text(
            board.at(Position { row: row as usize, col: (upto - 1) as usize }),
        )
    }
}

/// The first `upto` rows as they are drawn: the cells of each, then its
/// number, counted from the bottom.
pub open spec fn rows_text(board: GobanView, upto: int) -> Seq<char>
    decreases upto,
{
    if upto <= 0 {
        Seq::empty()
    } else {
        rows_text(board, upto - 1) + row_text(board, upto - 1, GOBAN_SIZE as int) + number_text(
            GOBAN_SIZE - (upto - 1),
        ) + "\n"@
    }
}

/// The board as it is drawn: the rows from the top, then the column letters.
pub open spec fn rendered(board: GobanView) -> Seq<char> {
    rows_text(board, GOBAN_SIZE as int) + "A B C D E F G H I J K L M N O P Q R S\n"@
}

/// The text of a digit.
pub(crate) fn digit_str(digit: usize) -> (text: &'static str)
    requires
        digit < 10,
    ensures
        text@ == digit_text(digit as int),
{
    match digit {
        0 => "0",
        1 => "1",
        2 => "2",
        3 => "3",
        4 => "4",
        5 => "5",
        6 => "6",
        7 => "7",
        8 => "8",
        _ => "9",
    }
}

} // verus!
