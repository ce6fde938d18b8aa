//! Windows: the runs of five to seven cells along a line in which threats
//! are looked for, and the shapes that count as threats.

use vstd::prelude::*;
use crate::bits::{agree, any_set, count_set};
use crate::goban::{is_cell, Direction, GOBAN_SIZE, ROW_STRIDE};
use crate::threat::Threat;

verus! {

/// Longest window that is examined.
pub const MAX_WINDOW: usize = 7;

/// Shortest window that is examined.
pub const MIN_WINDOW: usize = 5;

/// Whether the `len` cells from bit `index` along `axis` all lie on the board,
/// in one line.
pub open spec fn window_on_board(index: int, axis: Direction, len: int) -> bool {
    &&& is_cell(index)
    &&& 0 <= index / (ROW_STRIDE as int) + (len - 1) * axis.row_step() < GOBAN_SIZE
    &&& 0 <= index % (ROW_STRIDE as int) + (len - 1) * axis.col_step() < GOBAN_SIZE
}

/// The shape that `stones` show in the window of `len` cells from bit `index`
/// along `axis`: entry `k` tells whether cell `k` of the window is taken.
/// Entries from `len` on are clear.
pub open spec fn window_shape(stones: Set<int>, index: int, axis: Direction, len: int) -> Seq<
    bool,
> {
    Seq::new(8, |k: int| k < len && stones.contains(index + k * axis.spec_offset()))
}

/// The longest window from bit `index` along `axis` that lies on the board,
/// among the lengths seven, six and five.
pub open spec fn longest_window(index: int, axis: Direction) -> Option<int> {
    if window_on_board(index, axis, 7) {
        Some(7)
    } else if window_on_board(index, axis, 6) {
        Some(6)
    } else if window_on_board(index, axis, 5) {
        Some(5)
    } else {
        None
    }
}

/// Whether `shape` begins with the cells of `cells`.
pub open spec fn shows(shape: Seq<bool>, cells: Seq<bool>) -> bool {
    agree(shape, cells, cells.len())
}

/// The threat that the first seven cells of `shape` form.
pub open spec fn classify_seven(shape: Seq<bool>) -> Option<Threat> {
    if shows(shape, seq![false, false, true, true, true, false, false]) {
        Some(Threat::Three)
    } else {
        None
    }
}

/// The threat that the first six cells of `shape` form.
pub open spec fn classify_six(shape: Seq<bool>) -> Option<Threat> {
    if shows(shape, seq![false, true, true, true, true, false]) {
        Some(Threat::StraightFour)
    } else if shows(shape, seq![false, true, true, true, false, false]) || shows(
        shape,
        seq![false, false, true, true, true, false],
    ) {
        Some(Threat::Three)
    } else if shows(shape, seq![false, true, false, true, true, false]) || shows(
        shape,
        seq![false, true, true, false, true, false],
    ) {
        Some(Threat::BrokenThree)
    } else {
        None
    }
}

/// The threat that the first five cells of `shape` form: five in a row where
/// all are taken, a four where all but one are.
pub open spec fn classify_five(shape: Seq<bool>) -> Option<Threat> {
    if count_set(shape, 5) == 5 {
        Some(Threat::Five)
    } else if count_set(shape, 5) == 4 {
        Some(Threat::Four)
    } else {
        None
    }
}

/// The threat that the first `len` cells of `shape` form, for a window whose
/// cells are free of the other side's stones.
pub open spec fn classify(shape: Seq<bool>, len: int) -> Option<Threat> {
    if len == 7 {
        classify_seven(shape)
    } else if len == 6 {
        classify_six(shape)
    } else if len == 5 {
        classify_five(shape)
    } else {
        None
    }
}

/// The threat of the side with shape `own` in a window of length `len`: none
/// where the other side has a stone in the window.
pub open spec fn matched(own: Seq<bool>, other: Seq<bool>, len: int) -> Option<Threat> {
    if any_set(other, len as nat) {
        None
    } else {
        classify(own, len)
    }
}

/// The threat found for the side with shape `own` when the window lengths
/// from `len` down to five are tried in turn: that of the longest window that
/// shows one.
pub open spec fn side_threat(own: Seq<bool>, other: Seq<bool>, len: int) -> Option<Threat>
    decreases len,
{
    if len < 5 {
        None
    } else {
        match matched(own, other, len) {
            Some(threat) => Some(threat),
            None => side_threat(own, other, len - 1),
        }
    }
}

/// Each cell of a window that lies on the board is a cell of the board, one
/// step further along the axis than the cell before.
pub proof fn lemma_window_cell(index: int, axis: Direction, len: int, k: int)
    requires
        window_on_board(index, axis, len),
        0 <= k < len,
    ensures
        is_cell(index + k * axis.spec_offset()),
        (index + k * axis.spec_offset()) / (ROW_STRIDE as int) == index / (ROW_STRIDE as int) + k
            * axis.row_step(),
        (index + k * axis.spec_offset()) % (ROW_STRIDE as int) == index % (ROW_STRIDE as int) + k
            * axis.col_step(),
{
    let dr = axis.row_step();
    let dc = axis.col_step();
    let reach = len - 1;
    assert(k * dr == if dr == 1 { k } else if dr == 0 { 0 } else { -k }) by (nonlinear_arith)
        requires
            dr == 1 || dr == 0 || dr == -1,
    ;
    assert(k * dc == if dc == 1 { k } else if dc == 0 { 0 } else { -k }) by (nonlinear_arith)
        requires
            dc == 1 || dc == 0 || dc == -1,
    ;
    assert(reach * dr == if dr == 1 { reach } else if dr == 0 { 0 } else { -reach })
        by (nonlinear_arith)
        requires
            dr == 1 || dr == 0 || dr == -1,
    ;
    assert(reach * dc == if dc == 1 { reach } else if dc == 0 { 0 } else { -reach })
        by (nonlinear_arith)
        requires
            dc == 1 || dc == 0 || dc == -1,
    ;
    assert(k * (dr * 20 + dc) == 20 * (k * dr) + k * dc) by (nonlinear_arith);
    let row = index / 20;
    let col = index % 20;
    vstd::arithmetic::div_mod::lemma_fundamental_div_mod_converse(
        index + k * axis.spec_offset(),
        20,
        row + k * dr,
        col + k * dc,
    );
}

/// A window that lies on the board still does with fewer cells.
pub proof fn lemma_window_shrinks(index: int, axis: Direction, shorter: int, longer: int)
    requires
        1 <= shorter <= longer,
    ensures
        window_on_board(index, axis, longer) ==> window_on_board(index, axis, shorter),
{
    let dr = axis.row_step();
    let dc = axis.col_step();
    assert((shorter - 1) * dr == if dr == 1 {
        shorter - 1
    } else if dr == 0 {
        0
    } else {
        1 - shorter
    }) by (nonlinear_arith)
        requires
            dr == 1 || dr == 0 || dr == -1,
    ;
    assert((shorter - 1) * dc == if dc == 1 {
        shorter - 1
    } else if dc == 0 {
        0
    } else {
        1 - shorter
    }) by (nonlinear_arith)
        requires
            dc == 1 || dc == 0 || dc == -1,
    ;
    assert((longer - 1) * dr == if dr == 1 {
        longer - 1
    } else if dr == 0 {
        0
    } else {
        1 - longer
    }) by (nonlinear_arith)
        requires
            dr == 1 || dr == 0 || dr == -1,
    ;
    assert((longer - 1) * dc == if dc == 1 {
        longer - 1
    } else if dc == 0 {
        0
    } else {
        1 - longer
    }) by (nonlinear_arith)
        requires
            dc == 1 || dc == 0 || dc == -1,
    ;
}

/// Shapes that agree on their first `len` cells have as many of them set.
pub proof fn lemma_count_agrees(left: Seq<bool>, right: Seq<bool>, len: nat)
    requires
        agree(left, right, len),
    ensures
        count_set(left, len) == count_set(right, len),
    decreases len,
{
    if len > 0 {
        lemma_count_agrees(left, right, (len - 1) as nat);
    }
}

/// The classification looks at the first `len` cells only.
pub proof fn lemma_classify_agrees(left: Seq<bool>, right: Seq<bool>, len: int)
    requires
        5 <= len <= 7,
        agree(left, right, len as nat),
    ensures
        classify(left, len) == classify(right, len),
{
    if len == 5 {
        lemma_count_agrees(left, right, 5);
    }
}

/// At most `len` of the first `len` cells are set, and all of them are set
/// only where each is.
pub proof fn lemma_count_full(shape: Seq<bool>, len: nat)
    ensures
        count_set(shape, len) <= len,
        count_set(shape, len) == len <==> forall|k: int| 0 <= k < len ==> shape[k],
    decreases len,
{
    if len > 0 {
        lemma_count_full(shape, (len - 1) as nat);
    }
}

} // verus!
