//! Five in a row decides a position: the law that ties the evaluator's
//! verdicts to the stones on the board.

use vstd::prelude::*;
use crate::axis_scan::{
    cell_step, line_axes, line_scanned, line_start, scanned, summed, threat_evaluation,
    axis_evaluation, AxisScan, LINE_SLOTS,
};
use crate::bits::any_set;
use crate::evaluator::Eval;
use crate::goban::{is_cell, Direction, GOBAN_SIZE};
use crate::threat::Threat;
use crate::windows::{
    classify_seven, classify_six, lemma_count_full, lemma_window_shrinks, longest_window,
    side_threat, window_on_board, window_shape,
};

verus! {

/// Whether `stones` hold the five cells from bit `index` along `axis`, all
/// of them on the board.
pub open spec fn five_at(stones: Set<int>, index: int, axis: Direction) -> bool {
    &&& window_on_board(index, axis, 5)
    &&& forall|k: int| 0 <= k < 5 ==> stones.contains(#[trigger] (index + k * axis.spec_offset()))
}

/// Whether `stones` hold five cells in a row along one of the four line axes.
pub open spec fn has_five(stones: Set<int>) -> bool {
    exists|index: int, turn: int| 0 <= turn < 4 && #[trigger] five_at(stones, index, line_axes()[turn])
}

/// A side is found to have five in a row in a window exactly where it holds
/// the window's first five cells and the other side none of them.
proof fn lemma_side_five(own: Seq<bool>, other: Seq<bool>, len: int)
    requires
        5 <= len <= 7,
    ensures
        side_threat(own, other, len) == Some(Threat::Five) <==> {
            &&& forall|k: int| 0 <= k < 5 ==> own[k]
            &&& forall|k: int| 0 <= k < 5 ==> !other[k]
        },
{
    reveal_with_fuel(side_threat, 4);
    lemma_count_full(own, 5);
    let full = forall|k: int| 0 <= k < 5 ==> own[k];
    let free = forall|k: int| 0 <= k < 5 ==> !other[k];
    assert(free <==> !any_set(other, 5));
    if full {
        assert(own[0]);
        assert(classify_six(own) is None);
        assert(classify_seven(own) is None);
    }
}

/// A side that holds the first cell of a window makes the other side's
/// search of the window come up empty.
proof fn lemma_blocked(own: Seq<bool>, other: Seq<bool>, len: int)
    requires
        5 <= len <= 7,
        other[0],
    ensures
        side_threat(own, other, len) is None,
{
    reveal_with_fuel(side_threat, 4);
    assert(any_set(other, 5));
    assert(any_set(other, 6));
    assert(any_set(other, 7));
}

/// A verdict at a cell stems from five in a row from that cell: of the
/// evaluated side where it is won, of the other side where it is lost.
proof fn lemma_cell_verdict_sound(
    scan: AxisScan,
    own: Set<int>,
    opp: Set<int>,
    index: int,
    axis: Direction,
)
    requires
        scan.verdict is None,
    ensures
        match cell_step(scan, own, opp, index, axis).verdict {
            Some(Eval::Won) => five_at(own, index, axis),
            Some(Eval::Lost) => five_at(opp, index, axis),
            Some(Eval::Score(_)) => false,
            None => true,
        },
{
    match longest_window(index, axis) {
        Some(len) => {
            let mine = window_shape(own, index, axis, len);
            let theirs = window_shape(opp, index, axis, len);
            lemma_window_shrinks(index, axis, 5, len);
            lemma_side_five(mine, theirs, len);
            lemma_side_five(theirs, mine, len);
            if side_threat(mine, theirs, len) == Some(Threat::Five) {
                assert forall|k: int| 0 <= k < 5 implies own.contains(
                    #[trigger] (index + k * axis.spec_offset()),
                ) by {
                    assert(mine[k]);
                }
            } else if side_threat(theirs, mine, len) == Some(Threat::Five) {
                assert forall|k: int| 0 <= k < 5 implies opp.contains(
                    #[trigger] (index + k * axis.spec_offset()),
                ) by {
                    assert(theirs[k]);
                }
            }
        },
        None => {},
    }
}

/// Five in a row of either side from a cell gives a verdict at that cell.
proof fn lemma_cell_verdict_complete(
    scan: AxisScan,
    own: Set<int>,
    opp: Set<int>,
    index: int,
    axis: Direction,
)
    requires
        own.disjoint(opp),
        scan.verdict is None,
        five_at(own, index, axis) || five_at(opp, index, axis),
    ensures
        cell_step(scan, own, opp, index, axis).verdict is Some,
{
    let len = longest_window(index, axis).unwrap();
    let mine = window_shape(own, index, axis, len);
    let theirs = window_shape(opp, index, axis, len);
    lemma_side_five(mine, theirs, len);
    lemma_side_five(theirs, mine, len);
    if five_at(own, index, axis) {
        assert forall|k: int| 0 <= k < 5 implies mine[k] && !theirs[k] by {
            assert(own.contains(index + k * axis.spec_offset()));
        }
    } else {
        assert forall|k: int| 0 <= k < 5 implies theirs[k] && !mine[k] by {
            assert(opp.contains(index + k * axis.spec_offset()));
        }
        lemma_blocked(mine, theirs, len);
    }
}

/// A verdict of a line stems from five in a row along the axis.
proof fn lemma_line_verdict_sound(
    scan: AxisScan,
    own: Set<int>,
    opp: Set<int>,
    start: int,
    axis: Direction,
    upto: int,
)
    requires
        scan.verdict is None,
    ensures
        match line_scanned(scan, own, opp, start, axis, upto).verdict {
            Some(Eval::Won) => exists|index: int| #[trigger] five_at(own, index, axis),
            Some(Eval::Lost) => exists|index: int| #[trigger] five_at(opp, index, axis),
            Some(Eval::Score(_)) => false,
            None => true,
        },
    decreases upto,
{
    if upto > 0 {
        lemma_line_verdict_sound(scan, own, opp, start, axis, upto - 1);
        let before = line_scanned(scan, own, opp, start, axis, upto - 1);
        if before.verdict is None && window_on_board(start, axis, upto) {
            let index = start + (upto - 1) * axis.spec_offset();
            lemma_cell_verdict_sound(before, own, opp, index, axis);
            let after = cell_step(before, own, opp, index, axis);
            if after.verdict == Some(Eval::Won) {
                assert(five_at(own, index, axis));
            }
            if after.verdict == Some(Eval::Lost) {
                assert(five_at(opp, index, axis));
            }
        }
    }
}

/// Once the scan of a line has passed a cell from which either side has
/// five in a row, it has a verdict.
proof fn lemma_line_verdict_complete(
    scan: AxisScan,
    own: Set<int>,
    opp: Set<int>,
    start: int,
    axis: Direction,
    step: int,
    upto: int,
)
    requires
        own.disjoint(opp),
        0 <= step < upto,
        window_on_board(start, axis, step + 1),
        five_at(own, start + step * axis.spec_offset(), axis) || five_at(
            opp,
            start + step * axis.spec_offset(),
            axis,
        ),
    ensures
        line_scanned(scan, own, opp, start, axis, upto).verdict is Some,
    decreases upto,
{
    if step < upto - 1 {
        lemma_line_verdict_complete(scan, own, opp, start, axis, step, upto - 1);
    } else {
        let before = line_scanned(scan, own, opp, start, axis, step);
        if before.verdict is None {
            lemma_cell_verdict_complete(before, own, opp, start + step * axis.spec_offset(), axis);
        }
    }
}

/// A verdict of an axis stems from five in a row along the axis.
proof fn lemma_verdict_sound(own: Set<int>, opp: Set<int>, axis: Direction, upto: int)
    ensures
        match scanned(own, opp, axis, upto).verdict {
            Some(Eval::Won) => exists|index: int| #[trigger] five_at(own, index, axis),
            Some(Eval::Lost) => exists|index: int| #[trigger] five_at(opp, index, axis),
            Some(Eval::Score(_)) => false,
            None => true,
        },
    decreases upto,
{
    if upto > 0 {
        lemma_verdict_sound(own, opp, axis, upto - 1);
        let before = scanned(own, opp, axis, upto - 1);
        if before.verdict is None {
            match line_start(axis, upto - 1) {
                Some(start) => {
                    lemma_line_verdict_sound(
                        AxisScan { strongest: None, quiet: true, ..before },
                        own,
                        opp,
                        start,
                        axis,
                        GOBAN_SIZE as int,
                    );
                },
                None => {},
            }
        }
    }
}

/// Once the scan of an axis has passed a line with a cell from which either
/// side has five in a row, it has a verdict.
proof fn lemma_verdict_complete(
    own: Set<int>,
    opp: Set<int>,
    axis: Direction,
    line: int,
    step: int,
    upto: int,
)
    requires
        own.disjoint(opp),
        0 <= line < upto,
        0 <= step < GOBAN_SIZE,
        line_start(axis, line) is Some,
        window_on_board(line_start(axis, line).unwrap(), axis, step + 1),
        five_at(own, line_start(axis, line).unwrap() + step * axis.spec_offset(), axis) || five_at(
            opp,
            line_start(axis, line).unwrap() + step * axis.spec_offset(),
            axis,
        ),
    ensures
        scanned(own, opp, axis, upto).verdict is Some,
    decreases upto,
{
    if line < upto - 1 {
        lemma_verdict_complete(own, opp, axis, line, step, upto - 1);
    } else {
        let before = scanned(own, opp, axis, line);
        if before.verdict is None {
            lemma_line_verdict_complete(
                AxisScan { strongest: None, quiet: true, ..before },
                own,
                opp,
                line_start(axis, line).unwrap(),
                axis,
                step,
                GOBAN_SIZE as int,
            );
        }
    }
}

/// Every cell lies on one of the lines of an axis: the line it is on, and
/// how many steps from the line's first cell.
proof fn lemma_cell_on_line(index: int, axis: Direction) -> (place: (int, int))
    requires
        is_cell(index),
    ensures
        0 <= place.0 < LINE_SLOTS,
        0 <= place.1 < GOBAN_SIZE,
        line_start(axis, place.0) is Some,
        index == line_start(axis, place.0).unwrap() + place.1 * axis.spec_offset(),
        window_on_board(line_start(axis, place.0).unwrap(), axis, place.1 + 1),
{
    let dr = axis.row_step();
    let dc = axis.col_step();
    let row = index / 20;
    let col = index % 20;
    let by_row = if dr == 1 { row } else if dr == -1 { 18 - row } else { 19 };
    let by_col = if dc == 1 { col } else if dc == -1 { 18 - col } else { 19 };
    let back = if by_row <= by_col { by_row } else { by_col };
    assert(back * dr == if dr == 1 { back } else if dr == 0 { 0 } else { -back }) by (nonlinear_arith)
        requires
            dr == 1 || dr == 0 || dr == -1,
    ;
    assert(back * dc == if dc == 1 { back } else if dc == 0 { 0 } else { -back }) by (nonlinear_arith)
        requires
            dc == 1 || dc == 0 || dc == -1,
    ;
    let first_row = row - back * dr;
    let first_col = col - back * dc;
    let line = if by_row <= by_col { first_col } else { 19 + first_row };
    let start = first_row * 20 + first_col;
    assert(line_start(axis, line) == Some(start));
    assert(back * axis.spec_offset() == 20 * (back * dr) + back * dc) by (nonlinear_arith)
        requires
            axis.spec_offset() == 20 * dr + dc,
    ;
    assert(start / 20 == first_row && start % 20 == first_col);
    (line, back)
}

/// The verdict over the axes from `from` on is won or lost only through five
/// in a row, and is won or lost where one of those axes shows five in a row.
proof fn lemma_summed_five(own: Set<int>, opp: Set<int>, from: int, total: int)
    requires
        own.disjoint(opp),
        0 <= from <= 4,
    ensures
        summed(own, opp, from, total) == Eval::Won ==> has_five(own),
        summed(own, opp, from, total) == Eval::Lost ==> has_five(opp),
        forall|index: int, turn: int|
            from <= turn < 4 && #[trigger] five_at(own, index, line_axes()[turn]) ==> !(summed(
                own,
                opp,
                from,
                total,
            ) is Score),
        forall|index: int, turn: int|
            from <= turn < 4 && #[trigger] five_at(opp, index, line_axes()[turn]) ==> !(summed(
                own,
                opp,
                from,
                total,
            ) is Score),
    decreases 4 - from,
{
    if from < 4 {
        let axis = line_axes()[from];
        lemma_verdict_sound(own, opp, axis, LINE_SLOTS as int);
        let end = scanned(own, opp, axis, LINE_SLOTS as int);
        if end.verdict == Some(Eval::Won) {
            let index = choose|index: int| #[trigger] five_at(own, index, axis);
            assert(five_at(own, index, line_axes()[from]));
        }
        if end.verdict == Some(Eval::Lost) {
            let index = choose|index: int| #[trigger] five_at(opp, index, axis);
            assert(five_at(opp, index, line_axes()[from]));
        }
        match axis_evaluation(own, opp, axis) {
            Eval::Score(score) => {
                lemma_summed_five(own, opp, from + 1, total + score);
                assert forall|index: int, turn: int|
                    from <= turn < 4 && #[trigger] five_at(
                        own,
                        index,
                        line_axes()[turn],
                    ) implies !(summed(own, opp, from, total) is Score) by {
                    if turn == from {
                        let (line, step) = lemma_cell_on_line(index, axis);
                        lemma_verdict_complete(own, opp, axis, line, step, LINE_SLOTS as int);
                    }
                }
                assert forall|index: int, turn: int|
                    from <= turn < 4 && #[trigger] five_at(
                        opp,
                        index,
                        line_axes()[turn],
                    ) implies !(summed(own, opp, from, total) is Score) by {
                    if turn == from {
                        let (line, step) = lemma_cell_on_line(index, axis);
                        lemma_verdict_complete(own, opp, axis, line, step, LINE_SLOTS as int);
                    }
                }
            },
            _ => {},
        }
    }
}

/// Five in a row decides the verdict, whichever axis it lies on and
/// whichever side holds it. A position is won only if the evaluated side has
/// five in a row, lost only if the other side has, and it is one of the two
/// as soon as either side has. So where only the evaluated side has five in
/// a row the position is won, where only the other side has it is lost, and
/// where neither has it has a score.
pub proof fn lemma_five_decides(own: Set<int>, opp: Set<int>)
    requires
        own.disjoint(opp),
    ensures
        threat_evaluation(own, opp) == Eval::Won ==> has_five(own),
        threat_evaluation(own, opp) == Eval::Lost ==> has_five(opp),
        has_five(own) || has_five(opp) ==> !(threat_evaluation(own, opp) is Score),
        has_five(own) && !has_five(opp) ==> threat_evaluation(own, opp) == Eval::Won,
        has_five(opp) && !has_five(own) ==> threat_evaluation(own, opp) == Eval::Lost,
        !has_five(own) && !has_five(opp) ==> threat_evaluation(own, opp) is Score,
{
    lemma_summed_five(own, opp, 0, 0);
    if has_five(own) {
        let (index, turn) = choose|index: int, turn: int|
            0 <= turn < 4 && #[trigger] five_at(own, index, line_axes()[turn]);
        assert(five_at(own, index, line_axes()[turn]));
    }
    if has_five(opp) {
        let (index, turn) = choose|index: int, turn: int|
            0 <= turn < 4 && #[trigger] five_at(opp, index, line_axes()[turn]);
        assert(five_at(opp, index, line_axes()[turn]));
    }
}

} // verus!
