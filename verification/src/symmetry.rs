//! The evaluation seen from the other side: the same verdict with the sign
//! turned.

use vstd::prelude::*;
use crate::axis_scan::{
    axis_evaluation, cell_step, lemma_scan_score_bounded, line_axes, line_scanned, line_start,
    scanned, summed, threat_evaluation, window_step, AxisScan, LINE_SLOTS,
};
use crate::bits::{any_set, count_set};
use crate::evaluator::Eval;
use crate::goban::{Direction, GOBAN_SIZE};
use crate::windows::{
    classify, lemma_count_full, longest_window, matched, side_threat, window_shape,
};

verus! {

/// A verdict seen from the other side: won for lost, lost for won, and a
/// score with its sign turned.
pub open spec fn turned(eval: Eval) -> Eval {
    match eval {
        Eval::Won => Eval::Lost,
        Eval::Lost => Eval::Won,
        Eval::Score(score) => Eval::Score((-score) as isize),
    }
}

/// A scan seen from the other side.
pub open spec fn mirrored(scan: AxisScan) -> AxisScan {
    AxisScan {
        score: -scan.score,
        strongest: match scan.strongest {
            Some((threat, is_player)) => Some((threat, !is_player)),
            None => None,
        },
        quiet: scan.quiet,
        verdict: match scan.verdict {
            Some(Eval::Won) => Some(Eval::Lost),
            Some(Eval::Lost) => Some(Eval::Won),
            other => other,
        },
    }
}

/// A shape that forms a threat has a stone among its first five cells.
proof fn lemma_threat_has_stone(shape: Seq<bool>, len: int)
    requires
        5 <= len <= 7,
        classify(shape, len) is Some,
    ensures
        any_set(shape, 5),
{
    if len == 5 {
        lemma_count_full(shape, 5);
        if !any_set(shape, 5) {
            lemma_count_empty(shape, 5);
        }
    } else {
        assert(shape[1] || shape[2]);
        let at: int = if shape[1] {
            1
        } else {
            2
        };
        assert(0 <= at < 5 && shape[at]);
    }
}

/// Where none of the first `len` cells is set, none is counted.
proof fn lemma_count_empty(shape: Seq<bool>, len: nat)
    requires
        !any_set(shape, len),
    ensures
        count_set(shape, len) == 0,
    decreases len,
{
    if len > 0 {
        assert(!shape[len - 1]);
        assert(!any_set(shape, (len - 1) as nat)) by {
            if any_set(shape, (len - 1) as nat) {
                let i = choose|i: int| 0 <= i < len - 1 && shape[i];
                assert(0 <= i < len && shape[i]);
            }
        }
        lemma_count_empty(shape, (len - 1) as nat);
    }
}

/// In a window, at most one side shows a threat.
proof fn lemma_one_side_at_most(mine: Seq<bool>, theirs: Seq<bool>, len: int)
    requires
        5 <= len <= 7,
    ensures
        side_threat(mine, theirs, len) is Some ==> side_threat(theirs, mine, len) is None,
{
    reveal_with_fuel(side_threat, 4);
    if side_threat(mine, theirs, len) is Some {
        let found = if matched(mine, theirs, len) is Some {
            len
        } else if len > 5 && matched(mine, theirs, len - 1) is Some {
            len - 1
        } else if len > 6 && matched(mine, theirs, len - 2) is Some {
            len - 2
        } else {
            5
        };
        assert(matched(mine, theirs, found) is Some);
        lemma_threat_has_stone(mine, found);
        let i = choose|i: int| 0 <= i < 5 && mine[i];
        assert(any_set(mine, 5)) by {
            assert(0 <= i < 5 && mine[i]);
        }
        assert(any_set(mine, 6)) by {
            assert(0 <= i < 6 && mine[i]);
        }
        assert(any_set(mine, 7)) by {
            assert(0 <= i < 7 && mine[i]);
        }
    }
}

/// A window seen from the other side gives the mirrored scan.
proof fn lemma_window_mirrored(
    scan: AxisScan,
    own: Set<int>,
    opp: Set<int>,
    index: int,
    axis: Direction,
    len: int,
)
    requires
        5 <= len <= 7,
        scan.verdict is None,
    ensures
        window_step(mirrored(scan), opp, own, index, axis, len) == mirrored(
            window_step(scan, own, opp, index, axis, len),
        ),
{
    let mine = window_shape(own, index, axis, len);
    let theirs = window_shape(opp, index, axis, len);
    lemma_one_side_at_most(mine, theirs, len);
    lemma_one_side_at_most(theirs, mine, len);
}

/// A cell seen from the other side gives the mirrored scan.
proof fn lemma_cell_mirrored(
    scan: AxisScan,
    own: Set<int>,
    opp: Set<int>,
    index: int,
    axis: Direction,
)
    requires
        scan.verdict is None,
    ensures
        cell_step(mirrored(scan), opp, own, index, axis) == mirrored(
            cell_step(scan, own, opp, index, axis),
        ),
{
    match longest_window(index, axis) {
        Some(len) => lemma_window_mirrored(scan, own, opp, index, axis, len),
        None => {},
    }
}

/// A line seen from the other side gives the mirrored scan.
proof fn lemma_line_mirrored(
    scan: AxisScan,
    own: Set<int>,
    opp: Set<int>,
    start: int,
    axis: Direction,
    upto: int,
)
    ensures
        line_scanned(mirrored(scan), opp, own, start, axis, upto) == mirrored(
            line_scanned(scan, own, opp, start, axis, upto),
        ),
    decreases upto,
{
    if upto > 0 {
        lemma_line_mirrored(scan, own, opp, start, axis, upto - 1);
        let before = line_scanned(scan, own, opp, start, axis, upto - 1);
        if before.verdict is None {
            lemma_cell_mirrored(before, own, opp, start + (upto - 1) * axis.spec_offset(), axis);
        }
    }
}

/// An axis seen from the other side gives the mirrored scan.
proof fn lemma_scan_mirrored(own: Set<int>, opp: Set<int>, axis: Direction, upto: int)
    ensures
        scanned(opp, own, axis, upto) == mirrored(scanned(own, opp, axis, upto)),
    decreases upto,
{
    if upto > 0 {
        lemma_scan_mirrored(own, opp, axis, upto - 1);
        let before = scanned(own, opp, axis, upto - 1);
        if before.verdict is None {
            match line_start(axis, upto - 1) {
                Some(start) => {
                    lemma_line_mirrored(
                        AxisScan { strongest: None, quiet: true, ..before },
                        own,
                        opp,
                        start,
                        axis,
                        GOBAN_SIZE as int,
                    );
                },
                None => {},
            }
        }
    }
}

/// The verdict of an axis seen from the other side.
proof fn lemma_axis_turned(own: Set<int>, opp: Set<int>, axis: Direction)
    ensures
        axis_evaluation(opp, own, axis) == turned(axis_evaluation(own, opp, axis)),
        match axis_evaluation(own, opp, axis) {
            Eval::Score(score) => -380_000_000 <= score <= 380_000_000,
            _ => true,
        },
{
    assert(isize::MAX >= 0x7fff_ffff && isize::MIN <= -0x7fff_ffff);
    lemma_scan_mirrored(own, opp, axis, LINE_SLOTS as int);
    lemma_scan_score_bounded(own, opp, axis, LINE_SLOTS as int);
}

/// The verdict over the axes from `from` on, seen from the other side.
proof fn lemma_summed_turned(own: Set<int>, opp: Set<int>, from: int, total: int)
    requires
        0 <= from <= 4,
        -380_000_000 * from <= total <= 380_000_000 * from,
    ensures
        summed(opp, own, from, -total) == turned(summed(own, opp, from, total)),
    decreases 4 - from,
{
    assert(isize::MAX >= 0x7fff_ffff && isize::MIN <= -0x7fff_ffff);
    if from < 4 {
        let axis = line_axes()[from];
        lemma_axis_turned(own, opp, axis);
        match axis_evaluation(own, opp, axis) {
            Eval::Score(score) => {
                lemma_summed_turned(own, opp, from + 1, total + score);
                assert(-total + (-score) == -(total + score));
            },
            _ => {},
        }
    }
}

/// The evaluation is the same from either side, with the sign turned: what
/// is won for one side is lost for the other, and a score for one side is
/// its negative for the other.
pub proof fn lemma_evaluation_turns(own: Set<int>, opp: Set<int>)
    ensures
        threat_evaluation(opp, own) == turned(threat_evaluation(own, opp)),
{
    lemma_summed_turned(own, opp, 0, 0);
}

} // verus!
