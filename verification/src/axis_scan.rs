//! The scan of the board along an axis, as a mathematical model: what a
//! position scores and when it is decided.

use vstd::prelude::*;
use crate::evaluator::Eval;
use crate::goban::{Direction, GOBAN_SIZE, ROW_STRIDE};
use crate::threat::Threat;
use crate::windows::{
    lemma_window_shrinks, longest_window, side_threat, window_on_board, window_shape,
};

verus! {

/// Lines that are tried along an axis: one for each cell of the row and of
/// the column through which lines enter the board.
pub const LINE_SLOTS: usize = 38;

/// The state of a scan along one axis.
pub struct AxisScan {
    /// Sum of the weights of the runs that have ended, the other side's
    /// counted negative.
    pub score: int,
    /// The strongest threat of the run in progress, and whether it is the
    /// evaluated side's.
    pub strongest: Option<(Threat, bool)>,
    /// Whether the last window examined showed no threat.
    pub quiet: bool,
    /// Set once five in a row has been seen.
    pub verdict: Option<Eval>,
}

/// The stronger of a run's strongest threat so far and a new one, each with
/// its side. The new one is kept on a tie.
pub open spec fn stronger(current: Option<(Threat, bool)>, new: (Threat, bool)) -> (Threat, bool) {
    match current {
        None => new,
        Some(old) => if old.0.outranks(new.0) {
            old
        } else {
            new
        },
    }
}

/// Takes one side's finding in a window into the scan.
pub open spec fn side_step(scan: AxisScan, found: Option<Threat>, is_player: bool) -> AxisScan {
    match found {
        None => scan,
        Some(Threat::Five) => AxisScan {
            verdict: Some(
                if is_player {
                    Eval::Won
                } else {
                    Eval::Lost
                },
            ),
            ..scan
        },
        Some(threat) => AxisScan {
            quiet: false,
            strongest: Some(stronger(scan.strongest, (threat, is_player))),
            ..scan
        },
    }
}

/// Takes the window of `len` cells at `index` into the scan: the evaluated
/// side's finding first, then the other side's.
pub open spec fn window_step(
    scan: AxisScan,
    own: Set<int>,
    opp: Set<int>,
    index: int,
    axis: Direction,
    len: int,
) -> AxisScan {
    let mine = window_shape(own, index, axis, len);
    let theirs = window_shape(opp, index, axis, len);
    let first = side_step(AxisScan { quiet: true, ..scan }, side_threat(mine, theirs, len), true);
    if first.verdict is Some {
        first
    } else {
        side_step(first, side_threat(theirs, mine, len), false)
    }
}

/// Ends the run in progress: its strongest threat is added to the score if
/// it is the evaluated side's, and subtracted if it is the other side's.
pub open spec fn flushed(scan: AxisScan) -> AxisScan {
    match scan.strongest {
        Some((threat, is_player)) => AxisScan {
            score: if is_player {
                scan.score + threat.weight()
            } else {
                scan.score - threat.weight()
            },
            strongest: None,
            ..scan
        },
        None => scan,
    }
}

/// The row of the cells through which the lines of a direction enter the
/// board from above or below, for a direction that changes the row.
pub open spec fn entry_row(axis: Direction) -> int {
    if axis.row_step() == 1 {
        0
    } else {
        GOBAN_SIZE - 1
    }
}

/// The column of the cells through which the lines of a direction enter the
/// board from a side, for a direction that changes the column.
pub open spec fn entry_col(axis: Direction) -> int {
    if axis.col_step() == 1 {
        0
    } else {
        GOBAN_SIZE - 1
    }
}

/// The bit of the first cell of line `line` along `axis`. The first 19 lines
/// enter through a row, for a direction that changes the row; the others
/// enter through a column, for a direction that changes the column. A line
/// that enters through the corner is counted with the first.
pub open spec fn line_start(axis: Direction, line: int) -> Option<int> {
    if 0 <= line < GOBAN_SIZE {
        if axis.row_step() != 0 {
            Some(entry_row(axis) * ROW_STRIDE + line)
        } else {
            None
        }
    } else if GOBAN_SIZE <= line < LINE_SLOTS {
        if axis.col_step() != 0 && !(axis.row_step() != 0 && line - GOBAN_SIZE == entry_row(axis)) {
            Some((line - GOBAN_SIZE) * ROW_STRIDE + entry_col(axis))
        } else {
            None
        }
    } else {
        None
    }
}

/// Takes the cell at bit `index` into the scan: the longest window from the
/// cell that lies on the board is examined, and a run of threats ends at a
/// window without one.
pub open spec fn cell_step(
    scan: AxisScan,
    own: Set<int>,
    opp: Set<int>,
    index: int,
    axis: Direction,
) -> AxisScan {
    let seen = match longest_window(index, axis) {
        Some(len) => window_step(scan, own, opp, index, axis, len),
        None => scan,
    };
    if seen.verdict is None && seen.quiet {
        flushed(seen)
    } else {
        seen
    }
}

/// One step of the scan of a line: cell `step` of the line from `start`
/// along `axis`. Nothing happens past the line's end, nor once five in a row
/// has been seen.
pub open spec fn line_step(
    scan: AxisScan,
    own: Set<int>,
    opp: Set<int>,
    start: int,
    axis: Direction,
    step: int,
) -> AxisScan {
    if scan.verdict is Some || !window_on_board(start, axis, step + 1) {
        scan
    } else {
        cell_step(scan, own, opp, start + step * axis.spec_offset(), axis)
    }
}

/// The scan of a line after its first `upto` cells.
pub open spec fn line_scanned(
    scan: AxisScan,
    own: Set<int>,
    opp: Set<int>,
    start: int,
    axis: Direction,
    upto: int,
) -> AxisScan
    decreases upto,
{
    if upto <= 0 {
        scan
    } else {
        line_step(line_scanned(scan, own, opp, start, axis, upto - 1), own, opp, start, axis, upto - 1)
    }
}

/// The scan after a whole line: the run in progress at its end is ended.
pub open spec fn line_done(
    scan: AxisScan,
    own: Set<int>,
    opp: Set<int>,
    start: int,
    axis: Direction,
) -> AxisScan {
    let end = line_scanned(
        AxisScan { strongest: None, quiet: true, ..scan },
        own,
        opp,
        start,
        axis,
        GOBAN_SIZE as int,
    );
    if end.verdict is Some {
        end
    } else {
        AxisScan { quiet: true, ..flushed(end) }
    }
}

/// The scan of an axis after its first `upto` lines.
pub open spec fn scanned(own: Set<int>, opp: Set<int>, axis: Direction, upto: int) -> AxisScan
    decreases upto,
{
    if upto <= 0 {
        AxisScan { score: 0, strongest: None, quiet: true, verdict: None }
    } else {
        let before = scanned(own, opp, axis, upto - 1);
        if before.verdict is Some {
            before
        } else {
            match line_start(axis, upto - 1) {
                Some(start) => line_done(before, own, opp, start, axis),
                None => before,
            }
        }
    }
}

/// The verdict of one axis: won or lost if five in a row was seen, else the
/// sum over the lines of the axis, and over the runs of threats along each
/// line, of the weight of each run's strongest threat.
pub open spec fn axis_evaluation(own: Set<int>, opp: Set<int>, axis: Direction) -> Eval {
    let end = scanned(own, opp, axis, LINE_SLOTS as int);
    match end.verdict {
        Some(verdict) => verdict,
        None => Eval::Score(end.score as isize),
    }
}

/// The four line axes, in the order in which they are scanned.
pub open spec fn line_axes() -> Seq<Direction> {
    seq![Direction::East, Direction::South, Direction::SouthWest, Direction::SouthEast]
}

/// The verdict over the axes from `from` on, given the score of those before:
/// the first axis that sees five in a row decides, else the scores add up.
pub open spec fn summed(own: Set<int>, opp: Set<int>, from: int, total: int) -> Eval
    decreases line_axes().len() - from,
{
    if from < 0 || from >= line_axes().len() {
        Eval::Score(total as isize)
    } else {
        match axis_evaluation(own, opp, line_axes()[from]) {
            Eval::Score(score) => summed(own, opp, from + 1, total + score),
            verdict => verdict,
        }
    }
}

/// The verdict of the threat evaluator on a position.
pub open spec fn threat_evaluation(own: Set<int>, opp: Set<int>) -> Eval {
    summed(own, opp, 0, 0)
}

/// A bound on the score, in magnitude, that one axis can reach: the
/// heaviest weight at each cell and at the end of each line.
pub const AXIS_LIMIT: isize = 380_000_000;

/// A bound on the score, in magnitude, that a position can reach.
pub const SCORE_LIMIT: isize = 1_520_000_000;

/// Whether a verdict's score, if it has one, is at most [`SCORE_LIMIT`] in
/// magnitude.
pub open spec fn within_limit(eval: Eval) -> bool {
    match eval {
        Eval::Score(score) => -SCORE_LIMIT <= score <= SCORE_LIMIT,
        _ => true,
    }
}

/// Once five in a row has been seen, the rest of a line changes nothing.
pub proof fn lemma_line_verdict_stays(
    scan: AxisScan,
    own: Set<int>,
    opp: Set<int>,
    start: int,
    axis: Direction,
    from: int,
    to: int,
)
    requires
        from <= to,
        line_scanned(scan, own, opp, start, axis, from).verdict is Some,
    ensures
        line_scanned(scan, own, opp, start, axis, to) == line_scanned(
            scan,
            own,
            opp,
            start,
            axis,
            from,
        ),
    decreases to - from,
{
    if from < to {
        lemma_line_verdict_stays(scan, own, opp, start, axis, from, to - 1);
    }
}

/// Past the end of a line the scan changes nothing.
pub proof fn lemma_line_ends(
    scan: AxisScan,
    own: Set<int>,
    opp: Set<int>,
    start: int,
    axis: Direction,
    from: int,
    to: int,
)
    requires
        0 <= from <= to,
        from < to ==> !window_on_board(start, axis, from + 1),
    ensures
        line_scanned(scan, own, opp, start, axis, to) == line_scanned(
            scan,
            own,
            opp,
            start,
            axis,
            from,
        ),
    decreases to - from,
{
    if from < to {
        lemma_window_shrinks(start, axis, from + 1, to);
        if from < to - 1 {
            lemma_line_ends(scan, own, opp, start, axis, from, to - 1);
        }
    }
}

/// Once five in a row has been seen, the rest of the axis changes nothing.
pub proof fn lemma_verdict_stays(own: Set<int>, opp: Set<int>, axis: Direction, from: int, to: int)
    requires
        from <= to,
        scanned(own, opp, axis, from).verdict is Some,
    ensures
        scanned(own, opp, axis, to) == scanned(own, opp, axis, from),
    decreases to - from,
{
    if from < to {
        lemma_verdict_stays(own, opp, axis, from, to - 1);
    }
}

/// Each step of a line changes the score by the heaviest weight at most,
/// and a verdict, if any, is won or lost.
pub proof fn lemma_line_score_bounded(
    scan: AxisScan,
    own: Set<int>,
    opp: Set<int>,
    start: int,
    axis: Direction,
    upto: int,
)
    requires
        0 <= upto,
        scan.verdict is None,
        scan.strongest is None,
    ensures
        scan.score - 500000 * upto <= line_scanned(scan, own, opp, start, axis, upto).score
            <= scan.score + 500000 * upto,
        line_scanned(scan, own, opp, start, axis, upto).verdict matches Some(verdict) ==> verdict
            == Eval::Won || verdict == Eval::Lost,
        line_scanned(scan, own, opp, start, axis, upto).strongest matches Some(pair) ==> pair.0
            != Threat::Five,
    decreases upto,
{
    if upto > 0 {
        lemma_line_score_bounded(scan, own, opp, start, axis, upto - 1);
    }
}

/// Each line changes the score by twenty times the heaviest weight at most.
pub proof fn lemma_scan_score_bounded(own: Set<int>, opp: Set<int>, axis: Direction, upto: int)
    requires
        0 <= upto,
    ensures
        -10_000_000 * upto <= scanned(own, opp, axis, upto).score <= 10_000_000 * upto,
        scanned(own, opp, axis, upto).verdict matches Some(verdict) ==> verdict == Eval::Won
            || verdict == Eval::Lost,
        scanned(own, opp, axis, upto).verdict is None ==> scanned(own, opp, axis, upto).strongest
            is None && scanned(own, opp, axis, upto).quiet,
    decreases upto,
{
    if upto > 0 {
        lemma_scan_score_bounded(own, opp, axis, upto - 1);
        let before = scanned(own, opp, axis, upto - 1);
        if before.verdict is None {
            match line_start(axis, upto - 1) {
                Some(start) => {
                    lemma_line_score_bounded(
                        AxisScan { strongest: None, quiet: true, ..before },
                        own,
                        opp,
                        start,
                        axis,
                        GOBAN_SIZE as int,
                    );
                },
                None => {},
            }
        }
    }
}

/// The score of an axis is at most [`AXIS_LIMIT`], in magnitude.
pub proof fn lemma_axis_score_bounded(own: Set<int>, opp: Set<int>, axis: Direction)
    ensures
        match axis_evaluation(own, opp, axis) {
            Eval::Score(score) => -AXIS_LIMIT <= score <= AXIS_LIMIT,
            _ => true,
        },
{
    lemma_scan_score_bounded(own, opp, axis, LINE_SLOTS as int);
}

/// The verdict over the axes from `from` on stays within the limit of one
/// axis for each axis scanned.
proof fn lemma_summed_bounded(own: Set<int>, opp: Set<int>, from: int, total: int)
    requires
        0 <= from <= 4,
        -380_000_000 * from <= total <= 380_000_000 * from,
    ensures
        within_limit(summed(own, opp, from, total)),
    decreases 4 - from,
{
    if from < 4 {
        lemma_axis_score_bounded(own, opp, line_axes()[from]);
        match axis_evaluation(own, opp, line_axes()[from]) {
            Eval::Score(score) => {
                lemma_summed_bounded(own, opp, from + 1, total + score);
            },
            _ => {},
        }
    }
}

/// The score of a position is at most [`SCORE_LIMIT`], in magnitude.
pub proof fn lemma_evaluation_bounded(own: Set<int>, opp: Set<int>)
    ensures
        within_limit(threat_evaluation(own, opp)),
{
    lemma_summed_bounded(own, opp, 0, 0);
}

} // verus!
