//! The threat evaluator: it slides windows of five to seven cells along the
//! lines of the four axes, recognises threat shapes in them and sums their
//! weights.

use vstd::prelude::*;
use crate::axis_scan::{
    axis_evaluation, cell_step, lemma_axis_score_bounded, lemma_line_ends,
    lemma_line_verdict_stays, lemma_verdict_stays, line_axes, line_done, line_scanned,
    line_start, scanned, stronger, summed, threat_evaluation, AxisScan, LINE_SLOTS,
};
use crate::bits::{byte_value, Bitboard, Pattern};
use crate::evaluator::{Eval, Evaluator};
use crate::goban::{is_cell, Direction, BIT_SIZE, GOBAN_SIZE, ROW_STRIDE};
use crate::threat::Threat;
use crate::windows::{
    classify, classify_five, classify_seven, classify_six, lemma_classify_agrees,
    lemma_window_cell, longest_window, matched, side_threat, window_on_board, window_shape,
    MAX_WINDOW, MIN_WINDOW,
};

verus! {

/// Two extracted shapes, the evaluated side's first, and their length.
pub type PatternWithLength = (Pattern, Pattern, usize);

/// The eight bits of a byte, most significant first.
pub open spec fn bits_of_byte(byte: int) -> Seq<bool> {
    seq![
        byte / 128 % 2 == 1,
        byte / 64 % 2 == 1,
        byte / 32 % 2 == 1,
        byte / 16 % 2 == 1,
        byte / 8 % 2 == 1,
        byte / 4 % 2 == 1,
        byte / 2 % 2 == 1,
        byte % 2 == 1,
    ]
}

/// The scan of a line that has not seen five in a row.
struct Run {
    score: isize,
    strongest: Option<(Threat, bool)>,
    quiet: bool,
}

impl View for Run {
    type V = AxisScan;

    closed spec fn view(&self) -> AxisScan {
        AxisScan {
            score: self.score as int,
            strongest: self.strongest,
            quiet: self.quiet,
            verdict: None,
        }
    }
}

/// Memo of the classification of line shapes, by window length and stored
/// byte.
pub struct ThreatEvaluator {
    threat_cache: [[Option<Option<Threat>>; 256]; 3],
}

impl Evaluator for ThreatEvaluator {
    open spec fn wf(&self) -> bool {
        self.sound()
    }

    open spec fn evaluation(&self, player: Set<int>, opponent: Set<int>) -> Eval {
        threat_evaluation(player, opponent)
    }

    /// The verdict on a position: won or lost where five in a row is seen
    /// along an axis, else the sum of the scores of the four axes.
    fn evaluate(&mut self, player: &Bitboard, opponent: &Bitboard) -> (eval: Eval) {
        self.evaluate_player(player, opponent)
    }
}

/// A byte is made of its bits.
proof fn lemma_bits_of_byte(shape: Seq<bool>)
    ensures
        0 <= byte_value(shape) < 256,
        forall|i: int| 0 <= i < 8 ==> #[trigger] bits_of_byte(byte_value(shape))[i] == shape[i],
{
    let byte = byte_value(shape);
    assert(bits_of_byte(byte)[0] == shape[0]);
    assert(bits_of_byte(byte)[1] == shape[1]);
    assert(bits_of_byte(byte)[2] == shape[2]);
    assert(bits_of_byte(byte)[3] == shape[3]);
    assert(bits_of_byte(byte)[4] == shape[4]);
    assert(bits_of_byte(byte)[5] == shape[5]);
    assert(bits_of_byte(byte)[6] == shape[6]);
    assert(bits_of_byte(byte)[7] == shape[7]);
}

impl ThreatEvaluator {
    /// Every memo entry holds the classification of its shape.
    pub closed spec fn sound(&self) -> bool {
        forall|group: int, byte: int|
            0 <= group < 3 && 0 <= byte < 256 ==> match #[trigger] self.threat_cache[group][byte] {
                Some(threat) => threat == classify(bits_of_byte(byte), group + 5),
                None => true,
            }
    }

    /// An evaluator with an empty memo. The memo is cleared entry by entry.
    pub fn new() -> (evaluator: Self)
        ensures
            evaluator.sound(),
    {
        let mut evaluator = Self { threat_cache: [[None; 256]; 3] };
        let mut group: usize = 0;
        while group < 3
            invariant
                group <= 3,
                forall|g: int, b: int|
                    0 <= g < group && 0 <= b < 256 ==> (
                    #[trigger] evaluator.threat_cache[g][b]) is None,
            decreases 3 - group,
        {
            let mut byte: usize = 0;
            while byte < 256
                invariant
                    group < 3,
                    byte <= 256,
                    forall|g: int, b: int|
                        0 <= g < group && 0 <= b < 256 ==> (
                        #[trigger] evaluator.threat_cache[g][b]) is None,
                    forall|b: int|
                        0 <= b < byte ==> (#[trigger] evaluator.threat_cache[group as int][b])
                            is None,
                decreases 256 - byte,
            {
                evaluator.threat_cache[group][byte] = None;
                byte += 1;
            }
            group += 1;
        }
        evaluator
    }

    /// Scans the four axes in turn. The first that sees five in a row
    /// decides; else their scores add up.
    fn evaluate_player(&mut self, player: &Bitboard, opponent: &Bitboard) -> (eval: Eval)
        requires
            old(self).sound(),
        ensures
            final(self).sound(),
            eval == threat_evaluation(player@, opponent@),
    {
        let mut total_score: isize = 0;
        let axes = [Direction::East, Direction::South, Direction::SouthWest, Direction::SouthEast];
        let mut turn: usize = 0;
        while turn < 4
            invariant
                self.sound(),
                turn <= 4,
                axes@ == line_axes(),
                -380_000_000 * turn <= total_score <= 380_000_000 * turn,
                threat_evaluation(player@, opponent@) == summed(
                    player@,
                    opponent@,
                    turn as int,
                    total_score as int,
                ),
            decreases 4 - turn,
        {
            proof {
                lemma_axis_score_bounded(player@, opponent@, axes[turn as int]);
            }
            let eval = self.evaluate_axis(player, opponent, axes[turn]);
            match eval {
                Eval::Score(score) => total_score += score,
                Eval::Won | Eval::Lost => return eval,
            }
            turn += 1;
        }
        Eval::Score(total_score)
    }

    /// Scans the lines of one axis in turn. The first that shows five in a
    /// row decides; else their scores add up.
    fn evaluate_axis(&mut self, player: &Bitboard, opponent: &Bitboard, axis: Direction) -> (eval:
        Eval)
        requires
            old(self).sound(),
        ensures
            final(self).sound(),
            eval == axis_evaluation(player@, opponent@, axis),
    {
        let mut score: isize = 0;
        let mut line: usize = 0;
        while line < LINE_SLOTS
            invariant
                self.sound(),
                line <= LINE_SLOTS,
                -10_000_000 * line <= score <= 10_000_000 * line,
                scanned(player@, opponent@, axis, line as int) == (AxisScan {
                    score: score as int,
                    strongest: None,
                    quiet: true,
                    verdict: None,
                }),
            decreases LINE_SLOTS - line,
        {
            if let Some(start) = Self::line_start(axis, line) {
                match self.evaluate_line(player, opponent, start, axis, score) {
                    Eval::Score(total) => score = total,
                    verdict => {
                        proof {
                            lemma_verdict_stays(
                                player@,
                                opponent@,
                                axis,
                                line + 1,
                                LINE_SLOTS as int,
                            );
                        }
                        return verdict;
                    },
                }
            }
            line += 1;
        }
        Eval::Score(score)
    }

    /// The bit of the first cell of line `line` along `axis`, if there is
    /// such a line.
    fn line_start(axis: Direction, line: usize) -> (start: Option<isize>)
        requires
            line < LINE_SLOTS,
        ensures
            match start {
                Some(index) => line_start(axis, line as int) == Some(index as int),
                None => line_start(axis, line as int) is None,
            },
    {
        let enters_by_row = match axis {
            Direction::East | Direction::West => false,
            _ => true,
        };
        let enters_by_col = match axis {
            Direction::North | Direction::South => false,
            _ => true,
        };
        let entry_row: usize = match axis {
            Direction::South | Direction::SouthEast | Direction::SouthWest => 0,
            _ => GOBAN_SIZE - 1,
        };
        let entry_col: usize = match axis {
            Direction::East | Direction::NorthEast | Direction::SouthEast => 0,
            _ => GOBAN_SIZE - 1,
        };
        if line < GOBAN_SIZE {
            if enters_by_row {
                Some((entry_row * ROW_STRIDE + line) as isize)
            } else {
                None
            }
        } else if enters_by_col && !(enters_by_row && line - GOBAN_SIZE == entry_row) {
            Some(((line - GOBAN_SIZE) * ROW_STRIDE + entry_col) as isize)
        } else {
            None
        }
    }

    /// Scans the line from `start` along `axis`, given the score of the
    /// lines before: the verdict if five in a row is seen, else the score
    /// with the line's runs of threats taken in.
    fn evaluate_line(
        &mut self,
        player: &Bitboard,
        opponent: &Bitboard,
        start: isize,
        axis: Direction,
        score: isize,
    ) -> (eval: Eval)
        requires
            old(self).sound(),
            -370_000_000 <= score <= 370_000_000,
        ensures
            final(self).sound(),
            ({
                let done = line_done(
                    AxisScan { score: score as int, strongest: None, quiet: true, verdict: None },
                    player@,
                    opponent@,
                    start as int,
                    axis,
                );
                match done.verdict {
                    Some(verdict) => eval == verdict && (eval == Eval::Won || eval == Eval::Lost),
                    None => eval == Eval::Score(done.score as isize) && score - 10_000_000
                        <= done.score <= score + 10_000_000,
                }
            }),
    {
        let offset = axis.offset();
        let mut run = Run { score, strongest: None, quiet: true };
        let ghost fresh = run@;
        let mut index: isize = start;
        let mut step: usize = 0;
        while step < GOBAN_SIZE && self.is_extractable(start, axis, step + 1)
            invariant
                self.sound(),
                step <= GOBAN_SIZE,
                offset == axis.spec_offset(),
                index == start + step * offset,
                fresh == (AxisScan {
                    score: score as int,
                    strongest: None,
                    quiet: true,
                    verdict: None,
                }),
                score - 500000 * step <= run.score <= score + 500000 * step,
                -370_000_000 <= score <= 370_000_000,
                line_scanned(fresh, player@, opponent@, start as int, axis, step as int) == run@,
            decreases GOBAN_SIZE - step,
        {
            proof {
                lemma_window_cell(start as int, axis, step + 1, step as int);
            }
            match self.evaluate_cell(player, opponent, index, axis, run) {
                Ok(next) => run = next,
                Err(verdict) => {
                    proof {
                        lemma_line_verdict_stays(
                            fresh,
                            player@,
                            opponent@,
                            start as int,
                            axis,
                            step + 1,
                            GOBAN_SIZE as int,
                        );
                    }
                    return verdict;
                },
            }
            assert((step + 1) * offset == step * offset + offset) by (nonlinear_arith);
            step += 1;
            index += offset;
        }
        proof {
            lemma_line_ends(
                fresh,
                player@,
                opponent@,
                start as int,
                axis,
                step as int,
                GOBAN_SIZE as int,
            );
        }
        let mut score = run.score;
        if let Some((strongest_threat, is_player)) = run.strongest {
            score = match is_player {
                true => score + strongest_threat.score(),
                false => score - strongest_threat.score(),
            }
        }
        Eval::Score(score)
    }

    /// Takes the cell at bit `index` into the scan of a line: the verdict if
    /// five in a row is seen there, else the scan afterwards.
    fn evaluate_cell(
        &mut self,
        player: &Bitboard,
        opponent: &Bitboard,
        index: isize,
        axis: Direction,
        run: Run,
    ) -> (result: Result<Run, Eval>)
        requires
            old(self).sound(),
            -380_000_000 <= run.score <= 380_000_000,
        ensures
            final(self).sound(),
            match result {
                Ok(next) => {
                    &&& next@ == cell_step(run@, player@, opponent@, index as int, axis)
                    &&& run.score - 500000 <= next.score <= run.score + 500000
                },
                Err(verdict) => {
                    &&& Some(verdict) == cell_step(
                        run@,
                        player@,
                        opponent@,
                        index as int,
                        axis,
                    ).verdict
                    &&& (verdict == Eval::Won || verdict == Eval::Lost)
                },
            },
    {
        let mut score = run.score;
        let mut strongest_continuous_threat = run.strongest;
        let mut no_threats = run.quiet;
        if let Some((player_full_pattern, opponent_full_pattern, max_length)) =
            self.extract_pattern(player, opponent, index, axis) {
            no_threats = true;
            if let Some(threat) = self.find_threat(
                &player_full_pattern,
                &opponent_full_pattern,
                max_length,
            ) {
                if threat == Threat::Five {
                    return Err(Eval::Won);
                }
                no_threats = false;
                strongest_continuous_threat = Some(
                    Self::get_strongest_threat(strongest_continuous_threat, (threat, true)),
                );
            }
            if let Some(threat) = self.find_threat(
                &opponent_full_pattern,
                &player_full_pattern,
                max_length,
            ) {
                if threat == Threat::Five {
                    return Err(Eval::Lost);
                }
                no_threats = false;
                strongest_continuous_threat = Some(
                    Self::get_strongest_threat(strongest_continuous_threat, (threat, false)),
                );
            }
        }
        if no_threats {
            if let Some((strongest_threat, is_player)) = strongest_continuous_threat {
                score = match is_player {
                    true => score + strongest_threat.score(),
                    false => score - strongest_threat.score(),
                }
            }
            strongest_continuous_threat = None;
        }
        Ok(Run { score, strongest: strongest_continuous_threat, quiet: no_threats })
    }

    /// The threat of the side with shape `own`, trying the window lengths
    /// from `max_length` down to five.
    fn find_threat(&mut self, own: &Pattern, other: &Pattern, max_length: usize) -> (found: Option<
        Threat,
    >)
        requires
            old(self).sound(),
            MIN_WINDOW <= max_length <= MAX_WINDOW,
        ensures
            final(self).sound(),
            found == side_threat(own@, other@, max_length as int),
    {
        let mut length = max_length;
        while length >= MIN_WINDOW
            invariant
                self.sound(),
                MIN_WINDOW - 1 <= length <= max_length <= MAX_WINDOW,
                side_threat(own@, other@, max_length as int) == side_threat(
                    own@,
                    other@,
                    length as int,
                ),
            decreases length,
        {
            if let Some(threat) = self.match_threat(own, other, length) {
                return Some(threat);
            }
            length -= 1;
        }
        None
    }

    /// The stronger of a run's strongest threat so far and a new one, each
    /// with its side.
    fn get_strongest_threat(current: Option<(Threat, bool)>, new: (Threat, bool)) -> (kept: (
        Threat,
        bool,
    ))
        ensures
            kept == stronger(current, new),
    {
        match current {
            None => new,
            Some(old) => match old.0 > new.0 {
                true => old,
                false => new,
            },
        }
    }

    /// The shapes of both sides in the longest window from `index` along
    /// `axis` that lies on the board.
    fn extract_pattern(
        &self,
        player: &Bitboard,
        opponent: &Bitboard,
        index: isize,
        axis: Direction,
    ) -> (extracted: Option<PatternWithLength>)
        ensures
            match extracted {
                Some((own, other, length)) => {
                    &&& longest_window(index as int, axis) == Some(length as int)
                    &&& own@ == window_shape(player@, index as int, axis, length as int)
                    &&& other@ == window_shape(opponent@, index as int, axis, length as int)
                },
                None => longest_window(index as int, axis) is None,
            },
    {
        let mut length: usize = MAX_WINDOW;
        while length >= MIN_WINDOW
            invariant
                MIN_WINDOW - 1 <= length <= MAX_WINDOW,
                forall|longer: int|
                    length < longer <= MAX_WINDOW ==> !window_on_board(index as int, axis, longer),
            decreases length,
        {
            let extracted = self.extract_pattern_length(player, opponent, index, axis, length);
            if extracted.is_some() {
                return extracted;
            }
            length -= 1;
        }
        None
    }

    /// The shapes of both sides in the window of `length` cells from `index`
    /// along `axis`, if it lies on the board.
    fn extract_pattern_length(
        &self,
        player: &Bitboard,
        opponent: &Bitboard,
        index: isize,
        axis: Direction,
        length: usize,
    ) -> (extracted: Option<PatternWithLength>)
        requires
            1 <= length <= MAX_WINDOW,
        ensures
            match extracted {
                Some((own, other, len)) => {
                    &&& window_on_board(index as int, axis, length as int)
                    &&& len == length
                    &&& own@ == window_shape(player@, index as int, axis, length as int)
                    &&& other@ == window_shape(opponent@, index as int, axis, length as int)
                },
                None => !window_on_board(index as int, axis, length as int),
            },
    {
        let mut player_pattern: Pattern = Pattern::new();
        let mut opponent_pattern: Pattern = Pattern::new();

        if !self.is_extractable(index, axis, length) {
            return None;
        }
        let offset = axis.offset();
        let mut cursor: isize = index;
        let mut pattern_index: usize = 0;
        while pattern_index < length
            invariant
                pattern_index <= length <= MAX_WINDOW,
                window_on_board(index as int, axis, length as int),
                offset == axis.spec_offset(),
                cursor == index + pattern_index * offset,
                -21 <= cursor <= 401,
                player_pattern@ == window_shape(player@, index as int, axis, pattern_index as int),
                opponent_pattern@ == window_shape(
                    opponent@,
                    index as int,
                    axis,
                    pattern_index as int,
                ),
            decreases length - pattern_index,
        {
            proof {
                lemma_window_cell(index as int, axis, length as int, pattern_index as int);
            }
            player_pattern.set(pattern_index, player.get(cursor as usize));
            opponent_pattern.set(pattern_index, opponent.get(cursor as usize));
            assert(player_pattern@ =~= window_shape(
                player@,
                index as int,
                axis,
                pattern_index + 1,
            ));
            assert(opponent_pattern@ =~= window_shape(
                opponent@,
                index as int,
                axis,
                pattern_index + 1,
            ));
            assert((pattern_index + 1) * offset == pattern_index * offset + offset)
                by (nonlinear_arith);
            pattern_index += 1;
            cursor += offset;
        }
        Some((player_pattern, opponent_pattern, length))
    }

    /// Whether the window of `length` cells from `index` along `axis` lies on
    /// the board.
    fn is_extractable(&self, index: isize, axis: Direction, length: usize) -> (extractable: bool)
        requires
            1 <= length <= GOBAN_SIZE,
        ensures
            extractable == window_on_board(index as int, axis, length as int),
    {
        if !self.is_inbound(index) {
            return false;
        }
        let reach: isize = length as isize - 1;
        let row: isize = index / (ROW_STRIDE as isize);
        let col: isize = index % (ROW_STRIDE as isize);
        let last_row: isize = match axis {
            Direction::North | Direction::NorthEast | Direction::NorthWest => row - reach,
            Direction::East | Direction::West => row,
            Direction::South | Direction::SouthEast | Direction::SouthWest => row + reach,
        };
        let last_col: isize = match axis {
            Direction::West | Direction::NorthWest | Direction::SouthWest => col - reach,
            Direction::North | Direction::South => col,
            Direction::East | Direction::NorthEast | Direction::SouthEast => col + reach,
        };
        proof {
            let dr = axis.row_step();
            let dc = axis.col_step();
            assert(reach * dr == if dr == 1 { reach as int } else if dr == 0 { 0 } else { -reach })
                by (nonlinear_arith)
                requires
                    dr == 1 || dr == 0 || dr == -1,
            ;
            assert(reach * dc == if dc == 1 { reach as int } else if dc == 0 { 0 } else { -reach })
                by (nonlinear_arith)
                requires
                    dc == 1 || dc == 0 || dc == -1,
            ;
        }
        let size = GOBAN_SIZE as isize;
        0 <= last_row && last_row < size && 0 <= last_col && last_col < size
    }

    /// Whether bit `index` stands for a cell of the board.
    fn is_inbound(&self, index: isize) -> (inbound: bool)
        ensures
            inbound == is_cell(index as int),
    {
        index >= 0 && index < BIT_SIZE as isize && index % (ROW_STRIDE as isize) != GOBAN_SIZE as isize
    }

    /// The threat that `player`'s stones form in the first `length` cells of
    /// a window: none where `opponent` has a stone among them.
    pub fn match_threat(&mut self, player: &Pattern, opponent: &Pattern, length: usize) -> (threat:
        Option<Threat>)
        requires
            old(self).sound(),
            MIN_WINDOW <= length <= MAX_WINDOW,
        ensures
            final(self).sound(),
            threat == matched(player@, opponent@, length as int),
    {
        if opponent.any(length) {
            return None;
        }
        let group: usize = length - 5;
        let index: usize = player.raw() as usize;
        proof {
            lemma_bits_of_byte(player@);
            lemma_classify_agrees(bits_of_byte(index as int), player@, length as int);
        }
        if let Some(cache) = self.threat_cache[group][index] {
            return cache;
        }
        let cache = Self::compute_threat(player, length);
        self.threat_cache[group][index] = Some(cache);
        cache
    }

    /// The threat that the first seven cells of `pattern` form.
    fn compute_threat_seven(pattern: &Pattern) -> (threat: Option<Threat>)
        ensures
            threat == classify_seven(pattern@),
    {
        if pattern.starts_like(&shape_of_cells(false, false, true, true, true, false, false), 7) {
            return Some(Threat::Three);
        }
        None
    }

    /// The threat that the first six cells of `pattern` form.
    fn compute_threat_six(pattern: &Pattern) -> (threat: Option<Threat>)
        ensures
            threat == classify_six(pattern@),
    {
        if pattern.starts_like(&shape_of_cells(false, true, true, true, true, false, false), 6) {
            return Some(Threat::StraightFour);
        }
        if pattern.starts_like(&shape_of_cells(false, true, true, true, false, false, false), 6)
            || pattern.starts_like(
            &shape_of_cells(false, false, true, true, true, false, false),
            6,
        ) {
            return Some(Threat::Three);
        }
        if pattern.starts_like(&shape_of_cells(false, true, false, true, true, false, false), 6)
            || pattern.starts_like(
            &shape_of_cells(false, true, true, false, true, false, false),
            6,
        ) {
            return Some(Threat::BrokenThree);
        }
        None
    }

    /// The threat that the first five cells of `pattern` form.
    fn compute_threat_five(pattern: &Pattern) -> (threat: Option<Threat>)
        ensures
            threat == classify_five(pattern@),
    {
        let count = pattern.count_ones(5);
        if count == 5 {
            Some(Threat::Five)
        } else if count == 4 {
            Some(Threat::Four)
        } else {
            None
        }
    }

    /// The threat that the first `length` cells of `pattern` form.
    fn compute_threat(pattern: &Pattern, length: usize) -> (threat: Option<Threat>)
        requires
            MIN_WINDOW <= length <= MAX_WINDOW,
        ensures
            threat == classify(pattern@, length as int),
    {
        if length == 7 {
            Self::compute_threat_seven(pattern)
        } else if length == 6 {
            Self::compute_threat_six(pattern)
        } else {
            Self::compute_threat_five(pattern)
        }
    }
}

/// The pattern whose first seven cells are the ones given.
fn shape_of_cells(c0: bool, c1: bool, c2: bool, c3: bool, c4: bool, c5: bool, c6: bool) -> (pattern:
    Pattern)
    ensures
        pattern@ == seq![c0, c1, c2, c3, c4, c5, c6, false],
{
    let mut pattern = Pattern::new();
    pattern.set(0, c0);
    pattern.set(1, c1);
    pattern.set(2, c2);
    pattern.set(3, c3);
    pattern.set(4, c4);
    pattern.set(5, c5);
    pattern.set(6, c6);
    pattern
}

} // verus!
