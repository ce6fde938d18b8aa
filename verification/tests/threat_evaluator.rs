use std::cmp::Ordering;
use std::rc::Rc;

use gomoku::bits::{Bitboard, Pattern};
use gomoku::evaluator::{Eval, Evaluator};
use gomoku::goban::{Goban, Move, Player, Position, Stone, WIN_MINIMUM_LINE_SIZE};
use gomoku::threat::Threat;
use gomoku::threat_evaluator::ThreatEvaluator;
use gomoku::zobrist_hashing::ZobristHasher;

/// The first eight bits of `board` as a pattern.
fn leading(board: &Bitboard) -> Pattern {
    let mut pattern = Pattern::new();
    for index in 0..8 {
        pattern.set(index, board.get(index));
    }
    pattern
}

#[test]
fn it_correctly_detects_win() {
    let mut evaluator = ThreatEvaluator::new();
    let hasher = Rc::new(ZobristHasher::initialize());

    let mut board = Goban::new(Rc::clone(&hasher));

    for i in 0..WIN_MINIMUM_LINE_SIZE {
        board.apply_move(Move::new(Stone::White, Position::new(0, i)));
    }

    let eval = board.evaluate(&mut evaluator, Player::Computer);

    assert_eq!(eval, Eval::Won);

    board = Goban::new(Rc::clone(&hasher));

    for i in 0..WIN_MINIMUM_LINE_SIZE {
        board.apply_move(Move::new(Stone::Black, Position::new(i, 0)));
    }

    let eval = board.evaluate(&mut evaluator, Player::Computer);

    assert_eq!(eval, Eval::Lost);

    board = Goban::new(Rc::clone(&hasher));

    board.apply_move(Move::new(Stone::Black, Position::new(3, 3)));
    board.apply_move(Move::new(Stone::Black, Position::new(4, 4)));
    board.apply_move(Move::new(Stone::Black, Position::new(5, 5)));
    board.apply_move(Move::new(Stone::Black, Position::new(6, 6)));
    board.apply_move(Move::new(Stone::Black, Position::new(7, 7)));

    let eval = board.evaluate(&mut evaluator, Player::Computer);

    assert_eq!(eval, Eval::Lost);
}

#[test]
fn it_correctly_detects_fives() {
    let mut evaluator = ThreatEvaluator::new();

    let mut computer = Bitboard::new();
    let opponent = Bitboard::new();

    computer.set(0, true);
    computer.set(1, true);
    computer.set(2, true);
    computer.set(3, true);
    computer.set(4, true);

    assert_eq!(
        evaluator.match_threat(&leading(&computer), &leading(&opponent), 5),
        Some(Threat::Five)
    );

    assert_eq!(evaluator.evaluate(&computer, &opponent), Eval::Won);
}

#[test]
fn it_correctly_detects_straight_fours() {
    let mut evaluator = ThreatEvaluator::new();

    let mut computer = Bitboard::new();
    let opponent = Bitboard::new();

    computer.set(1, true);
    computer.set(2, true);
    computer.set(3, true);
    computer.set(4, true);

    assert_eq!(
        evaluator.match_threat(&leading(&computer), &leading(&opponent), 6),
        Some(Threat::StraightFour)
    );

    assert_eq!(
        evaluator.evaluate(&computer, &opponent),
        Eval::Score(Threat::StraightFour.score())
    );
}

#[test]
fn it_correctly_detects_fours() {
    let mut evaluator = ThreatEvaluator::new();

    let mut computer = Bitboard::new();
    let opponent = Bitboard::new();

    computer.set(0, true);
    computer.set(1, true);
    computer.set(2, true);
    computer.set(3, true);

    assert_eq!(
        evaluator.match_threat(&leading(&computer), &leading(&opponent), 5),
        Some(Threat::Four)
    );

    assert_eq!(evaluator.evaluate(&computer, &opponent), Eval::Score(Threat::Four.score()));
}

#[test]
fn it_correctly_detects_threes() {
    let mut evaluator = ThreatEvaluator::new();

    let mut computer = Bitboard::new();
    let opponent = Bitboard::new();

    computer.set(2, true);
    computer.set(3, true);
    computer.set(4, true);

    assert_eq!(
        evaluator.match_threat(&leading(&computer), &leading(&opponent), 7),
        Some(Threat::Three)
    );

    computer.set(2, false);
    computer.set(3, false);
    computer.set(4, false);

    computer.set(1, true);
    computer.set(2, true);
    computer.set(3, true);

    assert_eq!(
        evaluator.match_threat(&leading(&computer), &leading(&opponent), 6),
        Some(Threat::Three)
    );

    assert_eq!(evaluator.evaluate(&computer, &opponent), Eval::Score(Threat::Three.score()));
}

#[test]
fn it_correctly_detects_broken_threes() {
    let mut evaluator = ThreatEvaluator::new();

    let mut computer = Bitboard::new();
    let opponent = Bitboard::new();

    computer.set(1, true);
    computer.set(2, true);
    computer.set(4, true);

    assert_eq!(
        evaluator.match_threat(&leading(&computer), &leading(&opponent), 6),
        Some(Threat::BrokenThree)
    );

    assert_eq!(
        evaluator.evaluate(&computer, &opponent),
        Eval::Score(Threat::BrokenThree.score())
    );
}

#[test]
fn each_threat_has_its_weight() {
    assert_eq!(Threat::Five.score(), 0);
    assert_eq!(Threat::StraightFour.score(), 500000);
    assert_eq!(Threat::Four.score(), 50000);
    assert_eq!(Threat::Three.score(), 20000);
    assert_eq!(Threat::BrokenThree.score(), 10000);
}

fn stones(cells: &[(usize, usize)]) -> Bitboard {
    let mut board = Bitboard::new();
    for (row, col) in cells {
        board.set(Position::new(*row, *col).index(), true);
    }
    board
}

fn line(row: usize, col: usize, row_step: isize, col_step: isize, count: usize) -> Bitboard {
    let mut board = Bitboard::new();
    for k in 0..count as isize {
        let cell = Position::new(
            (row as isize + k * row_step) as usize,
            (col as isize + k * col_step) as usize,
        );
        board.set(cell.index(), true);
    }
    board
}

#[test]
fn five_in_a_row_is_seen_along_each_axis_for_either_side() {
    let mut evaluator = ThreatEvaluator::new();
    let nothing = Bitboard::new();
    let fives = [
        line(7, 3, 0, 1, 5),
        line(3, 7, 1, 0, 5),
        line(3, 12, 1, -1, 5),
        line(3, 3, 1, 1, 5),
        line(18, 14, 0, 1, 5),
        line(14, 18, 1, 0, 5),
        line(14, 4, 1, -1, 5),
        line(14, 14, 1, 1, 5),
    ];
    for five in &fives {
        assert_eq!(evaluator.evaluate(five, &nothing), Eval::Won);
        assert_eq!(evaluator.evaluate(&nothing, five), Eval::Lost);
    }
}

#[test]
fn five_in_a_row_is_seen_wherever_it_starts() {
    let mut evaluator = ThreatEvaluator::new();
    let nothing = Bitboard::new();
    for row in 0..19 {
        for col in 0..15 {
            assert_eq!(evaluator.evaluate(&line(row, col, 0, 1, 5), &nothing), Eval::Won);
            assert_eq!(evaluator.evaluate(&line(col, row, 1, 0, 5), &nothing), Eval::Won);
        }
    }
    for row in 0..15 {
        for col in 0..15 {
            assert_eq!(evaluator.evaluate(&line(row, col, 1, 1, 5), &nothing), Eval::Won);
            assert_eq!(evaluator.evaluate(&line(row, col + 4, 1, -1, 5), &nothing), Eval::Won);
        }
    }
}

#[test]
fn five_stones_across_the_end_of_a_row_are_no_five_in_a_row() {
    let mut evaluator = ThreatEvaluator::new();
    let nothing = Bitboard::new();
    let broken = stones(&[(0, 17), (0, 18), (1, 0), (1, 1), (1, 2)]);
    assert!(matches!(evaluator.evaluate(&broken, &nothing), Eval::Score(_)));
}

#[test]
fn four_in_a_row_is_no_win() {
    let mut evaluator = ThreatEvaluator::new();
    let nothing = Bitboard::new();
    assert!(matches!(evaluator.evaluate(&line(7, 3, 0, 1, 4), &nothing), Eval::Score(_)));
}

#[test]
fn a_stronger_threat_scores_higher() {
    let mut evaluator = ThreatEvaluator::new();
    let nothing = Bitboard::new();
    let straight_four = evaluator.evaluate(&stones(&[(9, 5), (9, 6), (9, 7), (9, 8)]), &nothing);
    let four = evaluator.evaluate(&stones(&[(9, 0), (9, 1), (9, 2), (9, 3)]), &nothing);
    let three = evaluator.evaluate(&stones(&[(9, 1), (9, 2), (9, 3)]), &nothing);
    let broken_three = evaluator.evaluate(&stones(&[(9, 1), (9, 2), (9, 4)]), &nothing);
    assert_eq!(straight_four, Eval::Score(500000));
    assert_eq!(four, Eval::Score(50000));
    assert_eq!(three, Eval::Score(20000));
    assert_eq!(broken_three, Eval::Score(10000));
    assert!(Threat::StraightFour > Threat::Four);
    assert!(Threat::Four > Threat::Three);
    assert!(Threat::Three > Threat::BrokenThree);
    for threat in [Threat::StraightFour, Threat::Four, Threat::Three, Threat::BrokenThree] {
        assert_eq!(Threat::Five.partial_cmp(&threat), Some(Ordering::Greater));
        assert_eq!(threat.partial_cmp(&Threat::Five), Some(Ordering::Less));
        assert!(Threat::Five > threat);
    }
    assert_eq!(Threat::Five.partial_cmp(&Threat::Five), Some(Ordering::Equal));
}

#[test]
fn the_other_sides_threats_count_negative() {
    let mut evaluator = ThreatEvaluator::new();
    let nothing = Bitboard::new();
    assert_eq!(
        evaluator.evaluate(&nothing, &stones(&[(9, 0), (9, 1), (9, 2), (9, 3)])),
        Eval::Score(-50000)
    );
    assert_eq!(
        evaluator.evaluate(&stones(&[(3, 1), (3, 2), (3, 3)]), &stones(&[(9, 1), (9, 2), (9, 4)])),
        Eval::Score(20000 - 10000)
    );
}

#[test]
fn threats_on_different_axes_add_up() {
    let mut evaluator = ThreatEvaluator::new();
    let nothing = Bitboard::new();
    let cross = stones(&[(9, 8), (9, 9), (9, 10), (8, 9), (10, 9)]);
    assert_eq!(evaluator.evaluate(&cross, &nothing), Eval::Score(20000 + 20000));
}

#[test]
fn a_threat_scores_the_same_along_each_axis() {
    let mut evaluator = ThreatEvaluator::new();
    let nothing = Bitboard::new();
    for (row_step, col_step, col) in [(0, 1, 5), (1, 0, 5), (1, 1, 5), (1, -1, 12)] {
        assert_eq!(
            evaluator.evaluate(&line(5, col, row_step, col_step, 4), &nothing),
            Eval::Score(500000)
        );
        assert_eq!(
            evaluator.evaluate(&line(5, col, row_step, col_step, 3), &nothing),
            Eval::Score(20000)
        );
        assert_eq!(
            evaluator.evaluate(&nothing, &line(5, col, row_step, col_step, 3)),
            Eval::Score(-20000)
        );
    }
}

#[test]
fn a_run_of_threats_does_not_reach_into_the_next_line() {
    let mut evaluator = ThreatEvaluator::new();
    let nothing = Bitboard::new();
    let two_fours =
        stones(&[(0, 15), (0, 16), (0, 17), (0, 18), (1, 0), (1, 1), (1, 2), (1, 3)]);
    assert_eq!(evaluator.evaluate(&two_fours, &nothing), Eval::Score(50000 + 50000));
}

#[test]
fn an_empty_board_scores_nothing() {
    let mut evaluator = ThreatEvaluator::new();
    assert_eq!(evaluator.evaluate(&Bitboard::new(), &Bitboard::new()), Eval::Score(0));
}

#[test]
fn a_stone_of_the_other_side_in_the_window_blocks_the_threat() {
    let mut evaluator = ThreatEvaluator::new();
    let mut own = Pattern::new();
    let mut other = Pattern::new();
    for index in 0..4 {
        own.set(index, true);
    }
    assert_eq!(evaluator.match_threat(&own, &other, 5), Some(Threat::Four));
    other.set(5, true);
    assert_eq!(evaluator.match_threat(&own, &other, 5), Some(Threat::Four));
    other.set(4, true);
    assert_eq!(evaluator.match_threat(&own, &other, 5), None);
}

#[test]
fn every_shape_of_the_table_is_recognised() {
    let mut evaluator = ThreatEvaluator::new();
    let free = Pattern::new();
    let cases: [(&[usize], usize, Option<Threat>); 14] = [
        (&[0, 1, 2, 3, 4], 5, Some(Threat::Five)),
        (&[1, 2, 3, 4], 6, Some(Threat::StraightFour)),
        (&[0, 1, 2, 4], 5, Some(Threat::Four)),
        (&[0, 2, 3, 4], 5, Some(Threat::Four)),
        (&[1, 2, 3, 4], 5, Some(Threat::Four)),
        (&[2, 3, 4], 7, Some(Threat::Three)),
        (&[1, 2, 3], 6, Some(Threat::Three)),
        (&[2, 3, 4], 6, Some(Threat::Three)),
        (&[1, 3, 4], 6, Some(Threat::BrokenThree)),
        (&[1, 2, 4], 6, Some(Threat::BrokenThree)),
        (&[1, 2, 3], 7, None),
        (&[0, 1, 2, 3], 6, None),
        (&[0, 1, 2], 5, None),
        (&[], 7, None),
    ];
    for (cells, length, expected) in cases {
        let mut own = Pattern::new();
        for cell in cells {
            own.set(*cell, true);
        }
        assert_eq!(evaluator.match_threat(&own, &free, length), expected);
        assert_eq!(evaluator.match_threat(&own, &free, length), expected);
    }
}

#[test]
fn only_the_strongest_threat_of_a_run_counts() {
    let mut evaluator = ThreatEvaluator::new();
    let nothing = Bitboard::new();
    let two_runs = stones(&[(2, 1), (2, 2), (2, 3), (2, 4), (2, 10), (2, 11), (2, 12)]);
    assert_eq!(evaluator.evaluate(&two_runs, &nothing), Eval::Score(500000 + 20000));
}

/// A fixed sequence of numbers that looks random.
fn next(state: &mut u64) -> u64 {
    *state = state.wrapping_mul(6364136223846793005).wrapping_add(1442695040888963407);
    *state >> 33
}

fn has_five(cells: &[[u8; 19]; 19], side: u8) -> bool {
    for row in 0..19i32 {
        for col in 0..19i32 {
            for (row_step, col_step) in [(0, 1), (1, 0), (1, -1), (1, 1)] {
                let mut all = true;
                for k in 0..5 {
                    let r = row + k * row_step;
                    let c = col + k * col_step;
                    if r < 0 || r >= 19 || c < 0 || c >= 19 || cells[r as usize][c as usize] != side
                    {
                        all = false;
                    }
                }
                if all {
                    return true;
                }
            }
        }
    }
    false
}

#[test]
fn a_position_is_decided_exactly_where_a_side_has_five_in_a_row() {
    let mut evaluator = ThreatEvaluator::new();
    let mut state = 7;
    let mut decided = 0;
    for round in 0..300 {
        let density = 2 + round % 3;
        let mut cells = [[0u8; 19]; 19];
        let mut own = Bitboard::new();
        let mut other = Bitboard::new();
        for row in 0..19 {
            for col in 0..19 {
                let draw = next(&mut state) % 10;
                if draw < density {
                    let side = 1 + (next(&mut state) % 4 == 0) as u8;
                    cells[row][col] = side;
                    let index = Position::new(row, col).index();
                    if side == 1 {
                        own.set(index, true);
                    } else {
                        other.set(index, true);
                    }
                }
            }
        }
        let mine = has_five(&cells, 1);
        let theirs = has_five(&cells, 2);
        let eval = evaluator.evaluate(&own, &other);
        match eval {
            Eval::Won => assert!(mine),
            Eval::Lost => assert!(theirs),
            Eval::Score(_) => assert!(!mine && !theirs),
        }
        if mine && !theirs {
            assert_eq!(eval, Eval::Won);
        }
        if theirs && !mine {
            assert_eq!(eval, Eval::Lost);
        }
        if mine || theirs {
            decided += 1;
        }
        let swapped = evaluator.evaluate(&other, &own);
        match eval {
            Eval::Won => assert_eq!(swapped, Eval::Lost),
            Eval::Lost => assert_eq!(swapped, Eval::Won),
            Eval::Score(score) => assert_eq!(swapped, Eval::Score(-score)),
        }
    }
    assert!(decided > 10);
    assert!(decided < 290);
}
