use std::rc::Rc;

use gomoku::goban::{
    Direction, Goban, Move, Player, Position, Stone, BIT_SIZE, GOBAN_SIZE, GOBAN_TOTAL_SIZE,
};
use gomoku::zobrist_hashing::ZobristHasher;

fn board_with(stones: &[(Stone, usize, usize)]) -> Goban {
    let mut board = Goban::new(Rc::new(ZobristHasher::initialize()));
    for (stone, row, col) in stones {
        board.apply_move(Move::new(*stone, Position::new(*row, *col)));
    }
    board
}

fn cells(position: &[(usize, usize)]) -> Vec<Position> {
    position.iter().map(|(row, col)| Position::new(*row, *col)).collect()
}

#[test]
fn the_board_has_nineteen_rows_of_nineteen_cells() {
    assert_eq!(GOBAN_SIZE, 19);
    assert_eq!(GOBAN_TOTAL_SIZE, 361);
    assert_eq!(BIT_SIZE, 380);
}

#[test]
fn a_cell_has_its_bit_in_rows_of_twenty() {
    assert_eq!(Position::new(0, 0).index(), 0);
    assert_eq!(Position::new(0, 18).index(), 18);
    assert_eq!(Position::new(1, 0).index(), 20);
    assert_eq!(Position::new(18, 18).index(), 378);
}

#[test]
fn coordinates_count_columns_from_a_and_rows_from_the_bottom() {
    assert_eq!(Position::new(0, 0).to_coordinates(), ('A', 19));
    assert_eq!(Position::new(18, 18).to_coordinates(), ('S', 1));
    assert_eq!(Position::new(4, 10).to_coordinates(), ('K', 15));
}

#[test]
fn directions_step_by_their_offsets() {
    let offsets: Vec<isize> = Direction::all().iter().map(|d| d.offset()).collect();
    assert_eq!(offsets, vec![-20, -19, 1, 21, 20, 19, -1, -21]);
}

#[test]
fn players_have_their_colours() {
    assert_eq!(Player::Computer.stone(), Stone::White);
    assert_eq!(Player::Opponent.stone(), Stone::Black);
}

#[test]
fn a_move_puts_its_stone_on_its_cell() {
    let board = board_with(&[(Stone::Black, 3, 4), (Stone::White, 18, 18)]);
    assert_eq!(board.get(3, 4), Some(Stone::Black));
    assert_eq!(board.get(18, 18), Some(Stone::White));
    assert_eq!(board.get(4, 3), None);
    assert_eq!(board.get(0, 0), None);
}

#[test]
fn a_move_onto_a_stone_replaces_it() {
    let board = board_with(&[(Stone::Black, 3, 4), (Stone::White, 3, 4)]);
    assert_eq!(board.get(3, 4), Some(Stone::White));
}

#[test]
fn boards_are_compared_by_hash() {
    let hasher = Rc::new(ZobristHasher::initialize());
    let mut first = Goban::new(Rc::clone(&hasher));
    let mut second = Goban::new(Rc::clone(&hasher));
    assert!(first == second);
    first.apply_move(Move::new(Stone::Black, Position::new(1, 1)));
    first.apply_move(Move::new(Stone::White, Position::new(2, 2)));
    second.apply_move(Move::new(Stone::White, Position::new(2, 2)));
    second.apply_move(Move::new(Stone::Black, Position::new(1, 1)));
    assert!(first == second);
    assert_eq!(first.get_hash(), second.get_hash());
    assert_eq!(first.clone().get_hash(), first.get_hash());
}

#[test]
fn one_step_yields_the_eight_neighbours_of_a_stone() {
    let board = board_with(&[(Stone::Black, 9, 9)]);
    assert_eq!(
        board.get_limited_moves(1),
        cells(&[(8, 8), (8, 9), (8, 10), (9, 8), (9, 10), (10, 8), (10, 9), (10, 10)])
    );
}

#[test]
fn one_step_stays_on_the_board_at_the_corners() {
    assert_eq!(
        board_with(&[(Stone::Black, 0, 0)]).get_limited_moves(1),
        cells(&[(0, 1), (1, 0), (1, 1)])
    );
    assert_eq!(
        board_with(&[(Stone::White, 0, 18)]).get_limited_moves(1),
        cells(&[(0, 17), (1, 17), (1, 18)])
    );
    assert_eq!(
        board_with(&[(Stone::White, 18, 0)]).get_limited_moves(1),
        cells(&[(17, 0), (17, 1), (18, 1)])
    );
    assert_eq!(
        board_with(&[(Stone::Black, 18, 18)]).get_limited_moves(1),
        cells(&[(17, 17), (17, 18), (18, 17)])
    );
}

#[test]
fn one_step_leaves_out_the_cells_that_are_taken() {
    let board = board_with(&[(Stone::Black, 9, 9), (Stone::White, 9, 10)]);
    assert_eq!(
        board.get_limited_moves(1),
        cells(&[
            (8, 8),
            (8, 9),
            (8, 10),
            (8, 11),
            (9, 8),
            (9, 11),
            (10, 8),
            (10, 9),
            (10, 10),
            (10, 11)
        ])
    );
}

#[test]
fn no_stone_means_no_limited_move() {
    let board = board_with(&[]);
    assert_eq!(board.get_limited_moves(0), Vec::<Position>::new());
    assert_eq!(board.get_limited_moves(1), Vec::<Position>::new());
    assert_eq!(board.get_limited_moves(2), Vec::<Position>::new());
}

#[test]
fn zero_steps_yield_nothing() {
    let board = board_with(&[(Stone::Black, 9, 9)]);
    assert_eq!(board.get_limited_moves(0), Vec::<Position>::new());
}

#[test]
fn two_steps_yield_the_square_of_side_five_around_a_stone() {
    let board = board_with(&[(Stone::Black, 9, 9)]);
    let moves = board.get_limited_moves(2);
    assert_eq!(moves.len(), 24);
    for row in 7..12 {
        for col in 7..12 {
            assert_eq!(moves.contains(&Position::new(row, col)), (row, col) != (9, 9));
        }
    }
}

#[test]
fn two_steps_do_not_pass_through_the_end_of_a_row() {
    assert_eq!(
        board_with(&[(Stone::Black, 0, 18)]).get_limited_moves(2),
        cells(&[(0, 16), (0, 17), (1, 16), (1, 17), (1, 18), (2, 16), (2, 17), (2, 18)])
    );
    assert_eq!(
        board_with(&[(Stone::White, 7, 0)]).get_limited_moves(2),
        cells(&[
            (5, 0),
            (5, 1),
            (5, 2),
            (6, 0),
            (6, 1),
            (6, 2),
            (7, 1),
            (7, 2),
            (8, 0),
            (8, 1),
            (8, 2),
            (9, 0),
            (9, 1),
            (9, 2)
        ])
    );
    assert_eq!(
        board_with(&[(Stone::Black, 18, 0)]).get_limited_moves(3).len(),
        4 * 4 - 1
    );
}

#[test]
fn every_free_cell_is_a_possible_move() {
    let empty = board_with(&[]);
    let all = empty.get_possible_moves();
    assert_eq!(all.len(), 361);
    assert_eq!(all[0], Position::new(0, 0));
    assert_eq!(all[19], Position::new(1, 0));
    assert_eq!(all[360], Position::new(18, 18));

    let board = board_with(&[(Stone::Black, 0, 0), (Stone::White, 18, 18)]);
    let free = board.get_possible_moves();
    assert_eq!(free.len(), 359);
    assert!(!free.contains(&Position::new(0, 0)));
    assert!(!free.contains(&Position::new(18, 18)));
    assert!(free.contains(&Position::new(0, 1)));
}

#[test]
fn the_board_is_drawn_row_by_row() {
    let board = board_with(&[(Stone::Black, 0, 0), (Stone::White, 18, 18), (Stone::Black, 9, 1)]);
    let text = board.render();
    let lines: Vec<&str> = text.split('\n').collect();
    assert_eq!(lines.len(), 21);
    assert_eq!(lines[0], "X . . . . . . . . . . . . . . . . . . 19");
    assert_eq!(lines[1], ". . . . . . . . . . . . . . . . . . . 18");
    assert_eq!(lines[9], ". X . . . . . . . . . . . . . . . . . 10");
    assert_eq!(lines[10], ". . . . . . . . . . . . . . . . . . . 9");
    assert_eq!(lines[18], ". . . . . . . . . . . . . . . . . . O 1");
    assert_eq!(lines[19], "A B C D E F G H I J K L M N O P Q R S");
    assert_eq!(lines[20], "");
}

/// A fixed sequence of numbers that looks random.
fn next(state: &mut u64) -> u64 {
    *state = state.wrapping_mul(6364136223846793005).wrapping_add(1442695040888963407);
    *state >> 33
}

#[test]
fn the_moves_are_exactly_the_free_cells_within_reach_of_a_stone() {
    let mut state = 11;
    for round in 0..60 {
        let steps = round % 4;
        let mut stones = Vec::new();
        let count = 1 + next(&mut state) % 12;
        for _ in 0..count {
            let row = (next(&mut state) % 19) as usize;
            let col = (next(&mut state) % 19) as usize;
            let stone = if next(&mut state) % 2 == 0 { Stone::Black } else { Stone::White };
            if !stones.iter().any(|(_, r, c)| (*r, *c) == (row, col)) {
                stones.push((stone, row, col));
            }
        }
        let board = board_with(&stones);
        let mut expected = Vec::new();
        for row in 0..19usize {
            for col in 0..19usize {
                let taken = stones.iter().any(|(_, r, c)| (*r, *c) == (row, col));
                let near = stones.iter().any(|(_, r, c)| {
                    (*r as i32 - row as i32).abs() <= steps as i32
                        && (*c as i32 - col as i32).abs() <= steps as i32
                });
                if !taken && near {
                    expected.push(Position::new(row, col));
                }
            }
        }
        assert_eq!(board.get_limited_moves(steps), expected);
    }
}
