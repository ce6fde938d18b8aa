use std::rc::Rc;

use gomoku::goban::{Goban, Move, Position, Stone};
use gomoku::zobrist_hashing::{ZobristHash, ZobristHasher};

fn compute_hash_from_moves(zobrist: Rc<ZobristHasher>, moves: Vec<Move>) -> ZobristHash {
    let mut goban = Goban::new(zobrist);

    moves.into_iter().for_each(|m| goban.apply_move(m));

    goban.get_hash()
}

#[test]
fn it_correctly_hash_a_goban() {
    let zobrist_hasher = Rc::new(ZobristHasher::initialize());

    let ordered_moves = vec![
        Move::new(Stone::Black, Position::new(5, 5)),
        Move::new(Stone::White, Position::new(5, 6)),
        Move::new(Stone::Black, Position::new(5, 7)),
        Move::new(Stone::White, Position::new(5, 8)),
    ];

    let reversed_moves = vec![
        Move::new(Stone::Black, Position::new(5, 7)),
        Move::new(Stone::White, Position::new(5, 6)),
        Move::new(Stone::Black, Position::new(5, 5)),
        Move::new(Stone::White, Position::new(5, 8)),
    ];

    let ordered_hash = compute_hash_from_moves(Rc::clone(&zobrist_hasher), ordered_moves);
    let reversed_hash = compute_hash_from_moves(Rc::clone(&zobrist_hasher), reversed_moves);

    assert_eq!(ordered_hash, reversed_hash);
}

#[test]
fn folding_a_key_in_twice_gives_the_hash_back() {
    let hasher = ZobristHasher::initialize();
    let played = Move::new(Stone::Black, Position::new(7, 3));
    let once = hasher.update_hash(0x1234_5678_9abc_def0, played);
    assert_eq!(hasher.update_hash(once, played), 0x1234_5678_9abc_def0);
}

#[test]
fn the_hash_does_not_depend_on_the_order_of_the_moves() {
    let hasher = ZobristHasher::initialize();
    let moves = [
        Move::new(Stone::Black, Position::new(0, 0)),
        Move::new(Stone::White, Position::new(18, 18)),
        Move::new(Stone::Black, Position::new(9, 9)),
    ];
    let orders: [[usize; 3]; 6] =
        [[0, 1, 2], [0, 2, 1], [1, 0, 2], [1, 2, 0], [2, 0, 1], [2, 1, 0]];
    let mut hashes = Vec::new();
    for order in orders {
        let mut hash = 0;
        for index in order {
            hash = hasher.update_hash(hash, moves[index]);
        }
        hashes.push(hash);
    }
    for hash in &hashes {
        assert_eq!(*hash, hashes[0]);
    }
}

#[test]
fn the_hash_of_a_board_is_the_fold_of_the_keys_of_its_moves() {
    let hasher = Rc::new(ZobristHasher::initialize());
    let first = Move::new(Stone::Black, Position::new(2, 3));
    let second = Move::new(Stone::White, Position::new(3, 2));
    let mut goban = Goban::new(Rc::clone(&hasher));
    assert_eq!(goban.get_hash(), 0);
    goban.apply_move(first);
    assert_eq!(goban.get_hash(), hasher.update_hash(0, first));
    goban.apply_move(second);
    assert_eq!(goban.get_hash(), hasher.update_hash(hasher.update_hash(0, first), second));
}
