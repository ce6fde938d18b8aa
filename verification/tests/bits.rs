use gomoku::bits::{Bitboard, Pattern, PATTERN_BITS, STORAGE_BITS};

#[test]
fn a_new_board_has_no_bit_set() {
    let board = Bitboard::new();
    for index in 0..STORAGE_BITS {
        assert!(!board.get(index));
    }
    assert_eq!(board.ones(), Vec::<usize>::new());
}

#[test]
fn set_writes_one_bit_and_leaves_the_others() {
    let mut board = Bitboard::new();
    board.set(42, true);
    board.set(383, true);
    assert!(board.get(42));
    assert!(board.get(383));
    assert!(!board.get(41));
    assert!(!board.get(43));
    board.set(42, false);
    assert!(!board.get(42));
    assert!(board.get(383));
}

#[test]
fn a_clone_is_independent_of_its_source() {
    let mut board = Bitboard::new();
    board.set(7, true);
    let copy = board.clone();
    board.set(8, true);
    assert!(copy.get(7));
    assert!(!copy.get(8));
}

#[test]
fn union_and_intersection_combine_bit_by_bit() {
    let mut left = Bitboard::new();
    let mut right = Bitboard::new();
    left.set(1, true);
    left.set(2, true);
    right.set(2, true);
    right.set(3, true);
    assert_eq!(left.union(&right).ones(), vec![1, 2, 3]);
    assert_eq!(left.intersection(&right).ones(), vec![2]);
}

#[test]
fn complement_flips_all_stored_bits() {
    let mut board = Bitboard::new();
    board.set(0, true);
    board.set(200, true);
    let flipped = board.complement();
    assert!(!flipped.get(0));
    assert!(!flipped.get(200));
    assert!(flipped.get(1));
    assert!(flipped.get(383));
    assert_eq!(flipped.ones().len(), STORAGE_BITS - 2);
}

#[test]
fn shifted_moves_bits_and_drops_those_that_leave() {
    let mut board = Bitboard::new();
    board.set(0, true);
    board.set(100, true);
    board.set(383, true);
    assert_eq!(board.shifted(1).ones(), vec![1, 101]);
    assert_eq!(board.shifted(-1).ones(), vec![99, 382]);
    assert_eq!(board.shifted(21).ones(), vec![21, 121]);
    assert_eq!(board.shifted(-20).ones(), vec![80, 363]);
    assert_eq!(board.shifted(0).ones(), vec![0, 100, 383]);
    assert_eq!(board.shifted(384).ones(), Vec::<usize>::new());
    assert_eq!(board.shifted(-384).ones(), Vec::<usize>::new());
}

#[test]
fn ones_lists_the_set_bits_in_rising_order() {
    let mut board = Bitboard::new();
    for index in [300, 5, 17, 380, 64] {
        board.set(index, true);
    }
    assert_eq!(board.ones(), vec![5, 17, 64, 300, 380]);
}

#[test]
fn a_pattern_stores_its_first_bit_as_the_most_significant() {
    let mut pattern = Pattern::new();
    assert_eq!(pattern.raw(), 0);
    pattern.set(0, true);
    assert_eq!(pattern.raw(), 128);
    pattern.set(7, true);
    assert_eq!(pattern.raw(), 129);
    pattern.set(0, false);
    assert_eq!(pattern.raw(), 1);
    for index in 0..PATTERN_BITS {
        pattern.set(index, true);
    }
    assert_eq!(pattern.raw(), 255);
}

#[test]
fn pattern_queries_look_at_the_leading_bits_only() {
    let mut pattern = Pattern::new();
    pattern.set(5, true);
    pattern.set(6, true);
    assert!(!pattern.any(5));
    assert!(pattern.any(6));
    assert_eq!(pattern.count_ones(5), 0);
    assert_eq!(pattern.count_ones(6), 1);
    assert_eq!(pattern.count_ones(8), 2);
    assert!(!pattern.any(0));

    let mut other = Pattern::new();
    other.set(6, true);
    assert!(pattern.starts_like(&other, 5));
    assert!(!pattern.starts_like(&other, 6));
    assert!(pattern.starts_like(&other, 0));
}
