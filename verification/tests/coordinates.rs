use gomoku::goban::Position;

#[test]
fn a_letter_and_a_number_name_a_cell() {
    assert_eq!(Position::from_coordinates("A19"), Ok(Position::new(0, 0)));
    assert_eq!(Position::from_coordinates("a19"), Ok(Position::new(0, 0)));
    assert_eq!(Position::from_coordinates("s1"), Ok(Position::new(18, 18)));
    assert_eq!(Position::from_coordinates("S1"), Ok(Position::new(18, 18)));
    assert_eq!(Position::from_coordinates("a15"), Ok(Position::new(4, 0)));
    assert_eq!(Position::from_coordinates("k10"), Ok(Position::new(9, 10)));
    assert_eq!(Position::from_coordinates("i9"), Ok(Position::new(10, 8)));
}

#[test]
fn white_space_a_plus_sign_and_leading_zeros_are_accepted_in_the_row() {
    assert_eq!(Position::from_coordinates("a 5"), Ok(Position::new(14, 0)));
    assert_eq!(Position::from_coordinates("a5 "), Ok(Position::new(14, 0)));
    assert_eq!(Position::from_coordinates("b\t 12 \n"), Ok(Position::new(7, 1)));
    assert_eq!(Position::from_coordinates("a\u{a0}5"), Ok(Position::new(14, 0)));
    assert_eq!(Position::from_coordinates("a+5"), Ok(Position::new(14, 0)));
    assert_eq!(Position::from_coordinates("a05"), Ok(Position::new(14, 0)));
    assert_eq!(Position::from_coordinates("a0000000000000000000000019"), Ok(Position::new(0, 0)));
}

#[test]
fn a_text_of_less_than_two_characters_is_refused() {
    assert_eq!(Position::from_coordinates(""), Err("Invalid position ``".to_string()));
    assert_eq!(Position::from_coordinates("a"), Err("Invalid position `a`".to_string()));
    assert_eq!(Position::from_coordinates("7"), Err("Invalid position `7`".to_string()));
}

#[test]
fn a_first_character_that_is_no_column_is_refused() {
    assert_eq!(Position::from_coordinates("t5"), Err("invalid col value `t`".to_string()));
    assert_eq!(Position::from_coordinates("T5"), Err("invalid col value `T`".to_string()));
    assert_eq!(Position::from_coordinates("55"), Err("invalid col value `5`".to_string()));
    assert_eq!(Position::from_coordinates("@1"), Err("invalid col value `@`".to_string()));
    assert_eq!(Position::from_coordinates("`1"), Err("invalid col value ```".to_string()));
    assert_eq!(Position::from_coordinates("zz"), Err("invalid col value `z`".to_string()));
}

#[test]
fn a_row_that_is_no_number_from_one_to_nineteen_is_refused() {
    assert_eq!(Position::from_coordinates("a0"), Err("invalid row value `0`".to_string()));
    assert_eq!(Position::from_coordinates("a20"), Err("invalid row value `20`".to_string()));
    assert_eq!(Position::from_coordinates("a-1"), Err("invalid row value `-1`".to_string()));
    assert_eq!(Position::from_coordinates("ax"), Err("invalid row value `x`".to_string()));
    assert_eq!(Position::from_coordinates("a1x"), Err("invalid row value `1x`".to_string()));
    assert_eq!(Position::from_coordinates("a1 2"), Err("invalid row value `1 2`".to_string()));
    assert_eq!(Position::from_coordinates("a+"), Err("invalid row value `+`".to_string()));
    assert_eq!(Position::from_coordinates("a++5"), Err("invalid row value `++5`".to_string()));
    assert_eq!(Position::from_coordinates("a  "), Err("invalid row value `  `".to_string()));
    assert_eq!(
        Position::from_coordinates("a99999999999999999999999"),
        Err("invalid row value `99999999999999999999999`".to_string())
    );
}
