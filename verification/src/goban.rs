//! The board: cells, stones, moves and the packed board state.

use vstd::prelude::*;
use vstd::std_specs::cmp::PartialEqSpecImpl;
use vstd::string::StringExecFns;
use std::rc::Rc;
use crate::bits::{shifted_set, Bitboard, STORAGE_BITS};
use crate::drawing::{digit_str, rendered, row_text, rows_text};
use crate::evaluator::{Eval, Evaluator};
use crate::move_generator::{
    cell_bits, dilated, free_bits, grown_by, lemma_dilated_is_ball, lemma_layout,
    lemma_listed_cells_gap, listed_cells, reachable,
};
use crate::zobrist_hashing::{lemma_hash_order_independent, ZobristHash, ZobristHasher};

verus! {

/// Cells per row and per column.
pub const GOBAN_SIZE: usize = 19;

/// Cells on the board.
pub const GOBAN_TOTAL_SIZE: usize = GOBAN_SIZE * GOBAN_SIZE;

/// Bits of a packed board: each row is followed by one sentinel bit.
pub const BIT_SIZE: usize = GOBAN_TOTAL_SIZE + GOBAN_SIZE;

/// Stones in a row that win the game.
pub const WIN_MINIMUM_LINE_SIZE: usize = 5;

/// Distance, in bits, between a cell and the cell below it.
pub const ROW_STRIDE: usize = GOBAN_SIZE + 1;

/// The two sides of a game.
#[derive(Debug, Clone, Copy, Hash, PartialEq, Eq, Structural)]
pub enum Player {
    Computer,
    Opponent,
}

/// The two colours: the opponent plays black, the computer white.
#[derive(Debug, Clone, Copy, PartialEq, Eq, Structural)]
pub enum Stone {
    Black,
    White,
}

/// The eight neighbours of a cell.
#[derive(Debug, Clone, Copy, PartialEq, Eq, Structural)]
pub enum Direction {
    North,
    NorthEast,
    East,
    SouthEast,
    South,
    SouthWest,
    West,
    NorthWest,
}

/// A cell, by row and column, each below [`GOBAN_SIZE`] on the board.
#[derive(Debug, Clone, Copy, Hash, PartialEq, Eq, Structural)]
pub struct Position {
    pub row: usize,
    pub col: usize,
}

/// A stone and the cell it is put on.
#[derive(Debug, Clone, Copy, PartialEq, Eq, Structural)]
pub struct Move {
    pub stone: Stone,
    pub position: Position,
}

/// Whether bit `index` of a packed board stands for a cell: it is in range
/// and is not a row's sentinel.
pub open spec fn is_cell(index: int) -> bool {
    0 <= index < BIT_SIZE && index % (ROW_STRIDE as int) != GOBAN_SIZE
}

/// The bit that stands for the cell in row `row` and column `col`.
pub open spec fn cell_index(row: int, col: int) -> int {
    row * ROW_STRIDE + col
}

/// The colour a player plays.
pub open spec fn stone_of(player: Player) -> Stone {
    match player {
        Player::Opponent => Stone::Black,
        Player::Computer => Stone::White,
    }
}

impl Player {
    /// The colour this player plays.
    pub fn stone(self) -> (stone: Stone)
        ensures
            stone == stone_of(self),
    {
        match self {
            Player::Opponent => Stone::Black,
            Player::Computer => Stone::White,
        }
    }
}

impl Direction {
    /// Rows gained by one step in this direction.
    pub open spec fn row_step(self) -> int {
        match self {
            Direction::North | Direction::NorthEast | Direction::NorthWest => -1,
            Direction::East | Direction::West => 0,
            Direction::South | Direction::SouthEast | Direction::SouthWest => 1,
        }
    }

    /// Columns gained by one step in this direction.
    pub open spec fn col_step(self) -> int {
        match self {
            Direction::West | Direction::NorthWest | Direction::SouthWest => -1,
            Direction::North | Direction::South => 0,
            Direction::East | Direction::NorthEast | Direction::SouthEast => 1,
        }
    }

    /// Bits gained by one step in this direction.
    pub open spec fn spec_offset(self) -> int {
        match self {
            Direction::North => -20,
            Direction::NorthEast => -19,
            Direction::East => 1,
            Direction::SouthEast => 21,
            Direction::South => 20,
            Direction::SouthWest => 19,
            Direction::West => -1,
            Direction::NorthWest => -21,
        }
    }

    /// Bits gained by one step in this direction.
    pub fn offset(self) -> (offset: isize)
        ensures
            offset == self.spec_offset(),
            offset == self.row_step() * ROW_STRIDE + self.col_step(),
    {
        match self {
            Direction::North => -20,
            Direction::NorthEast => -19,
            Direction::East => 1,
            Direction::SouthEast => 21,
            Direction::South => 20,
            Direction::SouthWest => 19,
            Direction::West => -1,
            Direction::NorthWest => -21,
        }
    }

    /// The eight directions, clockwise from north.
    pub open spec fn all_spec() -> Seq<Direction> {
        seq![
            Direction::North,
            Direction::NorthEast,
            Direction::East,
            Direction::SouthEast,
            Direction::South,
            Direction::SouthWest,
            Direction::West,
            Direction::NorthWest,
        ]
    }

    /// The eight directions, clockwise from north.
    pub fn all() -> (directions: [Direction; 8])
        ensures
            directions@ == Self::all_spec(),
    {
        let directions = [
            Direction::North,
            Direction::NorthEast,
            Direction::East,
            Direction::SouthEast,
            Direction::South,
            Direction::SouthWest,
            Direction::West,
            Direction::NorthWest,
        ];
        directions
    }
}

impl Position {
    /// Whether the position lies on the board.
    pub open spec fn on_board(&self) -> bool {
        self.row < GOBAN_SIZE && self.col < GOBAN_SIZE
    }

    /// The bit that stands for this cell.
    pub open spec fn spec_index(&self) -> int {
        cell_index(self.row as int, self.col as int)
    }

    /// The cell in row `row` and column `col`.
    pub fn new(row: usize, col: usize) -> (position: Position)
        ensures
            position == (Position { row, col }),
    {
        Position { row, col }
    }

    /// The bit that stands for this cell.
    pub fn index(&self) -> (index: usize)
        requires
            self.on_board(),
        ensures
            index == self.spec_index(),
            is_cell(index as int),
    {
        (self.row * (GOBAN_SIZE + 1)) + self.col
    }

    /// The column letter, `A` to `S` from the left, and the row number, 19
    /// down to 1 from the top.
    pub fn to_coordinates(&self) -> (coordinates: (char, usize))
        requires
            self.on_board(),
        ensures
            coordinates.0 as int == self.col + 65,
            coordinates.1 == GOBAN_SIZE - self.row,
    {
        let ascii_offset: usize = 65;
        let col: char = (self.col + ascii_offset) as u8 as char;
        let row: usize = 19 - self.row;
        (col, row)
    }
}

impl Move {
    /// The move that puts `stone` on `position`.
    pub fn new(stone: Stone, position: Position) -> (played_move: Move)
        ensures
            played_move == (Move { stone, position }),
    {
        Move { stone, position }
    }
}

/// The packed board: one bit set per colour, and the running hash of the
/// position.
pub struct Goban {
    white_stones: Bitboard,
    black_stones: Bitboard,
    zobrist_hasher: Rc<ZobristHasher>,
    zobrist_hash: ZobristHash,
}

/// What a board holds: the bits of the white and of the black stones, and the
/// hash.
pub struct GobanView {
    pub white: Set<int>,
    pub black: Set<int>,
    pub hash: u64,
}

impl GobanView {
    /// The bits of the stones of one colour.
    pub open spec fn stones(self, stone: Stone) -> Set<int> {
        match stone {
            Stone::Black => self.black,
            Stone::White => self.white,
        }
    }

    /// The bits of all stones.
    pub open spec fn occupied(self) -> Set<int> {
        self.black.union(self.white)
    }

    /// The stone on cell `position`, if any.
    pub open spec fn at(self, position: Position) -> Option<Stone> {
        if self.black.contains(position.spec_index()) {
            Some(Stone::Black)
        } else if self.white.contains(position.spec_index()) {
            Some(Stone::White)
        } else {
            None
        }
    }

    /// No cell holds two stones, and every stone lies on a cell.
    pub open spec fn wf(self) -> bool {
        &&& self.black.disjoint(self.white)
        &&& forall|i: int| #[trigger] self.occupied().contains(i) ==> is_cell(i)
    }

    /// The board after `played_move`: the cell holds the move's stone, and
    /// the move's key is folded into the hash.
    pub open spec fn place(self, hasher: ZobristHasher, played_move: Move) -> GobanView {
        let index = played_move.position.spec_index();
        GobanView {
            black: if played_move.stone == Stone::Black {
                self.black.insert(index)
            } else {
                self.black.remove(index)
            },
            white: if played_move.stone == Stone::White {
                self.white.insert(index)
            } else {
                self.white.remove(index)
            },
            hash: hasher.updated(self.hash, played_move),
        }
    }
}

impl GobanView {
    /// The board after each move of `moves` in turn.
    pub open spec fn place_all(self, hasher: ZobristHasher, moves: Seq<Move>) -> GobanView
        decreases moves.len(),
    {
        if moves.len() == 0 {
            self
        } else {
            self.place_all(hasher, moves.drop_last()).place(hasher, moves.last())
        }
    }

    /// The hash of the board after a list of moves is the board's hash with
    /// the keys of the moves folded in.
    pub proof fn lemma_place_all_hash(self, hasher: ZobristHasher, moves: Seq<Move>)
        ensures
            self.place_all(hasher, moves).hash == hasher.folded(self.hash, moves),
        decreases moves.len(),
    {
        if moves.len() > 0 {
            self.lemma_place_all_hash(hasher, moves.drop_last());
        }
    }

    /// The hash of a position does not depend on the order of the moves
    /// that led to it: from one board, two lists that hold the same moves
    /// give boards of the same hash.
    pub proof fn lemma_position_hash_order_independent(
        self,
        hasher: ZobristHasher,
        first: Seq<Move>,
        second: Seq<Move>,
    )
        requires
            first.to_multiset() == second.to_multiset(),
        ensures
            self.place_all(hasher, first).hash == self.place_all(hasher, second).hash,
    {
        self.lemma_place_all_hash(hasher, first);
        self.lemma_place_all_hash(hasher, second);
        lemma_hash_order_independent(hasher, self.hash, first, second);
    }
}

impl View for Goban {
    type V = GobanView;

    closed spec fn view(&self) -> GobanView {
        GobanView { white: self.white_stones@, black: self.black_stones@, hash: self.zobrist_hash }
    }
}

impl Clone for Goban {
    /// A board of its own with the same content, which shares the table of
    /// keys.
    fn clone(&self) -> (copy: Self)
        ensures
            copy@ == self@,
            copy.hasher() == self.hasher(),
    {
        Goban {
            white_stones: self.white_stones.clone(),
            black_stones: self.black_stones.clone(),
            zobrist_hasher: Rc::clone(&self.zobrist_hasher),
            zobrist_hash: self.zobrist_hash,
        }
    }
}

impl PartialEq for Goban {
    /// Boards are compared by hash alone.
    fn eq(&self, other: &Self) -> (same: bool) {
        self.zobrist_hash == other.zobrist_hash
    }
}

impl Eq for Goban {

}

impl PartialEqSpecImpl for Goban {
    open spec fn obeys_eq_spec() -> bool {
        true
    }

    open spec fn eq_spec(&self, other: &Self) -> bool {
        self@.hash == other@.hash
    }
}

impl Goban {
    /// The table of keys that the hash is computed with.
    pub closed spec fn hasher(&self) -> ZobristHasher {
        *self.zobrist_hasher
    }

    /// The board's content is well formed, and so is its table of keys.
    pub open spec fn wf(&self) -> bool {
        self@.wf() && self.hasher().wf()
    }

    /// The empty board.
    pub fn new(hasher: Rc<ZobristHasher>) -> (goban: Goban)
        requires
            hasher.wf(),
        ensures
            goban.wf(),
            goban.hasher() == *hasher,
            goban@ == (GobanView { white: Set::empty(), black: Set::empty(), hash: 0 }),
    {
        Goban {
            black_stones: Bitboard::new(),
            white_stones: Bitboard::new(),
            zobrist_hasher: hasher,
            zobrist_hash: 0,
        }
    }

    /// Puts the stone of `move_to_play` on its cell, in place of any stone
    /// there, and folds the move's key into the hash.
    pub fn apply_move(&mut self, move_to_play: Move)
        requires
            old(self).wf(),
            move_to_play.position.on_board(),
        ensures
            final(self).wf(),
            final(self).hasher() == old(self).hasher(),
            final(self)@ == old(self)@.place(old(self).hasher(), move_to_play),
    {
        let position = move_to_play.position.index();

        self.black_stones.set(position, false);
        self.white_stones.set(position, false);

        match move_to_play.stone {
            Stone::Black => self.black_stones.set(position, true),
            Stone::White => self.white_stones.set(position, true),
        }

        self.zobrist_hash = self.zobrist_hasher.update_hash(self.zobrist_hash, move_to_play);
        proof {
            let after = old(self)@.place(old(self).hasher(), move_to_play);
            assert(self@.black =~= after.black);
            assert(self@.white =~= after.white);
            assert forall|i: int| #[trigger] self@.occupied().contains(i) implies is_cell(i) by {
                if i != position {
                    assert(old(self)@.occupied().contains(i));
                }
            }
        }
    }

    /// The stone on the cell in row `row` and column `col`, if any.
    pub fn get(&self, row: usize, col: usize) -> (stone: Option<Stone>)
        requires
            row < GOBAN_SIZE,
            col < GOBAN_SIZE,
        ensures
            stone == self@.at(Position { row, col }),
    {
        let index: usize = (row * (GOBAN_SIZE + 1)) + col;

        if self.black_stones.get(index) {
            return Some(Stone::Black);
        }
        if self.white_stones.get(index) {
            return Some(Stone::White);
        }
        None
    }

    /// Scores the position for `player` with `evaluator`.
    pub fn evaluate<E: Evaluator>(&self, evaluator: &mut E, player: Player) -> (eval: Eval)
        requires
            old(evaluator).wf(),
        ensures
            final(evaluator).wf(),
            eval == old(evaluator).evaluation(
                self@.stones(stone_of(player)),
                self@.stones(stone_of(other_player(player))),
            ),
            forall|p: Set<int>, o: Set<int>|
                #[trigger] final(evaluator).evaluation(p, o) == old(evaluator).evaluation(p, o),
    {
        match player {
            Player::Computer => evaluator.evaluate(&self.white_stones, &self.black_stones),
            Player::Opponent => evaluator.evaluate(&self.black_stones, &self.white_stones),
        }
    }

    /// The free cells within `steps` steps of a stone, in rising order of
    /// their bits. A step leads from a cell to one of its eight neighbours
    /// on the board.
    pub fn get_limited_moves(&self, steps: usize) -> (positions: Vec<Position>)
        ensures
            positions@ == listed_cells(reachable(self@.occupied(), steps as nat), BIT_SIZE as int),
    {
        let cells = Self::cell_mask();
        let stones = self.black_stones.union(&self.white_stones);
        let playable_set = stones.complement();
        let mut played_set = stones.intersection(&cells);
        let mut limited_set = played_set.clone();
        let directions = Direction::all();

        let mut step: usize = 0;
        while step < steps
            invariant
                step <= steps,
                directions@ == Direction::all_spec(),
                cells@ == cell_bits(),
                played_set@ == dilated(self@.occupied(), step as nat),
                limited_set@ == played_set@,
            decreases steps - step,
        {
            let mut turn: usize = 0;
            while turn < 8
                invariant
                    turn <= 8,
                    directions@ == Direction::all_spec(),
                    limited_set@ == grown_by(played_set@, turn as int),
                decreases 8 - turn,
            {
                let wider = Self::dilate(&played_set, directions[turn]);
                limited_set = limited_set.union(&wider);
                assert(limited_set@ =~= grown_by(played_set@, turn + 1));
                turn += 1;
            }
            limited_set = limited_set.intersection(&cells);
            played_set = limited_set.clone();
            step += 1;
        }

        limited_set = limited_set.intersection(&playable_set);
        proof {
            lemma_dilated_is_ball(self@.occupied(), steps as nat);
        }
        Self::cells_of(&limited_set)
    }

    /// The bits that stand for cells: all but the sentinel at the end of
    /// each row and the bits past the last row.
    fn cell_mask() -> (cells: Bitboard)
        ensures
            cells@ == cell_bits(),
    {
        let mut others = Bitboard::new();
        let mut row: usize = 0;
        while row < GOBAN_SIZE
            invariant
                row <= GOBAN_SIZE,
                others@ =~= Set::new(|i: int| 0 <= i < 20 * row && i % 20 == 19),
            decreases GOBAN_SIZE - row,
        {
            proof {
                lemma_layout();
            }
            others.set(row * ROW_STRIDE + GOBAN_SIZE, true);
            row += 1;
        }
        proof {
            lemma_layout();
        }
        let mut index: usize = BIT_SIZE;
        while index < STORAGE_BITS
            invariant
                BIT_SIZE <= index <= STORAGE_BITS,
                others@ =~= Set::new(
                    |i: int| (0 <= i < 380 && i % 20 == 19) || 380 <= i < index,
                ),
            decreases STORAGE_BITS - index,
        {
            others.set(index, true);
            index += 1;
        }
        let cells = others.complement();
        assert(cells@ =~= cell_bits());
        cells
    }

    /// Every free cell, in rising order of the bits.
    pub fn get_possible_moves(&self) -> (positions: Vec<Position>)
        ensures
            positions@ == listed_cells(free_bits(self@.occupied()), BIT_SIZE as int),
    {
        let played_set = self.black_stones.union(&self.white_stones);
        let playable_set = played_set.complement();
        Self::cells_of(&playable_set)
    }

    /// The cells among the bits of `bitboard`, in rising order.
    fn cells_of(bitboard: &Bitboard) -> (positions: Vec<Position>)
        ensures
            positions@ == listed_cells(bitboard@, BIT_SIZE as int),
    {
        let mut positions: Vec<Position> = Vec::new();
        let ghost bits = bitboard@;
        let ones = bitboard.ones();
        let mut next: usize = 0;
        proof {
            let bound: int = if ones@.len() > 0 {
                ones@[0] as int
            } else {
                STORAGE_BITS as int
            };
            lemma_listed_cells_gap(bits, 0, bound);
        }
        while next < ones.len()
            invariant
                next <= ones@.len(),
                forall|k: int|
                    0 <= k < ones@.len() ==> #[trigger] ones@[k] < STORAGE_BITS && bits.contains(
                        ones@[k] as int,
                    ),
                forall|j: int, k: int| 0 <= j < k < ones@.len() ==> ones@[j] < ones@[k],
                forall|i: int| #[trigger]
                    bits.contains(i) ==> exists|k: int| 0 <= k < ones@.len() && ones@[k] == i,
                positions@ == listed_cells(
                    bits,
                    if next < ones@.len() {
                        ones@[next as int] as int
                    } else {
                        STORAGE_BITS as int
                    },
                ),
            decreases ones@.len() - next,
        {
            let index = ones[next];
            let row = index / (GOBAN_SIZE + 1);
            let col = index - (row * (GOBAN_SIZE + 1));

            if !(col == GOBAN_SIZE || index >= BIT_SIZE) {
                positions.push(Position::new(row, col));
            }
            proof {
                let bound: int = if next + 1 < ones@.len() {
                    ones@[next + 1] as int
                } else {
                    STORAGE_BITS as int
                };
                assert forall|i: int| index + 1 <= i < bound implies !(bits.contains(i) && is_cell(
                    i,
                )) by {
                    if bits.contains(i) {
                        let k = choose|k: int| 0 <= k < ones@.len() && ones@[k] == i;
                        assert(k > next);
                    }
                }
                lemma_listed_cells_gap(bits, index + 1, bound);
            }
            next += 1;
        }
        proof {
            lemma_listed_cells_gap(bits, BIT_SIZE as int, STORAGE_BITS as int);
        }
        positions
    }

    /// Draws the board: a line for each row, from the top, with `. ` for a
    /// free cell, `X ` for a black and `O ` for a white stone, and the row's
    /// number at its end; then a line of column letters.
    pub fn render(&self) -> (text: String)
        ensures
            text@ == rendered(self@),
    {
        let mut text = String::new();
        let mut row: usize = 0;
        while row < GOBAN_SIZE
            invariant
                row <= GOBAN_SIZE,
                text@ == rows_text(self@, row as int),
            decreases GOBAN_SIZE - row,
        {
            let ghost before = text@;
            let mut col: usize = 0;
            while col < GOBAN_SIZE
                invariant
                    row < GOBAN_SIZE,
                    col <= GOBAN_SIZE,
                    text@ == before + row_text(self@, row as int, col as int),
                decreases GOBAN_SIZE - col,
            {
                let cell = match self.get(row, col) {
                    None => ". ",
                    Some(Stone::Black) => "X ",
                    Some(Stone::White) => "O ",
                };
                text.append(cell);
                col += 1;
            }
            let number = GOBAN_SIZE - row;
            if number >= 10 {
                text.append(digit_str(number / 10));
                text.append(digit_str(number % 10));
            } else {
                text.append(digit_str(number));
            }
            text.append("\n");
            row += 1;
        }
        text.append("A B C D E F G H I J K L M N O P Q R S\n");
        text
    }

    /// The hash of the position.
    pub fn get_hash(&self) -> (hash: ZobristHash)
        ensures
            hash == self@.hash,
    {
        self.zobrist_hash
    }

    /// `bitboard` together with its copy moved one step along `axis`.
    fn dilate(bitboard: &Bitboard, axis: Direction) -> (wider: Bitboard)
        ensures
            wider@ == bitboard@.union(shifted_set(bitboard@, axis.spec_offset())),
    {
        let rhs = bitboard.shifted(axis.offset());
        bitboard.union(&rhs)
    }
}

/// The player who is not `player`.
pub open spec fn other_player(player: Player) -> Player {
    match player {
        Player::Computer => Player::Opponent,
        Player::Opponent => Player::Computer,
    }
}

} // verus!
