//! The move generator as a mathematical model: the free cells near the
//! stones, and how morphological dilation of the packed board finds them.

use vstd::prelude::*;
use crate::bits::{shifted_set, STORAGE_BITS};
use crate::goban::{is_cell, Direction, GobanView, Position, BIT_SIZE, GOBAN_SIZE,
    GOBAN_TOTAL_SIZE, ROW_STRIDE};

verus! {

/// Whether two cells are neighbours: distinct, and at most one row and one
/// column apart.
pub open spec fn adjacent(a: Position, b: Position) -> bool {
    &&& a != b
    &&& -1 <= a.row - b.row <= 1
    &&& -1 <= a.col - b.col <= 1
}

/// `stones` together with its copies moved one step in each of the first
/// `count` directions.
pub open spec fn grown_by(stones: Set<int>, count: int) -> Set<int> {
    Set::new(
        |i: int|
            stones.contains(i) || exists|d: int|
                0 <= d < count && #[trigger] shifted_set(
                    stones,
                    Direction::all_spec()[d].spec_offset(),
                ).contains(i),
    )
}

/// `stones` grown by one step in all eight directions.
pub open spec fn grown(stones: Set<int>) -> Set<int> {
    grown_by(stones, 8)
}

/// The bits that stand for cells.
pub open spec fn cell_bits() -> Set<int> {
    Set::new(|i: int| is_cell(i))
}

/// The cells of `stones` grown `steps` times, a cell step at a time: after
/// each step the bits that stand for no cell are dropped, so that no path
/// leads through the end of a row.
pub open spec fn dilated(stones: Set<int>, steps: nat) -> Set<int>
    decreases steps,
{
    if steps == 0 {
        stones.intersect(cell_bits())
    } else {
        grown(dilated(stones, (steps - 1) as nat)).intersect(cell_bits())
    }
}

/// The stored bits that hold no stone.
pub open spec fn free_bits(occupied: Set<int>) -> Set<int> {
    Set::new(|i: int| 0 <= i < STORAGE_BITS && !occupied.contains(i))
}

/// Whether the cells of bits `a` and `b` are at most `steps` rows and at
/// most `steps` columns apart: `steps` moves of a king lead from one to the
/// other.
pub open spec fn within(a: int, b: int, steps: int) -> bool {
    &&& -steps <= a / (ROW_STRIDE as int) - b / (ROW_STRIDE as int) <= steps
    &&& -steps <= a % (ROW_STRIDE as int) - b % (ROW_STRIDE as int) <= steps
}

/// The bits of the cells within `steps` king moves of a cell of `stones`.
pub open spec fn ball(stones: Set<int>, steps: nat) -> Set<int> {
    Set::new(
        |i: int|
            is_cell(i) && exists|j: int|
                is_cell(j) && stones.contains(j) && #[trigger] within(i, j, steps as int),
    )
}

/// The bits of the free cells within `steps` king moves of a stone.
pub open spec fn reachable(occupied: Set<int>, steps: nat) -> Set<int> {
    ball(occupied, steps).intersect(free_bits(occupied))
}

/// The cell that bit `index` stands for.
pub open spec fn position_of(index: int) -> Position {
    Position {
        row: (index / (ROW_STRIDE as int)) as usize,
        col: (index % (ROW_STRIDE as int)) as usize,
    }
}

/// The cells among the bits of `bits` below `upto`, in rising order.
pub open spec fn listed_cells(bits: Set<int>, upto: int) -> Seq<Position>
    decreases upto,
{
    if upto <= 0 {
        Seq::empty()
    } else if bits.contains(upto - 1) && is_cell(upto - 1) {
        listed_cells(bits, upto - 1).push(position_of(upto - 1))
    } else {
        listed_cells(bits, upto - 1)
    }
}

/// Bits that hold no cell of `bits` add nothing to the list.
pub proof fn lemma_listed_cells_gap(bits: Set<int>, from: int, to: int)
    requires
        from <= to,
        forall|i: int| from <= i < to ==> !(bits.contains(i) && is_cell(i)),
    ensures
        listed_cells(bits, to) == listed_cells(bits, from),
    decreases to - from,
{
    if from < to {
        lemma_listed_cells_gap(bits, from, to - 1);
    }
}

/// Every listed cell lies on the board and stems from a bit of `bits`, and
/// the list rises strictly.
pub proof fn lemma_listed_cells_sound(bits: Set<int>, upto: int)
    ensures
        forall|k: int|
            0 <= k < listed_cells(bits, upto).len() ==> {
                let position = #[trigger] listed_cells(bits, upto)[k];
                &&& position.on_board()
                &&& position.spec_index() < upto
                &&& bits.contains(position.spec_index())
            },
        forall|j: int, k: int|
            0 <= j < k < listed_cells(bits, upto).len() ==> (#[trigger] listed_cells(
                bits,
                upto,
            )[j]).spec_index() < (#[trigger] listed_cells(bits, upto)[k]).spec_index(),
    decreases upto,
{
    if upto > 0 {
        lemma_listed_cells_sound(bits, upto - 1);
        let before = listed_cells(bits, upto - 1);
        let all = listed_cells(bits, upto);
        if bits.contains(upto - 1) && is_cell(upto - 1) {
            let last = position_of(upto - 1);
            assert(all == before.push(last));
            assert(last.spec_index() == upto - 1);
            assert(last.on_board());
            assert forall|k: int| 0 <= k < all.len() implies {
                let position = #[trigger] all[k];
                &&& position.on_board()
                &&& position.spec_index() < upto
                &&& bits.contains(position.spec_index())
            } by {
                if k < before.len() {
                    assert(all[k] == before[k]);
                }
            }
            assert forall|j: int, k: int| 0 <= j < k < all.len() implies (#[trigger] all[j]).spec_index()
                < (#[trigger] all[k]).spec_index() by {
                assert(all[j] == before[j]);
                if k < before.len() {
                    assert(all[k] == before[k]);
                }
            }
        } else {
            assert(all == before);
        }
    }
}

/// The numbers behind the layout of a packed board.
pub proof fn lemma_layout()
    ensures
        GOBAN_SIZE == 19,
        ROW_STRIDE == 20,
        GOBAN_TOTAL_SIZE == 361,
        BIT_SIZE == 380,
        STORAGE_BITS == 384,
{
}

/// On the board a cell and its bit determine each other.
pub proof fn lemma_cell_of_index(position: Position)
    requires
        position.on_board(),
    ensures
        is_cell(position.spec_index()),
        position_of(position.spec_index()) == position,
        position.spec_index() == position.row * 20 + position.col,
{
    lemma_layout();
}

/// The cell of a bit that stands for one lies on the board.
pub proof fn lemma_index_of_cell(index: int)
    requires
        is_cell(index),
    ensures
        position_of(index).on_board(),
        position_of(index).spec_index() == index,
        position_of(index).row == index / 20,
        position_of(index).col == index % 20,
{
    lemma_layout();
}

/// Every cell of `bits` below `upto` is listed.
pub proof fn lemma_listed_cells_complete(bits: Set<int>, upto: int, position: Position)
    requires
        position.on_board(),
        position.spec_index() < upto,
        bits.contains(position.spec_index()),
    ensures
        listed_cells(bits, upto).contains(position),
    decreases upto,
{
    let all = listed_cells(bits, upto);
    lemma_cell_of_index(position);
    if position.spec_index() == upto - 1 {
        assert(all.last() == position);
    } else {
        lemma_listed_cells_complete(bits, upto - 1, position);
        let before = listed_cells(bits, upto - 1);
        let at = choose|at: int| 0 <= at < before.len() && before[at] == position;
        assert(all[at] == position);
    }
}

/// The bits one step away from a set are those with a member of the set one
/// step in some direction behind them.
pub proof fn lemma_grown_members(stones: Set<int>, index: int)
    requires
        0 <= index < STORAGE_BITS,
        forall|i: int| stones.contains(i) ==> 0 <= i < STORAGE_BITS,
    ensures
        grown(stones).contains(index) <==> stones.contains(index) || stones.contains(index + 20)
            || stones.contains(index + 19) || stones.contains(index - 1) || stones.contains(
            index - 21,
        ) || stones.contains(index - 20) || stones.contains(index - 19) || stones.contains(
            index + 1,
        ) || stones.contains(index + 21),
{
    let directions = Direction::all_spec();
    if grown(stones).contains(index) && !stones.contains(index) {
        let d = choose|d: int|
            0 <= d < 8 && #[trigger] shifted_set(stones, directions[d].spec_offset()).contains(
                index,
            );
        assert(stones.contains(index - directions[d].spec_offset()));
    }
    assert(stones.contains(index + 20) ==> shifted_set(
        stones,
        directions[0].spec_offset(),
    ).contains(index));
    assert(stones.contains(index + 19) ==> shifted_set(
        stones,
        directions[1].spec_offset(),
    ).contains(index));
    assert(stones.contains(index - 1) ==> shifted_set(
        stones,
        directions[2].spec_offset(),
    ).contains(index));
    assert(stones.contains(index - 21) ==> shifted_set(
        stones,
        directions[3].spec_offset(),
    ).contains(index));
    assert(stones.contains(index - 20) ==> shifted_set(
        stones,
        directions[4].spec_offset(),
    ).contains(index));
    assert(stones.contains(index - 19) ==> shifted_set(
        stones,
        directions[5].spec_offset(),
    ).contains(index));
    assert(stones.contains(index + 1) ==> shifted_set(
        stones,
        directions[6].spec_offset(),
    ).contains(index));
    assert(stones.contains(index + 21) ==> shifted_set(
        stones,
        directions[7].spec_offset(),
    ).contains(index));
}

/// Growing a set of cells by one step and dropping what is no cell gives
/// the cells that are a king move or less from a cell of the set.
proof fn lemma_grown_cells(stones: Set<int>, index: int)
    requires
        is_cell(index),
        forall|i: int| stones.contains(i) ==> is_cell(i),
    ensures
        grown(stones).contains(index) <==> exists|j: int|
            stones.contains(j) && #[trigger] within(index, j, 1),
{
    lemma_layout();
    assert forall|i: int| stones.contains(i) implies 0 <= i < STORAGE_BITS by {
        assert(is_cell(i));
    }
    lemma_grown_members(stones, index);
    if grown(stones).contains(index) {
        let behind = if stones.contains(index) {
            index
        } else if stones.contains(index + 20) {
            index + 20
        } else if stones.contains(index + 19) {
            index + 19
        } else if stones.contains(index - 1) {
            index - 1
        } else if stones.contains(index - 21) {
            index - 21
        } else if stones.contains(index - 20) {
            index - 20
        } else if stones.contains(index - 19) {
            index - 19
        } else if stones.contains(index + 1) {
            index + 1
        } else {
            index + 21
        };
        assert(stones.contains(behind) && is_cell(behind));
        assert(within(index, behind, 1));
    }
    if exists|j: int| stones.contains(j) && #[trigger] within(index, j, 1) {
        let j = choose|j: int| stones.contains(j) && #[trigger] within(index, j, 1);
        assert(is_cell(j));
        let rows = j / 20 - index / 20;
        let cols = j % 20 - index % 20;
        assert(j == index + 20 * rows + cols);
    }
}

/// A king that is `steps + 1` moves or less from a cell can move to a cell
/// that is `steps` moves or less from it.
proof fn lemma_step_towards(from: int, to: int, steps: nat) -> (next: int)
    requires
        is_cell(from),
        is_cell(to),
        within(from, to, steps as int + 1),
    ensures
        is_cell(next),
        within(from, next, 1),
        within(next, to, steps as int),
{
    lemma_layout();
    let rows = to / 20 - from / 20;
    let cols = to % 20 - from % 20;
    let row_step: int = if rows > 0 {
        1
    } else if rows < 0 {
        -1
    } else {
        0
    };
    let col_step: int = if cols > 0 {
        1
    } else if cols < 0 {
        -1
    } else {
        0
    };
    let next = from + 20 * row_step + col_step;
    vstd::arithmetic::div_mod::lemma_fundamental_div_mod_converse(
        next,
        20,
        from / 20 + row_step,
        from % 20 + col_step,
    );
    next
}

/// Dilation finds the cells within reach: growing the cells of a set
/// `steps` times gives the cells within `steps` king moves of one of them.
pub proof fn lemma_dilated_is_ball(stones: Set<int>, steps: nat)
    ensures
        dilated(stones, steps) =~= ball(stones, steps),
    decreases steps,
{
    lemma_layout();
    if steps == 0 {
        assert forall|i: int| dilated(stones, 0).contains(i) <==> ball(stones, 0).contains(i) by {
            if dilated(stones, 0).contains(i) {
                assert(within(i, i, 0));
            }
            if ball(stones, 0).contains(i) {
                let j = choose|j: int|
                    is_cell(j) && stones.contains(j) && #[trigger] within(i, j, 0);
                assert(i == j);
            }
        }
    } else {
        let before = dilated(stones, (steps - 1) as nat);
        lemma_dilated_is_ball(stones, (steps - 1) as nat);
        assert forall|i: int| dilated(stones, steps).contains(i) <==> ball(
            stones,
            steps,
        ).contains(i) by {
            if is_cell(i) {
                lemma_grown_cells(before, i);
                if grown(before).contains(i) {
                    let m = choose|m: int| before.contains(m) && #[trigger] within(i, m, 1);
                    assert(ball(stones, (steps - 1) as nat).contains(m));
                    let j = choose|j: int|
                        is_cell(j) && stones.contains(j) && #[trigger] within(m, j, steps - 1);
                    assert(within(i, j, steps as int));
                }
                if ball(stones, steps).contains(i) {
                    let j = choose|j: int|
                        is_cell(j) && stones.contains(j) && #[trigger] within(i, j, steps as int);
                    let m = lemma_step_towards(i, j, (steps - 1) as nat);
                    assert(within(m, j, steps - 1));
                    assert(ball(stones, (steps - 1) as nat).contains(m));
                    assert(before.contains(m));
                    assert(within(i, m, 1));
                }
            }
        }
    }
}

/// Whether two cells are at most `steps` rows and at most `steps` columns
/// apart.
pub open spec fn near(a: Position, b: Position, steps: nat) -> bool {
    &&& -steps <= a.row - b.row <= steps
    &&& -steps <= a.col - b.col <= steps
}

/// The move generator yields exactly the free cells of the board within
/// `steps` king moves of a stone, each once and in rising order of their
/// bits. No path leads through the end of a row.
pub proof fn lemma_limited_moves_are_near(board: GobanView, steps: nat, position: Position)
    ensures
        listed_cells(reachable(board.occupied(), steps), BIT_SIZE as int).contains(position) <==> {
            &&& position.on_board()
            &&& board.at(position) is None
            &&& exists|stone: Position|
                stone.on_board() && board.at(stone) is Some && #[trigger] near(
                    position,
                    stone,
                    steps,
                )
        },
        listed_cells(reachable(board.occupied(), steps), BIT_SIZE as int).no_duplicates(),
{
    let occupied = board.occupied();
    let bits = reachable(occupied, steps);
    let listed = listed_cells(bits, BIT_SIZE as int);
    let index = position.spec_index();
    lemma_layout();
    lemma_listed_cells_sound(bits, BIT_SIZE as int);
    if listed.contains(position) {
        let at = choose|at: int| 0 <= at < listed.len() && listed[at] == position;
        assert(bits.contains(listed[at].spec_index()));
        lemma_cell_of_index(position);
        let j = choose|j: int|
            is_cell(j) && occupied.contains(j) && #[trigger] within(index, j, steps as int);
        let stone = position_of(j);
        lemma_index_of_cell(j);
        assert(near(position, stone, steps));
        assert(board.at(stone) is Some);
    }
    if position.on_board() && board.at(position) is None && exists|stone: Position|
        stone.on_board() && board.at(stone) is Some && #[trigger] near(position, stone, steps) {
        let stone = choose|stone: Position|
            stone.on_board() && board.at(stone) is Some && #[trigger] near(
                position,
                stone,
                steps,
            );
        lemma_cell_of_index(stone);
        lemma_cell_of_index(position);
        assert(occupied.contains(stone.spec_index()));
        assert(within(index, stone.spec_index(), steps as int));
        assert(bits.contains(index));
        lemma_listed_cells_complete(bits, BIT_SIZE as int, position);
    }
    assert forall|j: int, k: int| 0 <= j < listed.len() && 0 <= k < listed.len() && j
        != k implies listed[j] != listed[k] by {
        if j < k {
            assert(listed[j].spec_index() < listed[k].spec_index());
        } else {
            assert(listed[k].spec_index() < listed[j].spec_index());
        }
    }
}

/// With one step the move generator yields exactly the free cells that have
/// a stone on a neighbouring cell.
pub proof fn lemma_limited_moves_are_neighbours(board: GobanView, position: Position)
    ensures
        listed_cells(reachable(board.occupied(), 1), BIT_SIZE as int).contains(position) <==> {
            &&& position.on_board()
            &&& board.at(position) is None
            &&& exists|stone: Position|
                stone.on_board() && #[trigger] adjacent(position, stone) && board.at(stone)
                    is Some
        },
{
    lemma_limited_moves_are_near(board, 1, position);
    if position.on_board() && board.at(position) is None {
        if exists|stone: Position|
            stone.on_board() && board.at(stone) is Some && #[trigger] near(position, stone, 1) {
            let stone = choose|stone: Position|
                stone.on_board() && board.at(stone) is Some && #[trigger] near(
                    position,
                    stone,
                    1,
                );
            assert(adjacent(position, stone));
        }
        if exists|stone: Position|
            stone.on_board() && #[trigger] adjacent(position, stone) && board.at(stone) is Some {
            let stone = choose|stone: Position|
                stone.on_board() && #[trigger] adjacent(position, stone) && board.at(stone)
                    is Some;
            assert(near(position, stone, 1));
        }
    }
}

/// On a board without stones the move generator yields nothing, however
/// many steps it takes.
pub proof fn lemma_no_stones_no_moves(board: GobanView, steps: nat)
    requires
        board.occupied() =~= Set::<int>::empty(),
    ensures
        listed_cells(reachable(board.occupied(), steps), BIT_SIZE as int).len() == 0,
{
    lemma_listed_cells_gap(reachable(board.occupied(), steps), 0, BIT_SIZE as int);
}

} // verus!
