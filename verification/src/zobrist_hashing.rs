//! Incremental position hashing after Zobrist: one random 64-bit key per
//! cell and colour, combined by exclusive or.

use vstd::prelude::*;
use crate::goban::{Move, Stone, GOBAN_SIZE, GOBAN_TOTAL_SIZE};

verus! {

/// The hash of a position.
pub type ZobristHash = u64;

/// The hash of the empty board.
pub const INITIAL_BOARD_HASH: ZobristHash = 0;

/// `rand::random::<u64>()`: a value drawn from the thread's generator.
/// Nothing is promised of it.
#[verifier::external_body]
fn random_key() -> u64 {
    rand::random()
}

/// The table of keys, fixed once it is drawn.
pub struct ZobristHasher {
    table: Vec<[u64; 2]>,
}

/// Column of the key table that belongs to a colour.
pub open spec fn stone_index(stone: Stone) -> int {
    match stone {
        Stone::Black => 0,
        Stone::White => 1,
    }
}

impl ZobristHasher {
    /// The table holds a pair of keys for each of the 361 cells.
    pub closed spec fn wf(&self) -> bool {
        self.table@.len() == GOBAN_TOTAL_SIZE
    }

    /// The key of a stone of colour `stone` on cell `cell`, counted row by
    /// row over the 361 cells.
    pub closed spec fn key_at(&self, cell: int, stone: Stone) -> u64 {
        self.table@[cell][stone_index(stone)]
    }

    /// The key of a move.
    pub open spec fn key(&self, played_move: Move) -> u64 {
        self.key_at(played_move.position.row * GOBAN_SIZE + played_move.position.col, played_move.stone)
    }

    /// The hash after `played_move`, from the hash before it.
    pub open spec fn updated(&self, hash: u64, played_move: Move) -> u64 {
        hash ^ self.key(played_move)
    }

    /// The hash after each move of `moves` in turn.
    pub open spec fn folded(&self, hash: u64, moves: Seq<Move>) -> u64
        decreases moves.len(),
    {
        if moves.len() == 0 {
            hash
        } else {
            self.updated(self.folded(hash, moves.drop_last()), moves.last())
        }
    }

    /// Draws a fresh table of random keys.
    pub fn initialize() -> (hasher: Self)
        ensures
            hasher.wf(),
    {
        Self { table: initialize_zobrist_table() }
    }

    /// Folds the key of `played_move` into `hash`.
    pub fn update_hash(&self, hash: u64, played_move: Move) -> (updated: ZobristHash)
        requires
            self.wf(),
            played_move.position.on_board(),
        ensures
            updated == self.updated(hash, played_move),
    {
        let stone_index: usize = match played_move.stone {
            Stone::Black => 0,
            Stone::White => 1,
        };
        let position_index: usize = (played_move.position.row * GOBAN_SIZE)
            + played_move.position.col;
        hash ^ self.table[position_index][stone_index]
    }
}

/// Folding two keys into a hash gives the same in either order.
proof fn lemma_keys_commute(hash: u64, first: u64, second: u64)
    ensures
        (hash ^ first) ^ second == (hash ^ second) ^ first,
{
    assert((hash ^ first) ^ second == (hash ^ second) ^ first) by (bit_vector);
}

/// The hash after a list of moves is the hash after the list without one of
/// them, with that move's key folded in.
proof fn lemma_fold_without(hasher: ZobristHasher, hash: u64, moves: Seq<Move>, at: int)
    requires
        0 <= at < moves.len(),
    ensures
        hasher.folded(hash, moves) == hasher.updated(
            hasher.folded(hash, moves.remove(at)),
            moves[at],
        ),
    decreases moves.len(),
{
    if at == moves.len() - 1 {
        assert(moves.remove(at) =~= moves.drop_last());
    } else {
        let shorter = moves.drop_last();
        lemma_fold_without(hasher, hash, shorter, at);
        assert(moves.remove(at).drop_last() =~= shorter.remove(at));
        assert(moves.remove(at).last() == moves.last());
        lemma_keys_commute(
            hasher.folded(hash, shorter.remove(at)),
            hasher.key(moves[at]),
            hasher.key(moves.last()),
        );
    }
}

/// The hash of a position does not depend on the order in which the moves
/// that led to it were applied: two lists that hold the same moves, each as
/// often as the other, give the same hash from the same start.
pub proof fn lemma_hash_order_independent(
    hasher: ZobristHasher,
    hash: u64,
    first: Seq<Move>,
    second: Seq<Move>,
)
    requires
        first.to_multiset() == second.to_multiset(),
    ensures
        hasher.folded(hash, first) == hasher.folded(hash, second),
    decreases first.len(),
{
    first.to_multiset_ensures();
    second.to_multiset_ensures();
    if first.len() == 0 {
    } else {
        let last = first.last();
        assert(first.contains(last));
        assert(second.to_multiset().count(last) > 0);
        assert(second.contains(last));
        let at = choose|at: int| 0 <= at < second.len() && second[at] == last;
        assert(first.remove(first.len() - 1) =~= first.drop_last());
        lemma_hash_order_independent(hasher, hash, first.drop_last(), second.remove(at));
        lemma_fold_without(hasher, hash, second, at);
    }
}

/// A pair of random keys for each of the 361 cells.
fn initialize_zobrist_table() -> (table: Vec<[u64; 2]>)
    ensures
        table@.len() == GOBAN_TOTAL_SIZE,
{
    let mut table: Vec<[u64; 2]> = Vec::new();
    let mut cell: usize = 0;
    while cell < GOBAN_TOTAL_SIZE
        invariant
            cell <= GOBAN_TOTAL_SIZE,
            table@.len() == cell,
        decreases GOBAN_TOTAL_SIZE - cell,
    {
        let black = random_key();
        let white = random_key();
        table.push([black, white]);
        cell += 1;
    }
    table
}

} // verus!
