//! What a search costs, as a mathematical model: how many nodes it visits
//! and how many verdicts it takes from the cache or from the evaluator.

use vstd::prelude::*;
use crate::game_tree::{
    bottom, cached_verdict, candidates, child_board, children, larger, scored_moves, search,
    side_to_move, smaller, top, ScoredMove,
};
use crate::goban::{GobanView, Player, Position};
use crate::transposition_table::Verdicts;
use crate::zobrist_hashing::ZobristHasher;

verus! {

/// The cost of a piece of a search.
pub struct Tally {
    /// Nodes visited.
    pub visited: nat,
    /// Verdicts found in the cache.
    pub hits: nat,
    /// Verdicts that the evaluator had to give.
    pub misses: nat,
}

/// The counters of an engine: nodes visited, verdicts asked for, and of
/// those the ones found in the cache and the ones not found.
pub struct Counts {
    pub visited: int,
    pub evaluated: int,
    pub hits: int,
    pub misses: int,
}

impl Tally {
    /// No cost.
    pub open spec fn zero() -> Tally {
        Tally { visited: 0, hits: 0, misses: 0 }
    }

    /// The cost of two pieces together.
    pub open spec fn plus(self, other: Tally) -> Tally {
        Tally {
            visited: self.visited + other.visited,
            hits: self.hits + other.hits,
            misses: self.misses + other.misses,
        }
    }
}

/// A count as a counter holds it: counters stop at the largest number they
/// can hold.
pub open spec fn capped(count: int) -> int {
    if count <= usize::MAX {
        count
    } else {
        usize::MAX as int
    }
}

/// The counters after a piece of search that costs `tally`.
pub open spec fn counted(counts: Counts, tally: Tally) -> Counts {
    Counts {
        visited: capped(counts.visited + tally.visited),
        evaluated: capped(counts.evaluated + tally.hits + tally.misses),
        hits: capped(counts.hits + tally.hits),
        misses: capped(counts.misses + tally.misses),
    }
}

/// Whether each counter holds a number it can hold.
pub open spec fn holdable(counts: Counts) -> bool {
    &&& 0 <= counts.visited <= usize::MAX
    &&& 0 <= counts.evaluated <= usize::MAX
    &&& 0 <= counts.hits <= usize::MAX
    &&& 0 <= counts.misses <= usize::MAX
}

/// Counting two pieces one after the other is counting them together.
pub proof fn lemma_counted_twice(counts: Counts, first: Tally, second: Tally)
    requires
        holdable(counts),
    ensures
        counted(counted(counts, first), second) == counted(counts, first.plus(second)),
        holdable(counted(counts, first)),
        counted(counts, Tally::zero()) == counts,
{
}

/// The cost of asking for the verdict on `board` for `player`: one hit if
/// the cache holds it, else one miss.
pub open spec fn lookup_tally(cache: Verdicts, board: GobanView, player: Player) -> Tally {
    if cache.contains_key((board.hash, player)) {
        Tally { visited: 0, hits: 1, misses: 0 }
    } else {
        Tally { visited: 0, hits: 0, misses: 1 }
    }
}

/// The cost of scoring the first `upto` of `positions`.
pub open spec fn scored_tally(
    cache: Verdicts,
    hasher: ZobristHasher,
    board: GobanView,
    player: Player,
    positions: Seq<Position>,
    upto: int,
) -> Tally
    decreases upto,
{
    if upto <= 0 {
        Tally::zero()
    } else {
        let known = scored_moves(cache, hasher, board, player, positions, upto - 1).1;
        scored_tally(cache, hasher, board, player, positions, upto - 1).plus(
            lookup_tally(known, child_board(hasher, board, player, positions[upto - 1]), player),
        )
    }
}

/// The cost of generating the children of a node: each candidate is scored.
pub open spec fn children_tally(
    cache: Verdicts,
    hasher: ZobristHasher,
    board: GobanView,
    player: Player,
) -> Tally {
    scored_tally(cache, hasher, board, player, candidates(board), candidates(board).len() as int)
}

/// The cost of the search of a node: the node is visited and its verdict
/// asked for; unless the game is decided there or the depth is used up, its
/// children are generated and searched.
pub open spec fn search_tally(
    cache: Verdicts,
    hasher: ZobristHasher,
    board: GobanView,
    depth: nat,
    alpha: int,
    beta: int,
    maximizing: bool,
) -> Tally
    decreases depth, 0nat, 0nat,
{
    let side = side_to_move(maximizing);
    let (eval, known) = cached_verdict(cache, board, side);
    let own = Tally { visited: 1, hits: 0, misses: 0 }.plus(lookup_tally(cache, board, side));
    if eval is Score && depth > 0 {
        let (moves, after) = children(known, hasher, board, side);
        own.plus(children_tally(known, hasher, board, side)).plus(
            search_children_tally(
                after,
                hasher,
                moves,
                0,
                (depth - 1) as nat,
                alpha,
                beta,
                if maximizing { bottom() } else { top() },
                maximizing,
            ),
        )
    } else {
        own
    }
}

/// The cost of the search of the children from `from` on: each is searched
/// until one ends the search early.
pub open spec fn search_children_tally(
    cache: Verdicts,
    hasher: ZobristHasher,
    moves: Seq<ScoredMove>,
    from: int,
    depth: nat,
    alpha: int,
    beta: int,
    best: int,
    maximizing: bool,
) -> Tally
    decreases depth, 1nat, moves.len() - from,
{
    if from < 0 || from >= moves.len() {
        Tally::zero()
    } else {
        let board = moves[from].board;
        let (score, after) = search(cache, hasher, board, depth, alpha, beta, !maximizing);
        let first = search_tally(cache, hasher, board, depth, alpha, beta, !maximizing);
        if maximizing {
            let best = larger(best, score);
            if best >= beta {
                first
            } else {
                first.plus(
                    search_children_tally(
                        after,
                        hasher,
                        moves,
                        from + 1,
                        depth,
                        larger(alpha, best),
                        beta,
                        best,
                        maximizing,
                    ),
                )
            }
        } else {
            let best = smaller(best, score);
            if best <= alpha {
                first
            } else {
                first.plus(
                    search_children_tally(
                        after,
                        hasher,
                        moves,
                        from + 1,
                        depth,
                        alpha,
                        smaller(beta, best),
                        best,
                        maximizing,
                    ),
                )
            }
        }
    }
}

/// The cost of scoring the first `upto` root moves, each by a search of
/// `depth` plies with the full window and the opponent to move.
pub open spec fn root_tally(
    cache: Verdicts,
    hasher: ZobristHasher,
    moves: Seq<ScoredMove>,
    upto: int,
    depth: nat,
) -> Tally
    decreases upto,
{
    if upto <= 0 {
        Tally::zero()
    } else {
        let known = crate::game_tree::root_scores(cache, hasher, moves, upto - 1, depth).1;
        root_tally(cache, hasher, moves, upto - 1, depth).plus(
            search_tally(known, hasher, moves[upto - 1].board, depth, bottom(), top(), false),
        )
    }
}

} // verus!
