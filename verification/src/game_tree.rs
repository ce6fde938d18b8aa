//! The mathematical model of the search: what the engine computes, stated
//! over board contents and the content of the transposition cache.

use vstd::prelude::*;
use crate::axis_scan::threat_evaluation;
use crate::evaluator::Eval;
use crate::goban::{other_player, stone_of, GobanView, Move, Player, Position, BIT_SIZE};
use crate::move_generator::{listed_cells, reachable};
use crate::transposition_table::Verdicts;
use crate::zobrist_hashing::ZobristHasher;

verus! {

/// Steps from a stone within which moves are generated.
pub const MOVE_RADIUS: usize = 2;

/// The score of a won position.
pub open spec fn top() -> int {
    isize::MAX as int
}

/// The score of a lost position.
pub open spec fn bottom() -> int {
    isize::MIN as int
}

/// A candidate move: the board after it, its cell, and its score.
pub struct ScoredMove {
    pub board: GobanView,
    pub position: Position,
    pub score: int,
}

/// The verdict of the threat evaluator on `board` for `player`.
pub open spec fn verdict(board: GobanView, player: Player) -> Eval {
    threat_evaluation(
        board.stones(stone_of(player)),
        board.stones(stone_of(other_player(player))),
    )
}

/// The verdict on `board` for `player` as the cache gives it, and the cache
/// afterwards: a stored verdict is returned as it is, else the position is
/// evaluated and the verdict stored.
pub open spec fn cached_verdict(cache: Verdicts, board: GobanView, player: Player) -> (
    Eval,
    Verdicts,
) {
    let key = (board.hash, player);
    if cache.contains_key(key) {
        (cache[key], cache)
    } else {
        (verdict(board, player), cache.insert(key, verdict(board, player)))
    }
}

/// A verdict as a number: the top score for a win, the bottom score for a
/// loss.
pub open spec fn eval_score(eval: Eval) -> int {
    match eval {
        Eval::Won => top(),
        Eval::Lost => bottom(),
        Eval::Score(n) => n as int,
    }
}

/// The board after `player` has played on `position`.
pub open spec fn child_board(
    hasher: ZobristHasher,
    board: GobanView,
    player: Player,
    position: Position,
) -> GobanView {
    board.place(hasher, Move { stone: stone_of(player), position })
}

/// The first `upto` of `positions` played by `player` on `board`, each scored
/// for `player` through the cache, and the cache afterwards.
pub open spec fn scored_moves(
    cache: Verdicts,
    hasher: ZobristHasher,
    board: GobanView,
    player: Player,
    positions: Seq<Position>,
    upto: int,
) -> (Seq<ScoredMove>, Verdicts)
    decreases upto,
{
    if upto <= 0 {
        (Seq::empty(), cache)
    } else {
        let (before, known) = scored_moves(cache, hasher, board, player, positions, upto - 1);
        let position = positions[upto - 1];
        let child = child_board(hasher, board, player, position);
        let (eval, after) = cached_verdict(known, child, player);
        (before.push(ScoredMove { board: child, position, score: eval_score(eval) }), after)
    }
}

/// The index of the largest of `scores`, the first of them on a tie.
pub open spec fn first_max(scores: Seq<int>) -> int
    decreases scores.len(),
{
    if scores.len() <= 1 {
        0
    } else {
        let before = first_max(scores.drop_last());
        if scores.last() > scores[before] {
            scores.len() - 1
        } else {
            before
        }
    }
}

/// The scores of `moves`.
pub open spec fn scores_of(moves: Seq<ScoredMove>) -> Seq<int> {
    Seq::new(moves.len(), |i: int| moves[i].score)
}

/// `moves` in the order in which they are searched: best first. Among
/// moves of equal score the one that comes first in `moves` is first.
pub open spec fn best_first(moves: Seq<ScoredMove>) -> Seq<ScoredMove>
    decreases moves.len(),
{
    if moves.len() == 0 {
        Seq::empty()
    } else {
        let best = first_max(scores_of(moves));
        proof {
            lemma_first_max_in_range(scores_of(moves));
        }
        seq![moves[best]] + best_first(moves.remove(best))
    }
}

/// The cells that are candidates for the next move on `board`.
pub open spec fn candidates(board: GobanView) -> Seq<Position> {
    listed_cells(reachable(board.occupied(), MOVE_RADIUS as nat), BIT_SIZE as int)
}

/// The moves of `player` that are searched below `board`, best first: every
/// candidate is played and scored for `player`. With them comes the cache
/// after the scoring.
pub open spec fn children(
    cache: Verdicts,
    hasher: ZobristHasher,
    board: GobanView,
    player: Player,
) -> (Seq<ScoredMove>, Verdicts) {
    let positions = candidates(board);
    let (all, after) = scored_moves(cache, hasher, board, player, positions, positions.len() as int);
    (best_first(all), after)
}

/// The side that moves at a node.
pub open spec fn side_to_move(maximizing: bool) -> Player {
    if maximizing {
        Player::Computer
    } else {
        Player::Opponent
    }
}

/// The larger of two scores.
pub open spec fn larger(a: int, b: int) -> int {
    if a >= b {
        a
    } else {
        b
    }
}

/// The smaller of two scores.
pub open spec fn smaller(a: int, b: int) -> int {
    if a <= b {
        a
    } else {
        b
    }
}

/// The score of `board`, seen from the computer's side, by a search of
/// `depth` plies with the window from `alpha` to `beta`, and the cache
/// afterwards.
///
/// A position that is won or lost for the side to move scores top or bottom.
/// At depth zero the position's own score counts. Else the children are
/// searched in turn, one ply less deep, and the best for the side to move
/// counts; the search of the children ends early once that best reaches the
/// far end of the window.
pub open spec fn search(
    cache: Verdicts,
    hasher: ZobristHasher,
    board: GobanView,
    depth: nat,
    alpha: int,
    beta: int,
    maximizing: bool,
) -> (int, Verdicts)
    decreases depth, 0nat, 0nat,
{
    let (eval, known) = cached_verdict(cache, board, side_to_move(maximizing));
    match eval {
        Eval::Won => (if maximizing { top() } else { bottom() }, known),
        Eval::Lost => (if maximizing { bottom() } else { top() }, known),
        Eval::Score(n) => if depth == 0 {
            (if maximizing { n as int } else { -(n as int) }, known)
        } else {
            let (moves, after) = children(known, hasher, board, side_to_move(maximizing));
            search_children(
                after,
                hasher,
                moves,
                0,
                (depth - 1) as nat,
                alpha,
                beta,
                if maximizing { bottom() } else { top() },
                maximizing,
            )
        },
    }
}

/// The search of the children from `from` on, each `depth` plies deep, given
/// the best score `best` of those before.
pub open spec fn search_children(
    cache: Verdicts,
    hasher: ZobristHasher,
    moves: Seq<ScoredMove>,
    from: int,
    depth: nat,
    alpha: int,
    beta: int,
    best: int,
    maximizing: bool,
) -> (int, Verdicts)
    decreases depth, 1nat, moves.len() - from,
{
    if from < 0 || from >= moves.len() {
        (best, cache)
    } else {
        let (score, after) = search(
            cache,
            hasher,
            moves[from].board,
            depth,
            alpha,
            beta,
            !maximizing,
        );
        if maximizing {
            let best = larger(best, score);
            if best >= beta {
                (best, after)
            } else {
                search_children(
                    after,
                    hasher,
                    moves,
                    from + 1,
                    depth,
                    larger(alpha, best),
                    beta,
                    best,
                    maximizing,
                )
            }
        } else {
            let best = smaller(best, score);
            if best <= alpha {
                (best, after)
            } else {
                search_children(
                    after,
                    hasher,
                    moves,
                    from + 1,
                    depth,
                    alpha,
                    smaller(beta, best),
                    best,
                    maximizing,
                )
            }
        }
    }
}

/// The scores of the first `upto` root moves, each searched `depth` plies
/// deep with the full window and the opponent to move, and the cache
/// afterwards.
pub open spec fn root_scores(
    cache: Verdicts,
    hasher: ZobristHasher,
    moves: Seq<ScoredMove>,
    upto: int,
    depth: nat,
) -> (Seq<int>, Verdicts)
    decreases upto,
{
    if upto <= 0 {
        (Seq::empty(), cache)
    } else {
        let (before, known) = root_scores(cache, hasher, moves, upto - 1, depth);
        let (score, after) = search(
            known,
            hasher,
            moves[upto - 1].board,
            depth,
            bottom(),
            top(),
            false,
        );
        (before.push(score), after)
    }
}

/// The first largest of a list of scores is one of them.
pub proof fn lemma_first_max_in_range(scores: Seq<int>)
    requires
        scores.len() > 0,
    ensures
        0 <= first_max(scores) < scores.len(),
    decreases scores.len(),
{
    if scores.len() > 1 {
        lemma_first_max_in_range(scores.drop_last());
    }
}

/// Ordering the moves best first keeps every move, as often as it occurs,
/// and puts no move before one of a higher score.
pub proof fn lemma_best_first_orders(moves: Seq<ScoredMove>)
    ensures
        best_first(moves).len() == moves.len(),
        best_first(moves).to_multiset() == moves.to_multiset(),
        forall|j: int, k: int|
            0 <= j < k < moves.len() ==> (#[trigger] best_first(moves)[j]).score >= (
            #[trigger] best_first(moves)[k]).score,
    decreases moves.len(),
{
    if moves.len() > 0 {
        let best = first_max(scores_of(moves));
        lemma_first_max_is_largest(scores_of(moves));
        let rest = moves.remove(best);
        let ordered = best_first(rest);
        lemma_best_first_orders(rest);
        let all = best_first(moves);
        assert(all == seq![moves[best]] + ordered);
        moves.to_multiset_ensures();
        rest.to_multiset_ensures();
        ordered.to_multiset_ensures();
        assert(all =~= ordered.insert(0, moves[best]));
        vstd::seq_lib::to_multiset_insert(ordered, 0, moves[best]);
        vstd::seq_lib::to_multiset_remove(moves, best);
        assert(moves.contains(moves[best]));
        assert(all.to_multiset() =~= moves.to_multiset()) by {
            broadcast use vstd::multiset::group_multiset_axioms;

        }
        assert forall|j: int, k: int| 0 <= j < k < moves.len() implies (#[trigger] all[j]).score
            >= (#[trigger] all[k]).score by {
            let later = ordered[k - 1];
            assert(all[k] == later);
            assert(ordered.contains(later));
            assert(rest.to_multiset().count(later) > 0);
            assert(rest.contains(later));
            let at = choose|at: int| 0 <= at < rest.len() && rest[at] == later;
            let from = if at < best {
                at
            } else {
                at + 1
            };
            assert(moves[from] == later);
            assert(scores_of(moves)[from] <= scores_of(moves)[best]);
            if j > 0 {
                assert(all[j] == ordered[j - 1]);
            }
        }
    } else {
        assert(moves =~= Seq::<ScoredMove>::empty());
    }
}

/// The first largest of a list of scores is one of them, and none is larger.
pub proof fn lemma_first_max_is_largest(scores: Seq<int>)
    requires
        scores.len() > 0,
    ensures
        0 <= first_max(scores) < scores.len(),
        forall|i: int| 0 <= i < scores.len() ==> #[trigger] scores[i] <= scores[first_max(scores)],
    decreases scores.len(),
{
    if scores.len() > 1 {
        lemma_first_max_is_largest(scores.drop_last());
        let before = first_max(scores.drop_last());
        assert forall|i: int| 0 <= i < scores.len() implies #[trigger] scores[i] <= scores[first_max(
            scores,
        )] by {
            if i < scores.len() - 1 {
                assert(scores.drop_last()[i] == scores[i]);
            }
        }
    }
}

/// Each of the moves ordered best first is one of the moves.
pub proof fn lemma_best_first_from_moves(moves: Seq<ScoredMove>)
    ensures
        forall|k: int|
            0 <= k < best_first(moves).len() ==> moves.contains(#[trigger] best_first(moves)[k]),
{
    lemma_best_first_orders(moves);
    moves.to_multiset_ensures();
    best_first(moves).to_multiset_ensures();
    assert forall|k: int| 0 <= k < best_first(moves).len() implies moves.contains(
        #[trigger] best_first(moves)[k],
    ) by {
        let found = best_first(moves)[k];
        assert(best_first(moves).contains(found));
        assert(moves.to_multiset().count(found) > 0);
    }
}

} // verus!
