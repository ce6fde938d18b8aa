//! Pruning does not change the score: the law that ties the alpha-beta
//! search to the exhaustive minimax over the same moves.

use vstd::prelude::*;
use crate::axis_scan::lemma_evaluation_bounded;
use crate::evaluator::Eval;
use crate::game_tree::{
    best_first, bottom, cached_verdict, candidates, child_board, children, eval_score, larger,
    scored_moves, search, search_children, side_to_move, smaller, top, verdict, ScoredMove,
};
use crate::goban::{other_player, stone_of, GobanView, Player, Position};
use crate::transposition_table::Verdicts;
use crate::zobrist_hashing::ZobristHasher;

verus! {

/// The first `upto` of `positions` played by `player` on `board`, each scored
/// for `player` by the evaluator itself.
pub open spec fn plainly_scored_moves(
    hasher: ZobristHasher,
    board: GobanView,
    player: Player,
    positions: Seq<Position>,
    upto: int,
) -> Seq<ScoredMove>
    decreases upto,
{
    if upto <= 0 {
        Seq::empty()
    } else {
        let position = positions[upto - 1];
        let child = child_board(hasher, board, player, position);
        plainly_scored_moves(hasher, board, player, positions, upto - 1).push(
            ScoredMove { board: child, position, score: eval_score(verdict(child, player)) },
        )
    }
}

/// The moves of `player` below `board`, best first, as the evaluator itself
/// scores them.
pub open spec fn plain_children(hasher: ZobristHasher, board: GobanView, player: Player) -> Seq<
    ScoredMove,
> {
    let positions = candidates(board);
    best_first(plainly_scored_moves(hasher, board, player, positions, positions.len() as int))
}

/// The score of `board`, seen from the computer's side, by an exhaustive
/// minimax of `depth` plies over the same moves as [`search`]: nothing is
/// cut off and no cache is consulted.
pub open spec fn minimax_value(
    hasher: ZobristHasher,
    board: GobanView,
    depth: nat,
    maximizing: bool,
) -> int
    decreases depth, 0nat, 0nat,
{
    match verdict(board, side_to_move(maximizing)) {
        Eval::Won => if maximizing { top() } else { bottom() },
        Eval::Lost => if maximizing { bottom() } else { top() },
        Eval::Score(n) => if depth == 0 {
            if maximizing { n as int } else { -(n as int) }
        } else {
            best_reply(
                hasher,
                plain_children(hasher, board, side_to_move(maximizing)),
                0,
                (depth - 1) as nat,
                maximizing,
            )
        },
    }
}

/// The best, for the side to move, of the minimax scores of the moves from
/// `from` on, each `depth` plies deep.
pub open spec fn best_reply(
    hasher: ZobristHasher,
    moves: Seq<ScoredMove>,
    from: int,
    depth: nat,
    maximizing: bool,
) -> int
    decreases depth, 1nat, moves.len() - from,
{
    if from < 0 || from >= moves.len() {
        if maximizing { bottom() } else { top() }
    } else {
        let score = minimax_value(hasher, moves[from].board, depth, !maximizing);
        let rest = best_reply(hasher, moves, from + 1, depth, maximizing);
        if maximizing { larger(score, rest) } else { smaller(score, rest) }
    }
}

/// Whether the exhaustive minimax of `board` to `depth` asks for the verdict
/// on the position and side `asked`: on the board itself for the side to
/// move and, unless the game is decided there or the depth is used up, on
/// each candidate move for the side that makes it and on whatever the
/// minimax of a child asks for.
#[verifier::opaque]
pub open spec fn asks(
    hasher: ZobristHasher,
    board: GobanView,
    depth: nat,
    maximizing: bool,
    asked: (GobanView, Player),
) -> bool
    decreases depth,
{
    let side = side_to_move(maximizing);
    let reply = !maximizing;
    ||| asked == (board, side)
    ||| {
        &&& depth > 0
        &&& verdict(board, side) is Score
        &&& {
            ||| exists|at: int|
                0 <= at < candidates(board).len() && asked == (
                    #[trigger] child_board(hasher, board, side, candidates(board)[at]),
                    side,
                )
            ||| exists|at: int|
                0 <= at < plain_children(hasher, board, side).len() && asks(
                    hasher,
                    (#[trigger] plain_children(hasher, board, side)[at]).board,
                    (depth - 1) as nat,
                    reply,
                    asked,
                )
        }
    }
}

/// The minimax of a board asks about the board itself.
pub proof fn lemma_asks_self(hasher: ZobristHasher, board: GobanView, depth: nat, maximizing: bool)
    ensures
        asks(hasher, board, depth, maximizing, (board, side_to_move(maximizing))),
{
    reveal(asks);
}

/// The minimax of a board that is not decided asks about each candidate
/// move.
pub proof fn lemma_asks_candidate(
    hasher: ZobristHasher,
    board: GobanView,
    depth: nat,
    maximizing: bool,
    at: int,
)
    requires
        depth > 0,
        verdict(board, side_to_move(maximizing)) is Score,
        0 <= at < candidates(board).len(),
    ensures
        asks(
            hasher,
            board,
            depth,
            maximizing,
            (
                child_board(hasher, board, side_to_move(maximizing), candidates(board)[at]),
                side_to_move(maximizing),
            ),
        ),
{
    reveal(asks);
}

/// The minimax of a board that is not decided asks about all that the
/// minimax of a child asks about.
pub proof fn lemma_asks_child(
    hasher: ZobristHasher,
    board: GobanView,
    depth: nat,
    maximizing: bool,
    at: int,
    asked: (GobanView, Player),
)
    requires
        depth > 0,
        verdict(board, side_to_move(maximizing)) is Score,
        0 <= at < plain_children(hasher, board, side_to_move(maximizing)).len(),
        asks(
            hasher,
            plain_children(hasher, board, side_to_move(maximizing))[at].board,
            (depth - 1) as nat,
            !maximizing,
            asked,
        ),
    ensures
        asks(hasher, board, depth, maximizing, asked),
{
    reveal_with_fuel(asks, 1);
    let plain = plain_children(hasher, board, side_to_move(maximizing));
    assert(asks(hasher, plain[at].board, (depth - 1) as nat, !maximizing, asked));
}

/// Whether no two positions that the exhaustive minimax of `board` asks
/// about share hash and side and differ in their verdict.
pub open spec fn collision_free(
    hasher: ZobristHasher,
    board: GobanView,
    depth: nat,
    maximizing: bool,
) -> bool {
    forall|first: (GobanView, Player), second: (GobanView, Player)|
        #![trigger asks(hasher, board, depth, maximizing, first), asks(hasher, board, depth, maximizing, second)]
        asks(hasher, board, depth, maximizing, first) && asks(
            hasher,
            board,
            depth,
            maximizing,
            second,
        ) && first.0.hash == second.0.hash && first.1 == second.1 ==> verdict(first.0, first.1)
            == verdict(second.0, second.1)
}

/// Whether every verdict that the cache holds for a position that the
/// exhaustive minimax of `board` asks about is the evaluator's.
pub open spec fn faithful(
    cache: Verdicts,
    hasher: ZobristHasher,
    board: GobanView,
    depth: nat,
    maximizing: bool,
) -> bool {
    forall|asked: (GobanView, Player)|
        #![trigger asks(hasher, board, depth, maximizing, asked)]
        asks(hasher, board, depth, maximizing, asked) && cache.contains_key(
            (asked.0.hash, asked.1),
        ) ==> cache[(asked.0.hash, asked.1)] == verdict(asked.0, asked.1)
}

/// Whether the minimax of `root` asks about all that the minimax of `board`
/// asks about.
pub open spec fn covers(
    hasher: ZobristHasher,
    root: (GobanView, nat, bool),
    board: GobanView,
    depth: nat,
    maximizing: bool,
) -> bool {
    forall|asked: (GobanView, Player)|
        #![trigger asks(hasher, board, depth, maximizing, asked)]
        asks(hasher, board, depth, maximizing, asked) ==> asks(
            hasher,
            root.0,
            root.1,
            root.2,
            asked,
        )
}

/// With a faithful cache and no collision, the cache gives the evaluator's
/// verdict and stays faithful.
proof fn lemma_cached_verdict_faithful(
    cache: Verdicts,
    hasher: ZobristHasher,
    root: (GobanView, nat, bool),
    board: GobanView,
    player: Player,
)
    requires
        collision_free(hasher, root.0, root.1, root.2),
        faithful(cache, hasher, root.0, root.1, root.2),
        asks(hasher, root.0, root.1, root.2, (board, player)),
    ensures
        cached_verdict(cache, board, player).0 == verdict(board, player),
        faithful(cached_verdict(cache, board, player).1, hasher, root.0, root.1, root.2),
{
    let after = cached_verdict(cache, board, player).1;
    assert forall|asked: (GobanView, Player)|
        #![trigger asks(hasher, root.0, root.1, root.2, asked)]
        asks(hasher, root.0, root.1, root.2, asked) && after.contains_key(
            (asked.0.hash, asked.1),
        ) implies after[(asked.0.hash, asked.1)] == verdict(asked.0, asked.1) by {
        if !cache.contains_key((asked.0.hash, asked.1)) {
            assert(asked.0.hash == board.hash && asked.1 == player);
            assert(asks(hasher, root.0, root.1, root.2, (board, player)));
            assert(verdict(asked.0, asked.1) == verdict(board, player));
        }
    }
}

/// With a faithful cache and no collision, the moves scored through the
/// cache are the moves as the evaluator scores them, and the cache stays
/// faithful.
proof fn lemma_scored_moves_faithful(
    cache: Verdicts,
    hasher: ZobristHasher,
    root: (GobanView, nat, bool),
    board: GobanView,
    player: Player,
    upto: int,
)
    requires
        collision_free(hasher, root.0, root.1, root.2),
        faithful(cache, hasher, root.0, root.1, root.2),
        0 <= upto <= candidates(board).len(),
        forall|at: int|
            0 <= at < candidates(board).len() ==> asks(
                hasher,
                root.0,
                root.1,
                root.2,
                (#[trigger] child_board(hasher, board, player, candidates(board)[at]), player),
            ),
    ensures
        scored_moves(cache, hasher, board, player, candidates(board), upto).0
            == plainly_scored_moves(hasher, board, player, candidates(board), upto),
        faithful(
            scored_moves(cache, hasher, board, player, candidates(board), upto).1,
            hasher,
            root.0,
            root.1,
            root.2,
        ),
    decreases upto,
{
    if upto > 0 {
        lemma_scored_moves_faithful(cache, hasher, root, board, player, upto - 1);
        let known = scored_moves(cache, hasher, board, player, candidates(board), upto - 1).1;
        let child = child_board(hasher, board, player, candidates(board)[upto - 1]);
        assert(asks(hasher, root.0, root.1, root.2, (child, player)));
        lemma_cached_verdict_faithful(known, hasher, root, child, player);
    }
}

/// What the pruned search of a node tells of the node's minimax score:
/// a score at or above the window's upper end is a lower bound, a score
/// at or below its lower end is an upper bound, and a score inside the
/// window is the minimax score itself.
pub open spec fn bounds_hold(score: int, value: int, alpha: int, beta: int) -> bool {
    &&& score >= beta ==> value >= score
    &&& score <= alpha ==> value <= score
    &&& alpha < score < beta ==> score == value
}

/// What the pruned search of some children tells of the best of their
/// minimax scores, given the best score `best` of the children before.
pub open spec fn reply_bounds_hold(
    found: int,
    value: int,
    alpha: int,
    beta: int,
    best: int,
    maximizing: bool,
) -> bool {
    if maximizing {
        &&& found >= beta ==> value >= found
        &&& found < beta ==> value <= found && best <= found && (found > alpha ==> value == found)
    } else {
        &&& found <= alpha ==> value <= found
        &&& found > alpha ==> value >= found && best >= found && (found < beta ==> value == found)
    }
}

/// The pruned search of a node that the minimax of the root covers keeps
/// the cache faithful and bounds the node's minimax score as
/// [`bounds_hold`] says.
proof fn lemma_search_bounds(
    cache: Verdicts,
    hasher: ZobristHasher,
    root: (GobanView, nat, bool),
    board: GobanView,
    depth: nat,
    alpha: int,
    beta: int,
    maximizing: bool,
)
    requires
        collision_free(hasher, root.0, root.1, root.2),
        faithful(cache, hasher, root.0, root.1, root.2),
        covers(hasher, root, board, depth, maximizing),
        bottom() <= alpha < beta <= top(),
    ensures
        faithful(
            search(cache, hasher, board, depth, alpha, beta, maximizing).1,
            hasher,
            root.0,
            root.1,
            root.2,
        ),
        bounds_hold(
            search(cache, hasher, board, depth, alpha, beta, maximizing).0,
            minimax_value(hasher, board, depth, maximizing),
            alpha,
            beta,
        ),
    decreases depth, 0nat, 0nat,
{
    let side = side_to_move(maximizing);
    lemma_asks_self(hasher, board, depth, maximizing);
    lemma_cached_verdict_faithful(cache, hasher, root, board, side);
    let (eval, known) = cached_verdict(cache, board, side);
    match eval {
        Eval::Score(n) => {
            if depth > 0 {
                let positions = candidates(board);
                let plain = plain_children(hasher, board, side);
                assert forall|at: int| 0 <= at < positions.len() implies asks(
                    hasher,
                    root.0,
                    root.1,
                    root.2,
                    (#[trigger] child_board(hasher, board, side, positions[at]), side),
                ) by {
                    lemma_asks_candidate(hasher, board, depth, maximizing, at);
                }
                lemma_scored_moves_faithful(
                    known,
                    hasher,
                    root,
                    board,
                    side,
                    positions.len() as int,
                );
                let (moves, after) = children(known, hasher, board, side);
                assert(moves == plain);
                assert forall|at: int| 0 <= at < plain.len() implies covers(
                    hasher,
                    root,
                    (#[trigger] plain[at]).board,
                    (depth - 1) as nat,
                    !maximizing,
                ) by {
                    let reply = !maximizing;
                    assert forall|asked: (GobanView, Player)|
                        #![trigger asks(hasher, plain[at].board, (depth - 1) as nat, reply, asked)]
                        asks(
                            hasher,
                            plain[at].board,
                            (depth - 1) as nat,
                            reply,
                            asked,
                        ) implies asks(hasher, root.0, root.1, root.2, asked) by {
                        lemma_asks_child(hasher, board, depth, maximizing, at, asked);
                    }
                }
                lemma_search_children_bounds(
                    after,
                    hasher,
                    root,
                    moves,
                    0,
                    (depth - 1) as nat,
                    alpha,
                    beta,
                    if maximizing { bottom() } else { top() },
                    maximizing,
                );
            }
        },
        _ => {},
    }
}

/// The pruned search of the children from `from` on keeps the cache
/// faithful, and bounds the best of their minimax scores as
/// [`reply_bounds_hold`] says.
proof fn lemma_search_children_bounds(
    cache: Verdicts,
    hasher: ZobristHasher,
    root: (GobanView, nat, bool),
    moves: Seq<ScoredMove>,
    from: int,
    depth: nat,
    alpha: int,
    beta: int,
    best: int,
    maximizing: bool,
)
    requires
        collision_free(hasher, root.0, root.1, root.2),
        faithful(cache, hasher, root.0, root.1, root.2),
        forall|at: int|
            0 <= at < moves.len() ==> covers(
                hasher,
                root,
                (#[trigger] moves[at]).board,
                depth,
                !maximizing,
            ),
        0 <= from <= moves.len(),
        bottom() <= alpha < beta <= top(),
        maximizing ==> bottom() <= best <= alpha,
        !maximizing ==> beta <= best <= top(),
    ensures
        faithful(
            search_children(cache, hasher, moves, from, depth, alpha, beta, best, maximizing).1,
            hasher,
            root.0,
            root.1,
            root.2,
        ),
        reply_bounds_hold(
            search_children(cache, hasher, moves, from, depth, alpha, beta, best, maximizing).0,
            best_reply(hasher, moves, from, depth, maximizing),
            alpha,
            beta,
            best,
            maximizing,
        ),
    decreases depth, 1nat, moves.len() - from,
{
    if from < moves.len() {
        lemma_search_bounds(
            cache,
            hasher,
            root,
            moves[from].board,
            depth,
            alpha,
            beta,
            !maximizing,
        );
        let (score, after) = search(
            cache,
            hasher,
            moves[from].board,
            depth,
            alpha,
            beta,
            !maximizing,
        );
        if maximizing {
            let better = larger(best, score);
            if better < beta {
                lemma_search_children_bounds(
                    after,
                    hasher,
                    root,
                    moves,
                    from + 1,
                    depth,
                    larger(alpha, better),
                    beta,
                    better,
                    maximizing,
                );
            }
        } else {
            let better = smaller(best, score);
            if better > alpha {
                lemma_search_children_bounds(
                    after,
                    hasher,
                    root,
                    moves,
                    from + 1,
                    depth,
                    alpha,
                    smaller(beta, better),
                    better,
                    maximizing,
                );
            }
        }
    }
}

/// Pruning does not change the score. Where no two positions that the
/// exhaustive minimax asks about share hash and side and differ in their
/// verdict, and the cache holds no wrong verdict for any of them, the search
/// with the full window returns the score of the exhaustive minimax over
/// the same moves.
pub proof fn lemma_pruning_keeps_score(
    cache: Verdicts,
    hasher: ZobristHasher,
    board: GobanView,
    depth: nat,
    maximizing: bool,
)
    requires
        collision_free(hasher, board, depth, maximizing),
        faithful(cache, hasher, board, depth, maximizing),
    ensures
        search(cache, hasher, board, depth, bottom(), top(), maximizing).0 == minimax_value(
            hasher,
            board,
            depth,
            maximizing,
        ),
{
    lemma_search_bounds(
        cache,
        hasher,
        (board, depth, maximizing),
        board,
        depth,
        bottom(),
        top(),
        maximizing,
    );
    lemma_value_in_range(hasher, board, depth, maximizing);
}

/// A minimax score lies between the bottom and the top score.
pub proof fn lemma_value_in_range(hasher: ZobristHasher, board: GobanView, depth: nat, maximizing: bool)
    ensures
        bottom() <= minimax_value(hasher, board, depth, maximizing) <= top(),
    decreases depth, 0nat, 0nat,
{
    match verdict(board, side_to_move(maximizing)) {
        Eval::Score(n) => {
            lemma_evaluation_bounded(
                board.stones(stone_of(side_to_move(maximizing))),
                board.stones(stone_of(other_player(side_to_move(maximizing)))),
            );
            if depth > 0 {
                lemma_best_reply_in_range(
                    hasher,
                    plain_children(hasher, board, side_to_move(maximizing)),
                    0,
                    (depth - 1) as nat,
                    maximizing,
                );
            }
        },
        _ => {},
    }
}

/// The best of some minimax scores lies between the bottom and the top
/// score.
pub proof fn lemma_best_reply_in_range(
    hasher: ZobristHasher,
    moves: Seq<ScoredMove>,
    from: int,
    depth: nat,
    maximizing: bool,
)
    ensures
        bottom() <= best_reply(hasher, moves, from, depth, maximizing) <= top(),
    decreases depth, 1nat, moves.len() - from,
{
    if 0 <= from < moves.len() {
        lemma_value_in_range(hasher, moves[from].board, depth, !maximizing);
        lemma_best_reply_in_range(hasher, moves, from + 1, depth, maximizing);
    }
}

} // verus!
