//! The engine: a game in progress, the depth-limited alpha-beta search over
//! it, and the choice of the computer's move.

use vstd::prelude::*;
use std::rc::Rc;
use crate::evaluator::Eval;
use crate::game_tree::{
    best_first, cached_verdict, candidates, child_board, children, eval_score, first_max, larger,
    smaller,
    lemma_best_first_from_moves, lemma_best_first_orders, lemma_first_max_in_range, root_scores,
    scored_moves, scores_of,
    search, search_children, verdict, ScoredMove, MOVE_RADIUS,
};
use crate::goban::{
    stone_of, Goban, GobanView, Move, Player, Position, Stone, BIT_SIZE, GOBAN_SIZE,
};
use crate::move_generator::{lemma_listed_cells_sound, reachable};
use crate::tally::{
    capped, children_tally, counted, lemma_counted_twice, lookup_tally, root_tally, scored_tally,
    holdable, search_children_tally, search_tally, Counts, Tally,
};
use crate::axis_scan::{lemma_evaluation_bounded, within_limit};
use crate::threat_evaluator::ThreatEvaluator;
use crate::transposition_table::{TranspositionTable, Verdicts};
use crate::win_detection::{has_five, lemma_five_decides};
use crate::zobrist_hashing::ZobristHasher;

verus! {

/// Where a game stands.
#[derive(Debug, Clone, Copy, PartialEq, Eq, Structural)]
pub enum GameState {
    InProgress,
    Won(Player),
}

/// A game in progress, with the evaluator and the transposition cache that
/// the search uses.
pub struct Gomoku {
    goban: Goban,
    evaluator: ThreatEvaluator,
    transposition_table: TranspositionTable,
    zobrist_hasher: Rc<ZobristHasher>,
    visited_nodes: usize,
    evaluated_nodes: usize,
    evaluated_nodes_hit: usize,
    evaluated_nodes_miss: usize,
}

/// A candidate move: the board after it, its cell, and its score.
pub struct NodeScore {
    node: Goban,
    position: Position,
    score: isize,
}

impl View for NodeScore {
    type V = ScoredMove;

    closed spec fn view(&self) -> ScoredMove {
        ScoredMove { board: self.node@, position: self.position, score: self.score as int }
    }
}

impl NodeScore {
    /// The board is well formed and hashed with `hasher`.
    pub closed spec fn fits(&self, hasher: ZobristHasher) -> bool {
        self.node.wf() && self.node.hasher() == hasher
    }

    /// The move to `position` that leads to `node` and scores `score`.
    pub fn new(node: Goban, position: Position, score: isize) -> (scored: Self)
        ensures
            scored@ == (ScoredMove { board: node@, position, score: score as int }),
            forall|hasher: ZobristHasher|
                node.wf() && node.hasher() == hasher ==> #[trigger] scored.fits(hasher),
    {
        Self { node, position, score }
    }
}

/// The candidate moves that `nodes` stand for.
pub open spec fn views(nodes: Seq<NodeScore>) -> Seq<ScoredMove> {
    Seq::new(nodes.len(), |i: int| nodes[i]@)
}

/// Every stored score is within the evaluator's limit.
pub open spec fn bounded(cache: Verdicts) -> bool {
    forall|key: (u64, Player)| #[trigger] cache.contains_key(key) ==> within_limit(cache[key])
}

/// The state of the game as the verdict on the board for the computer tells
/// it.
pub open spec fn state_of(eval: Eval) -> GameState {
    match eval {
        Eval::Won => GameState::Won(Player::Computer),
        Eval::Lost => GameState::Won(Player::Opponent),
        Eval::Score(_) => GameState::InProgress,
    }
}

/// Whether a move to `position` is refused on `board`: the cell is off the
/// board or taken.
pub open spec fn refused(board: GobanView, position: Position) -> bool {
    !position.on_board() || board.at(position) is Some
}

impl Default for Gomoku {
    /// A new game on the empty board, with a fresh table of keys and an
    /// empty cache.
    fn default() -> (game: Self)
        ensures
            game.wf(),
            game.board() == (GobanView { white: Set::empty(), black: Set::empty(), hash: 0 }),
            game.cache() == Verdicts::empty(),
            game.counts() == no_counts(),
    {
        let hasher = Rc::new(ZobristHasher::initialize());

        Self {
            goban: Goban::new(Rc::clone(&hasher)),
            evaluator: ThreatEvaluator::new(),
            transposition_table: TranspositionTable::new(),
            zobrist_hasher: hasher,
            visited_nodes: 0,
            evaluated_nodes: 0,
            evaluated_nodes_hit: 0,
            evaluated_nodes_miss: 0,
        }
    }
}

impl Gomoku {
    /// The content of the board.
    pub closed spec fn board(&self) -> GobanView {
        self.goban@
    }

    /// The table of keys that positions are hashed with.
    pub closed spec fn hasher(&self) -> ZobristHasher {
        *self.zobrist_hasher
    }

    /// The content of the transposition cache.
    pub closed spec fn cache(&self) -> Verdicts {
        self.transposition_table@
    }

    /// The counters: nodes visited, verdicts asked for, and of those the
    /// ones found in the cache and the ones not found there.
    pub closed spec fn counts(&self) -> Counts {
        Counts {
            visited: self.visited_nodes as int,
            evaluated: self.evaluated_nodes as int,
            hits: self.evaluated_nodes_hit as int,
            misses: self.evaluated_nodes_miss as int,
        }
    }

    /// Nodes that the search has visited since the computer's last move
    /// began.
    pub fn visited_nodes(&self) -> (count: usize)
        ensures
            count == self.counts().visited,
    {
        self.visited_nodes
    }

    /// Verdicts that were asked for since the computer's last move began.
    pub fn evaluated_nodes(&self) -> (count: usize)
        ensures
            count == self.counts().evaluated,
    {
        self.evaluated_nodes
    }

    /// Verdicts that were found in the cache since the computer's last move
    /// began.
    pub fn evaluated_nodes_hit(&self) -> (count: usize)
        ensures
            count == self.counts().hits,
    {
        self.evaluated_nodes_hit
    }

    /// Verdicts that the evaluator had to give since the computer's last
    /// move began.
    pub fn evaluated_nodes_miss(&self) -> (count: usize)
        ensures
            count == self.counts().misses,
    {
        self.evaluated_nodes_miss
    }

    /// The parts of the engine are well formed and fit together.
    pub closed spec fn wf(&self) -> bool {
        &&& self.goban.wf()
        &&& self.goban.hasher() == *self.zobrist_hasher
        &&& self.evaluator.sound()
        &&& bounded(self.transposition_table@)
    }

    /// The board.
    pub fn goban(&self) -> (goban: &Goban)
        requires
            self.wf(),
        ensures
            goban@ == self.board(),
            goban.wf(),
            goban.hasher() == self.hasher(),
    {
        &self.goban
    }

    /// The board as [`Goban::render`] draws it.
    pub fn board_text(&self) -> (text: String)
        ensures
            text@ == crate::drawing::rendered(self.board()),
    {
        self.goban.render()
    }

    /// Plays `player`'s stone on `position` and tells the state of the game.
    /// A move off the board or onto a stone is refused and changes nothing.
    pub fn play(&mut self, position: Position, player: Player) -> (result: Result<
        GameState,
        &'static str,
    >)
        requires
            old(self).wf(),
        ensures
            final(self).wf(),
            final(self).hasher() == old(self).hasher(),
            match result {
                Err(message) => {
                    &&& refused(old(self).board(), position)
                    &&& message@ == "Invalid move"@
                    &&& final(self).board() == old(self).board()
                    &&& final(self).cache() == old(self).cache()
                    &&& final(self).counts() == old(self).counts()
                },
                Ok(state) => {
                    &&& !refused(old(self).board(), position)
                    &&& final(self).board() == child_board(
                        old(self).hasher(),
                        old(self).board(),
                        player,
                        position,
                    )
                    &&& (state, final(self).cache()) == ({
                        let (eval, cache) = cached_verdict(
                            old(self).cache(),
                            final(self).board(),
                            Player::Computer,
                        );
                        (state_of(eval), cache)
                    })
                    &&& final(self).counts() == counted(
                        old(self).counts(),
                        lookup_tally(old(self).cache(), final(self).board(), Player::Computer),
                    )
                },
            },
    {
        if position.row >= GOBAN_SIZE || position.col >= GOBAN_SIZE || self.goban.get(
            position.row,
            position.col,
        ).is_some() {
            return Err("Invalid move");
        }
        let stone = match player {
            Player::Opponent => Stone::Black,
            Player::Computer => Stone::White,
        };

        self.goban.apply_move(Move::new(stone, position));

        Ok(self.game_state())
    }

    /// Whether the search has a move to consider: a free cell within two
    /// steps of a stone.
    pub open spec fn has_candidate(&self) -> bool {
        candidates(self.board()).len() > 0
    }

    /// Whether the search has a move to consider.
    pub fn can_move(&self) -> (movable: bool)
        requires
            self.wf(),
        ensures
            movable == self.has_candidate(),
    {
        self.goban.get_limited_moves(MOVE_RADIUS).len() > 0
    }

    /// The move that [`Gomoku::play_computer_move`] plays, and the cache
    /// after the search for it.
    pub open spec fn chosen_move(
        cache: Verdicts,
        hasher: ZobristHasher,
        board: GobanView,
        depth: nat,
    ) -> (Position, Verdicts) {
        let (moves, scored) = children(cache, hasher, board, Player::Computer);
        let (scores, after) = root_scores(
            scored,
            hasher,
            moves,
            moves.len() as int,
            (depth - 1) as nat,
        );
        (moves[first_max(scores)].position, after)
    }

    /// The cost of the search for the move that
    /// [`Gomoku::play_computer_move`] plays: the root moves are generated
    /// and each is searched.
    pub open spec fn search_cost(
        cache: Verdicts,
        hasher: ZobristHasher,
        board: GobanView,
        depth: nat,
    ) -> Tally {
        let (moves, scored) = children(cache, hasher, board, Player::Computer);
        children_tally(cache, hasher, board, Player::Computer).plus(
            root_tally(scored, hasher, moves, moves.len() as int, (depth - 1) as nat),
        )
    }

    /// Searches `depth` plies deep for the computer's best move, plays it and
    /// tells the state of the game. Each candidate move is scored by a search
    /// of the opponent's replies, and the first of the best scored is played.
    /// The counters start again from zero.
    pub fn play_computer_move(&mut self, depth: usize) -> (state: GameState)
        requires
            old(self).wf(),
            depth >= 2,
            depth % 2 == 0,
            old(self).has_candidate(),
        ensures
            final(self).wf(),
            final(self).hasher() == old(self).hasher(),
            ({
                let (position, searched) = Self::chosen_move(
                    old(self).cache(),
                    old(self).hasher(),
                    old(self).board(),
                    depth as nat,
                );
                let (eval, cache) = cached_verdict(searched, final(self).board(), Player::Computer);
                &&& !refused(old(self).board(), position)
                &&& final(self).board() == child_board(
                    old(self).hasher(),
                    old(self).board(),
                    Player::Computer,
                    position,
                )
                &&& state == state_of(eval)
                &&& final(self).cache() == cache
                &&& final(self).counts() == counted(
                    no_counts(),
                    Self::search_cost(
                        old(self).cache(),
                        old(self).hasher(),
                        old(self).board(),
                        depth as nat,
                    ).plus(lookup_tally(searched, final(self).board(), Player::Computer)),
                )
            }),
    {
        let move_to_play = self.choose_move(depth);
        proof {
            lemma_counted_twice(
                no_counts(),
                Self::search_cost(
                    old(self).cache(),
                    old(self).hasher(),
                    old(self).board(),
                    depth as nat,
                ),
                lookup_tally(
                    self.cache(),
                    child_board(
                        old(self).hasher(),
                        old(self).board(),
                        Player::Computer,
                        move_to_play,
                    ),
                    Player::Computer,
                ),
            );
        }
        match self.play(move_to_play, Player::Computer) {
            Ok(state) => state,
            Err(_) => vstd::pervasive::unreached(),
        }
    }

    /// Searches `depth` plies deep for the computer's best move and tells
    /// it, without playing it: each candidate move is scored by a search of
    /// the opponent's replies, and the first of the best scored is chosen.
    /// The counters start again from zero.
    pub fn choose_move(&mut self, depth: usize) -> (position: Position)
        requires
            old(self).wf(),
            depth >= 2,
            depth % 2 == 0,
            old(self).has_candidate(),
        ensures
            final(self).wf(),
            final(self).hasher() == old(self).hasher(),
            final(self).board() == old(self).board(),
            (position, final(self).cache()) == Self::chosen_move(
                old(self).cache(),
                old(self).hasher(),
                old(self).board(),
                depth as nat,
            ),
            !refused(old(self).board(), position),
            final(self).counts() == counted(
                no_counts(),
                Self::search_cost(
                    old(self).cache(),
                    old(self).hasher(),
                    old(self).board(),
                    depth as nat,
                ),
            ),
    {
        self.visited_nodes = 0;
        self.evaluated_nodes = 0;
        self.evaluated_nodes_hit = 0;
        self.evaluated_nodes_miss = 0;

        let root = self.goban.clone();
        let children = self.get_child_nodes(&root, Player::Computer);
        let ghost moves = views(children@);
        let ghost start = self.cache();
        let ghost hasher = self.hasher();
        let ghost after_children = self.counts();

        let mut moves_scores: Vec<(Position, isize)> = Vec::new();
        let mut turn: usize = 0;
        while turn < children.len()
            invariant
                self.wf(),
                self.hasher() == hasher,
                self.board() == old(self).board(),
                depth >= 2,
                turn <= children@.len(),
                moves == views(children@),
                forall|i: int| 0 <= i < children@.len() ==> (#[trigger] children@[i]).fits(hasher),
                moves_scores@.len() == turn,
                holdable(after_children),
                self.counts() == counted(
                    after_children,
                    root_tally(start, hasher, moves, turn as int, (depth - 1) as nat),
                ),
                forall|i: int| 0 <= i < turn ==> (#[trigger] moves_scores@[i]).0 == moves[i].position,
                (pair_scores(moves_scores@), self.cache()) == root_scores(
                    start,
                    hasher,
                    moves,
                    turn as int,
                    (depth - 1) as nat,
                ),
            decreases children@.len() - turn,
        {
            let child = &children[turn];
            proof {
                lemma_counted_twice(
                    after_children,
                    root_tally(start, hasher, moves, turn as int, (depth - 1) as nat),
                    search_tally(
                        self.cache(),
                        hasher,
                        moves[turn as int].board,
                        (depth - 1) as nat,
                        isize::MIN as int,
                        isize::MAX as int,
                        false,
                    ),
                );
            }
            let score = self.minimax(&child.node, depth - 1, isize::MIN, isize::MAX, false);
            moves_scores.push((child.position, score));
            turn += 1;
        }
        proof {
            lemma_children_are_candidates(
                old(self).cache(),
                hasher,
                old(self).board(),
                Player::Computer,
            );
            lemma_first_max_in_range(pair_scores(moves_scores@));
            lemma_counted_twice(
                no_counts(),
                children_tally(old(self).cache(), hasher, old(self).board(), Player::Computer),
                root_tally(start, hasher, moves, moves.len() as int, (depth - 1) as nat),
            );
            lemma_listed_cells_sound(
                reachable(old(self).board().occupied(), MOVE_RADIUS as nat),
                BIT_SIZE as int,
            );
        }
        match Self::get_best_move(&moves_scores) {
            Some(move_to_play) => move_to_play,
            None => vstd::pervasive::unreached(),
        }
    }

    /// The cell of the best scored move, the first of them on a tie.
    pub fn get_best_move(moves: &Vec<(Position, isize)>) -> (best: Option<Position>)
        ensures
            best == if moves@.len() == 0 {
                None::<Position>
            } else {
                Some(moves@[first_max(pair_scores(moves@))].0)
            },
    {
        if moves.len() == 0 {
            return None;
        }
        let mut best: usize = 0;
        let mut turn: usize = 1;
        while turn < moves.len()
            invariant
                1 <= turn <= moves@.len(),
                best < turn,
                best == first_max(pair_scores(moves@).take(turn as int)),
            decreases moves@.len() - turn,
        {
            proof {
                let scores = pair_scores(moves@);
                assert(scores.take(turn + 1).drop_last() =~= scores.take(turn as int));
            }
            if moves[turn].1 > moves[best].1 {
                best = turn;
            }
            turn += 1;
        }
        assert(pair_scores(moves@).take(moves@.len() as int) =~= pair_scores(moves@));
        Some(moves[best].0)
    }

    /// The moves of `player` that are searched below `node`: one for each
    /// candidate cell, scored for `player`, best first.
    fn get_child_nodes(&mut self, node: &Goban, player: Player) -> (nodes: Vec<NodeScore>)
        requires
            old(self).wf(),
            node.wf(),
            node.hasher() == old(self).hasher(),
        ensures
            final(self).wf(),
            final(self).hasher() == old(self).hasher(),
            final(self).board() == old(self).board(),
            (views(nodes@), final(self).cache()) == children(
                old(self).cache(),
                old(self).hasher(),
                node@,
                player,
            ),
            forall|i: int| 0 <= i < nodes@.len() ==> (#[trigger] nodes@[i]).fits(old(self).hasher()),
            final(self).counts() == counted(
                old(self).counts(),
                children_tally(old(self).cache(), old(self).hasher(), node@, player),
            ),
    {
        let ghost hasher = self.hasher();
        let positions = node.get_limited_moves(MOVE_RADIUS);
        proof {
            lemma_listed_cells_sound(
                reachable(node@.occupied(), MOVE_RADIUS as nat),
                BIT_SIZE as int,
            );
        }
        let mut child_nodes: Vec<NodeScore> = Vec::new();
        let mut turn: usize = 0;
        proof {
            lemma_counted_twice(old(self).counts(), Tally::zero(), Tally::zero());
        }
        while turn < positions.len()
            invariant
                self.wf(),
                self.hasher() == hasher,
                self.board() == old(self).board(),
                node.wf(),
                node.hasher() == hasher,
                turn <= positions@.len(),
                positions@ == candidates(node@),
                forall|k: int| 0 <= k < positions@.len() ==> (#[trigger] positions@[k]).on_board(),
                forall|i: int| 0 <= i < child_nodes@.len() ==> (#[trigger] child_nodes@[i]).fits(
                    hasher,
                ),
                (views(child_nodes@), self.cache()) == scored_moves(
                    old(self).cache(),
                    hasher,
                    node@,
                    player,
                    positions@,
                    turn as int,
                ),
                self.counts() == counted(
                    old(self).counts(),
                    scored_tally(old(self).cache(), hasher, node@, player, positions@, turn as int),
                ),
            decreases positions@.len() - turn,
        {
            proof {
                lemma_counted_twice(
                    old(self).counts(),
                    scored_tally(old(self).cache(), hasher, node@, player, positions@, turn as int),
                    lookup_tally(
                        self.cache(),
                        child_board(hasher, node@, player, positions@[turn as int]),
                        player,
                    ),
                );
            }
            let position = positions[turn];
            let mut child = node.clone();

            let stone = match player {
                Player::Computer => Stone::White,
                Player::Opponent => Stone::Black,
            };

            child.apply_move(Move::new(stone, position));

            let eval = self.eval(&child, player);

            let score_eval = match eval {
                Eval::Won => isize::MAX,
                Eval::Lost => isize::MIN,
                Eval::Score(n) => n,
            };
            let ghost before = views(child_nodes@);
            child_nodes.push(NodeScore::new(child, position, score_eval));
            assert(views(child_nodes@) =~= before.push(
                ScoredMove {
                    board: child_board(hasher, node@, player, position),
                    position,
                    score: eval_score(eval),
                },
            ));
            turn += 1;
        }

        let ghost all = views(child_nodes@);
        let mut best_nodes: Vec<NodeScore> = Vec::new();
        while child_nodes.len() > 0
            invariant
                forall|i: int| 0 <= i < child_nodes@.len() ==> (#[trigger] child_nodes@[i]).fits(
                    hasher,
                ),
                forall|i: int| 0 <= i < best_nodes@.len() ==> (#[trigger] best_nodes@[i]).fits(
                    hasher,
                ),
                best_first(all) == views(best_nodes@) + best_first(views(child_nodes@)),
            decreases child_nodes@.len(),
        {
            let best = Self::best_index(&child_nodes);
            let ghost rest = views(child_nodes@);
            let ghost taken = views(best_nodes@);
            let node_score = child_nodes.remove(best);
            best_nodes.push(node_score);
            assert(views(child_nodes@) =~= rest.remove(best as int));
            assert(views(best_nodes@) =~= taken.push(rest[best as int]));
            assert(taken + (seq![rest[best as int]] + best_first(rest.remove(best as int)))
                =~= taken.push(rest[best as int]) + best_first(rest.remove(best as int)));
        }
        assert(views(best_nodes@) + Seq::<ScoredMove>::empty() =~= views(best_nodes@));
        best_nodes
    }

    /// The index of the best scored of `nodes`, the first of them on a tie.
    fn best_index(nodes: &Vec<NodeScore>) -> (best: usize)
        requires
            nodes@.len() > 0,
        ensures
            best < nodes@.len(),
            best == first_max(scores_of(views(nodes@))),
    {
        let ghost scores = scores_of(views(nodes@));
        let mut best: usize = 0;
        let mut turn: usize = 1;
        while turn < nodes.len()
            invariant
                1 <= turn <= nodes@.len(),
                best < turn,
                scores == scores_of(views(nodes@)),
                best == first_max(scores.take(turn as int)),
            decreases nodes@.len() - turn,
        {
            proof {
                assert(scores.take(turn + 1).drop_last() =~= scores.take(turn as int));
            }
            if nodes[turn].score > nodes[best].score {
                best = turn;
            }
            turn += 1;
        }
        assert(scores.take(nodes@.len() as int) =~= scores);
        best
    }

    /// The score of `node`, seen from the computer's side, by a search of
    /// `depth` plies with the window from `alpha` to `beta`. `maximizing`
    /// tells whether the computer is to move.
    pub fn minimax(
        &mut self,
        node: &Goban,
        depth: usize,
        alpha: isize,
        beta: isize,
        maximizing: bool,
    ) -> (score: isize)
        requires
            old(self).wf(),
            node.wf(),
            node.hasher() == old(self).hasher(),
        ensures
            final(self).wf(),
            final(self).hasher() == old(self).hasher(),
            final(self).board() == old(self).board(),
            (score as int, final(self).cache()) == search(
                old(self).cache(),
                old(self).hasher(),
                node@,
                depth as nat,
                alpha as int,
                beta as int,
                maximizing,
            ),
            final(self).counts() == counted(
                old(self).counts(),
                search_tally(
                    old(self).cache(),
                    old(self).hasher(),
                    node@,
                    depth as nat,
                    alpha as int,
                    beta as int,
                    maximizing,
                ),
            ),
        decreases depth,
    {
        let mut low = alpha;
        let mut high = beta;
        let side = match maximizing {
            true => Player::Computer,
            false => Player::Opponent,
        };
        let ghost target_cost = search_tally(
            old(self).cache(),
            old(self).hasher(),
            node@,
            depth as nat,
            alpha as int,
            beta as int,
            maximizing,
        );
        let ghost own = Tally { visited: 1, hits: 0, misses: 0 };
        proof {
            lemma_counted_twice(
                old(self).counts(),
                own,
                lookup_tally(old(self).cache(), node@, side),
            );
        }

        self.visited_nodes = bump(self.visited_nodes);

        match self.eval(node, side) {
            Eval::Won => return if maximizing {
                isize::MAX
            } else {
                isize::MIN
            },
            Eval::Lost => return if maximizing {
                isize::MIN
            } else {
                isize::MAX
            },
            Eval::Score(n) => if depth == 0 {
                return if maximizing {
                    n
                } else {
                    -n
                };
            },
        };

        let ghost hasher = self.hasher();
        let ghost target = search(
            old(self).cache(),
            hasher,
            node@,
            depth as nat,
            alpha as int,
            beta as int,
            maximizing,
        );
        let mut best: isize;
        let ghost known = self.cache();
        proof {
            lemma_counted_twice(
                old(self).counts(),
                own.plus(lookup_tally(old(self).cache(), node@, side)),
                children_tally(known, hasher, node@, side),
            );
        }
        let children = self.get_child_nodes(node, side);
        let ghost moves = views(children@);
        let mut turn: usize = 0;
        proof {
            lemma_counted_twice(
                old(self).counts(),
                own.plus(lookup_tally(old(self).cache(), node@, side)).plus(
                    children_tally(known, hasher, node@, side),
                ),
                search_children_tally(
                    self.cache(),
                    hasher,
                    moves,
                    0,
                    (depth - 1) as nat,
                    alpha as int,
                    beta as int,
                    if maximizing {
                        isize::MIN as int
                    } else {
                        isize::MAX as int
                    },
                    maximizing,
                ),
            );
        }

        if maximizing {
            best = isize::MIN;

            while turn < children.len()
                invariant
                    self.wf(),
                    self.hasher() == hasher,
                    hasher == old(self).hasher(),
                    target == search(
                        old(self).cache(),
                        old(self).hasher(),
                        node@,
                        depth as nat,
                        alpha as int,
                        beta as int,
                        maximizing,
                    ),
                    self.board() == old(self).board(),
                    depth > 0,
                    maximizing,
                    turn <= children@.len(),
                    moves == views(children@),
                    forall|i: int|
                        0 <= i < children@.len() ==> (#[trigger] children@[i]).fits(hasher),
                    target == search_children(
                        self.cache(),
                        hasher,
                        moves,
                        turn as int,
                        (depth - 1) as nat,
                        low as int,
                        high as int,
                        best as int,
                        maximizing,
                    ),
                    target_cost == search_tally(
                        old(self).cache(),
                        old(self).hasher(),
                        node@,
                        depth as nat,
                        alpha as int,
                        beta as int,
                        maximizing,
                    ),
                    counted(old(self).counts(), target_cost) == counted(
                        self.counts(),
                        search_children_tally(
                            self.cache(),
                            hasher,
                            moves,
                            turn as int,
                            (depth - 1) as nat,
                            low as int,
                            high as int,
                            best as int,
                            maximizing,
                        ),
                    ),
                decreases children@.len() - turn,
            {
                proof {
                    let reply = !maximizing;
                    let first = search_tally(
                        self.cache(),
                        hasher,
                        moves[turn as int].board,
                        (depth - 1) as nat,
                        low as int,
                        high as int,
                        reply,
                    );
                    let (score, after) = search(
                        self.cache(),
                        hasher,
                        moves[turn as int].board,
                        (depth - 1) as nat,
                        low as int,
                        high as int,
                        reply,
                    );
                    let better = if maximizing {
                        larger(best as int, score)
                    } else {
                        smaller(best as int, score)
                    };
                    lemma_counted_twice(
                        self.counts(),
                        first,
                        search_children_tally(
                            after,
                            hasher,
                            moves,
                            turn + 1,
                            (depth - 1) as nat,
                            if maximizing {
                                larger(low as int, better)
                            } else {
                                low as int
                            },
                            if maximizing {
                                high as int
                            } else {
                                smaller(high as int, better)
                            },
                            better,
                            maximizing,
                        ),
                    );
                }
                let child = &children[turn];
                let score = self.minimax(&child.node, depth - 1, low, high, false);
                best = if best >= score {
                    best
                } else {
                    score
                };

                if best >= high {
                    return best;
                }
                low = if low >= best {
                    low
                } else {
                    best
                };
                turn += 1;
            }
        } else {
            best = isize::MAX;

            while turn < children.len()
                invariant
                    self.wf(),
                    self.hasher() == hasher,
                    hasher == old(self).hasher(),
                    target == search(
                        old(self).cache(),
                        old(self).hasher(),
                        node@,
                        depth as nat,
                        alpha as int,
                        beta as int,
                        maximizing,
                    ),
                    self.board() == old(self).board(),
                    depth > 0,
                    !maximizing,
                    turn <= children@.len(),
                    moves == views(children@),
                    forall|i: int|
                        0 <= i < children@.len() ==> (#[trigger] children@[i]).fits(hasher),
                    target == search_children(
                        self.cache(),
                        hasher,
                        moves,
                        turn as int,
                        (depth - 1) as nat,
                        low as int,
                        high as int,
                        best as int,
                        maximizing,
                    ),
                    target_cost == search_tally(
                        old(self).cache(),
                        old(self).hasher(),
                        node@,
                        depth as nat,
                        alpha as int,
                        beta as int,
                        maximizing,
                    ),
                    counted(old(self).counts(), target_cost) == counted(
                        self.counts(),
                        search_children_tally(
                            self.cache(),
                            hasher,
                            moves,
                            turn as int,
                            (depth - 1) as nat,
                            low as int,
                            high as int,
                            best as int,
                            maximizing,
                        ),
                    ),
                decreases children@.len() - turn,
            {
                proof {
                    let reply = !maximizing;
                    let first = search_tally(
                        self.cache(),
                        hasher,
                        moves[turn as int].board,
                        (depth - 1) as nat,
                        low as int,
                        high as int,
                        reply,
                    );
                    let (score, after) = search(
                        self.cache(),
                        hasher,
                        moves[turn as int].board,
                        (depth - 1) as nat,
                        low as int,
                        high as int,
                        reply,
                    );
                    let better = if maximizing {
                        larger(best as int, score)
                    } else {
                        smaller(best as int, score)
                    };
                    lemma_counted_twice(
                        self.counts(),
                        first,
                        search_children_tally(
                            after,
                            hasher,
                            moves,
                            turn + 1,
                            (depth - 1) as nat,
                            if maximizing {
                                larger(low as int, better)
                            } else {
                                low as int
                            },
                            if maximizing {
                                high as int
                            } else {
                                smaller(high as int, better)
                            },
                            better,
                            maximizing,
                        ),
                    );
                }
                let child = &children[turn];
                let score = self.minimax(&child.node, depth - 1, low, high, true);
                best = if best <= score {
                    best
                } else {
                    score
                };

                if best <= low {
                    return best;
                }
                high = if high <= best {
                    high
                } else {
                    best
                };
                turn += 1;
            }
        }
        proof {
            lemma_counted_twice(self.counts(), Tally::zero(), Tally::zero());
        }
        best
    }

    /// The state of the game: won by the side that has five in a row.
    fn game_state(&mut self) -> (state: GameState)
        requires
            old(self).wf(),
        ensures
            final(self).wf(),
            final(self).hasher() == old(self).hasher(),
            final(self).board() == old(self).board(),
            (state, final(self).cache()) == ({
                let (eval, cache) = cached_verdict(
                    old(self).cache(),
                    old(self).board(),
                    Player::Computer,
                );
                (state_of(eval), cache)
            }),
            final(self).counts() == counted(
                old(self).counts(),
                lookup_tally(old(self).cache(), old(self).board(), Player::Computer),
            ),
    {
        let eval = self.eval_current(Player::Computer);

        match eval {
            Eval::Won => GameState::Won(Player::Computer),
            Eval::Lost => GameState::Won(Player::Opponent),
            Eval::Score(_) => GameState::InProgress,
        }
    }

    /// The verdict on `goban` for `player`: the cached one if there is one,
    /// else the evaluator's, which is then cached.
    fn eval(&mut self, goban: &Goban, player: Player) -> (eval: Eval)
        requires
            old(self).wf(),
        ensures
            final(self).wf(),
            final(self).hasher() == old(self).hasher(),
            final(self).board() == old(self).board(),
            (eval, final(self).cache()) == cached_verdict(old(self).cache(), goban@, player),
            within_limit(eval),
            final(self).counts() == counted(
                old(self).counts(),
                lookup_tally(old(self).cache(), goban@, player),
            ),
    {
        self.evaluated_nodes = bump(self.evaluated_nodes);

        let key = (goban.get_hash(), player);
        let entry = self.transposition_table.get(key);

        match entry {
            Some(eval) => {
                self.evaluated_nodes_hit = bump(self.evaluated_nodes_hit);
                eval
            },
            None => {
                self.evaluated_nodes_miss = bump(self.evaluated_nodes_miss);

                let eval = goban.evaluate(&mut self.evaluator, player);
                proof {
                    lemma_evaluation_bounded(
                        goban@.stones(stone_of(player)),
                        goban@.stones(stone_of(crate::goban::other_player(player))),
                    );
                }
                self.transposition_table.insert(key, eval);
                eval
            },
        }
    }

    /// The verdict on the board for `player`: the cached one if there is
    /// one, else the evaluator's, which is then cached.
    pub fn eval_current(&mut self, player: Player) -> (eval: Eval)
        requires
            old(self).wf(),
        ensures
            final(self).wf(),
            final(self).hasher() == old(self).hasher(),
            final(self).board() == old(self).board(),
            (eval, final(self).cache()) == cached_verdict(
                old(self).cache(),
                old(self).board(),
                player,
            ),
            within_limit(eval),
            final(self).counts() == counted(
                old(self).counts(),
                lookup_tally(old(self).cache(), old(self).board(), player),
            ),
    {
        let board = self.goban.clone();
        self.eval(&board, player)
    }
}

/// Five in a row decides the game. On a board where the computer alone
/// has five in a row the computer has won, where the opponent alone has,
/// the opponent has won, and where neither has, the game is in progress.
pub proof fn lemma_five_in_a_row_wins(board: GobanView)
    requires
        board.wf(),
    ensures
        has_five(board.white) && !has_five(board.black) ==> state_of(
            verdict(board, Player::Computer),
        ) == GameState::Won(Player::Computer),
        has_five(board.black) && !has_five(board.white) ==> state_of(
            verdict(board, Player::Computer),
        ) == GameState::Won(Player::Opponent),
        !has_five(board.black) && !has_five(board.white) ==> state_of(
            verdict(board, Player::Computer),
        ) == GameState::InProgress,
{
    lemma_five_decides(board.white, board.black);
}

/// Counters that have counted nothing.
pub open spec fn no_counts() -> Counts {
    Counts { visited: 0, evaluated: 0, hits: 0, misses: 0 }
}

/// One more on a counter, which stops at the largest number it can hold.
fn bump(count: usize) -> (more: usize)
    ensures
        more == capped(count + 1),
{
    if count < usize::MAX {
        count + 1
    } else {
        count
    }
}

/// The scores of a list of cells with scores.
pub open spec fn pair_scores(moves: Seq<(Position, isize)>) -> Seq<int> {
    Seq::new(moves.len(), |i: int| moves[i].1 as int)
}

/// Each scored move plays one of the positions, in their order.
pub proof fn lemma_scored_moves_positions(
    cache: Verdicts,
    hasher: ZobristHasher,
    board: GobanView,
    player: Player,
    positions: Seq<Position>,
    upto: int,
)
    requires
        0 <= upto <= positions.len(),
    ensures
        scored_moves(cache, hasher, board, player, positions, upto).0.len() == upto,
        forall|k: int|
            0 <= k < upto ==> {
                let scored = #[trigger] scored_moves(
                    cache,
                    hasher,
                    board,
                    player,
                    positions,
                    upto,
                ).0[k];
                &&& scored.position == positions[k]
                &&& scored.board == child_board(hasher, board, player, positions[k])
            },
    decreases upto,
{
    if upto > 0 {
        lemma_scored_moves_positions(cache, hasher, board, player, positions, upto - 1);
    }
}

/// A node has one child for each of its candidate cells. Each child plays
/// its cell on the node's board, no two play the same cell, every candidate
/// cell is played by one, and no child comes before one of a higher score.
pub proof fn lemma_children_are_candidates(
    cache: Verdicts,
    hasher: ZobristHasher,
    board: GobanView,
    player: Player,
)
    ensures
        children(cache, hasher, board, player).0.len() == candidates(board).len(),
        forall|k: int|
            0 <= k < children(cache, hasher, board, player).0.len() ==> {
                let child = #[trigger] children(cache, hasher, board, player).0[k];
                &&& candidates(board).contains(child.position)
                &&& child.board == child_board(hasher, board, player, child.position)
            },
        forall|at: int|
            0 <= at < candidates(board).len() ==> exists|k: int|
                0 <= k < children(cache, hasher, board, player).0.len() && children(
                    cache,
                    hasher,
                    board,
                    player,
                ).0[k].position == #[trigger] candidates(board)[at],
        forall|j: int, k: int|
            0 <= j < k < children(cache, hasher, board, player).0.len() ==> {
                &&& (#[trigger] children(cache, hasher, board, player).0[j]).position != (
                #[trigger] children(cache, hasher, board, player).0[k]).position
                &&& children(cache, hasher, board, player).0[j].score >= children(
                    cache,
                    hasher,
                    board,
                    player,
                ).0[k].score
            },
{
    let positions = candidates(board);
    let all = scored_moves(cache, hasher, board, player, positions, positions.len() as int).0;
    let kids = children(cache, hasher, board, player).0;
    lemma_scored_moves_positions(cache, hasher, board, player, positions, positions.len() as int);
    lemma_listed_cells_sound(reachable(board.occupied(), MOVE_RADIUS as nat), BIT_SIZE as int);
    lemma_best_first_from_moves(all);
    lemma_best_first_orders(all);
    all.to_multiset_ensures();
    kids.to_multiset_ensures();
    assert forall|k: int| 0 <= k < kids.len() implies {
        let child = #[trigger] kids[k];
        &&& candidates(board).contains(child.position)
        &&& child.board == child_board(hasher, board, player, child.position)
    } by {
        let child = kids[k];
        assert(all.contains(child));
        let at = choose|at: int| 0 <= at < all.len() && all[at] == child;
        assert(positions[at] == child.position);
    }
    assert forall|at: int| 0 <= at < positions.len() implies exists|k: int|
        0 <= k < kids.len() && kids[k].position == #[trigger] positions[at] by {
        assert(all.contains(all[at]));
        assert(kids.to_multiset().count(all[at]) > 0);
        assert(kids.contains(all[at]));
        let k = choose|k: int| 0 <= k < kids.len() && kids[k] == all[at];
        assert(kids[k].position == positions[at]);
    }
    assert(all.no_duplicates()) by {
        assert forall|i: int, j: int| 0 <= i < all.len() && 0 <= j < all.len() && i
            != j implies all[i] != all[j] by {
            assert(all[i].position == positions[i] && all[j].position == positions[j]);
            if i < j {
                assert(positions[i].spec_index() < positions[j].spec_index());
            } else {
                assert(positions[j].spec_index() < positions[i].spec_index());
            }
        }
    }
    all.lemma_multiset_has_no_duplicates();
    kids.lemma_multiset_has_no_duplicates_conv();
    assert forall|j: int, k: int| 0 <= j < k < kids.len() implies (#[trigger] kids[j]).position
        != (#[trigger] kids[k]).position by {
        assert(all.contains(kids[j]) && all.contains(kids[k]));
        let a = choose|a: int| 0 <= a < all.len() && all[a] == kids[j];
        let b = choose|b: int| 0 <= b < all.len() && all[b] == kids[k];
        assert(kids[j] != kids[k]);
        assert(a != b);
        assert(all[a].position == positions[a] && all[b].position == positions[b]);
        if a < b {
            assert(positions[a].spec_index() < positions[b].spec_index());
        } else {
            assert(positions[b].spec_index() < positions[a].spec_index());
        }
    }
}

} // verus!
