use gomoku::evaluator::Eval;
use gomoku::goban::{Goban, Move, Player, Position, Stone};
use gomoku::gomoku::{GameState, Gomoku, NodeScore};
use gomoku::threat_evaluator::ThreatEvaluator;

fn played(moves: &[(Player, usize, usize)]) -> Gomoku {
    let mut game = Gomoku::default();
    for (player, row, col) in moves {
        assert_eq!(game.play(Position::new(*row, *col), *player), Ok(GameState::InProgress));
    }
    game
}

fn score_of(eval: Eval) -> isize {
    match eval {
        Eval::Won => isize::MAX,
        Eval::Lost => isize::MIN,
        Eval::Score(n) => n,
    }
}

/// The moves that the engine searches below `node`: the free cells within
/// two steps of a stone, scored for the side that moves, best first.
fn children(node: &Goban, player: Player) -> Vec<Goban> {
    let mut scored: Vec<(isize, Goban)> = Vec::new();
    for position in node.get_limited_moves(2) {
        let mut child = node.clone();
        child.apply_move(Move::new(player.stone(), position));
        let eval = child.evaluate(&mut ThreatEvaluator::new(), player);
        scored.push((score_of(eval), child));
    }
    scored.sort_by(|a, b| b.0.cmp(&a.0));
    scored.into_iter().map(|(_, child)| child).collect()
}

/// Minimax without pruning and without a cache.
fn exhaustive(node: &Goban, depth: usize, maximizing: bool) -> isize {
    let side = if maximizing { Player::Computer } else { Player::Opponent };
    match node.evaluate(&mut ThreatEvaluator::new(), side) {
        Eval::Won => return if maximizing { isize::MAX } else { isize::MIN },
        Eval::Lost => return if maximizing { isize::MIN } else { isize::MAX },
        Eval::Score(n) => {
            if depth == 0 {
                return if maximizing { n } else { -n };
            }
        }
    }
    let scores = children(node, side).into_iter().map(|c| exhaustive(&c, depth - 1, !maximizing));
    if maximizing {
        scores.max().unwrap_or(isize::MIN)
    } else {
        scores.min().unwrap_or(isize::MAX)
    }
}

#[test]
fn a_new_game_is_empty() {
    let game = Gomoku::default();
    assert_eq!(game.goban().get_hash(), 0);
    assert_eq!(game.goban().get_possible_moves().len(), 361);
    assert!(!game.can_move());
}

#[test]
fn five_in_the_top_row_wins() {
    let mut game = played(&[
        (Player::Opponent, 0, 0),
        (Player::Opponent, 0, 1),
        (Player::Opponent, 0, 2),
        (Player::Opponent, 0, 3),
    ]);
    assert_eq!(
        game.play(Position::new(0, 4), Player::Opponent),
        Ok(GameState::Won(Player::Opponent))
    );
}

#[test]
fn five_of_the_computer_win_for_the_computer() {
    let mut game = played(&[
        (Player::Computer, 5, 5),
        (Player::Computer, 6, 6),
        (Player::Computer, 7, 7),
        (Player::Computer, 8, 8),
    ]);
    assert_eq!(
        game.play(Position::new(9, 9), Player::Computer),
        Ok(GameState::Won(Player::Computer))
    );
}

#[test]
fn a_move_onto_a_stone_is_refused_and_changes_nothing() {
    let mut game = played(&[(Player::Opponent, 9, 9)]);
    let hash = game.goban().get_hash();
    let text = game.board_text();
    assert_eq!(game.play(Position::new(9, 9), Player::Computer), Err("Invalid move"));
    assert_eq!(game.play(Position::new(9, 9), Player::Opponent), Err("Invalid move"));
    assert_eq!(game.goban().get_hash(), hash);
    assert_eq!(game.goban().get(9, 9), Some(Stone::Black));
    assert_eq!(game.board_text(), text);
}

#[test]
fn a_move_off_the_board_is_refused_and_changes_nothing() {
    let mut game = played(&[(Player::Opponent, 9, 9)]);
    let hash = game.goban().get_hash();
    assert_eq!(game.play(Position::new(19, 0), Player::Opponent), Err("Invalid move"));
    assert_eq!(game.play(Position::new(0, 19), Player::Opponent), Err("Invalid move"));
    assert_eq!(game.play(Position::new(usize::MAX, usize::MAX), Player::Opponent), Err("Invalid move"));
    assert_eq!(game.goban().get_hash(), hash);
}

#[test]
fn the_best_move_is_the_first_of_the_best_scored() {
    assert_eq!(Gomoku::get_best_move(&vec![]), None);
    assert_eq!(
        Gomoku::get_best_move(&vec![
            (Position::new(1, 1), -5),
            (Position::new(2, 2), 7),
            (Position::new(3, 3), 7),
            (Position::new(4, 4), 0),
        ]),
        Some(Position::new(2, 2))
    );
    assert_eq!(
        Gomoku::get_best_move(&vec![(Position::new(1, 1), isize::MIN)]),
        Some(Position::new(1, 1))
    );
}

#[test]
fn a_search_of_depth_zero_returns_the_score_of_the_position() {
    let mut game = played(&[(Player::Computer, 9, 8), (Player::Computer, 9, 9), (Player::Computer, 9, 10)]);
    let node = game.goban().clone();
    assert_eq!(game.minimax(&node, 0, isize::MIN, isize::MAX, true), 20000);
    assert_eq!(game.minimax(&node, 0, isize::MIN, isize::MAX, false), 20000);

    let mut game = played(&[(Player::Opponent, 9, 8), (Player::Opponent, 9, 9), (Player::Opponent, 9, 10)]);
    let node = game.goban().clone();
    assert_eq!(game.minimax(&node, 0, isize::MIN, isize::MAX, true), -20000);
    assert_eq!(game.minimax(&node, 0, isize::MIN, isize::MAX, false), -20000);
}

#[test]
fn a_decided_position_scores_top_or_bottom() {
    let mut game = played(&[
        (Player::Computer, 5, 5),
        (Player::Computer, 6, 6),
        (Player::Computer, 7, 7),
        (Player::Computer, 8, 8),
    ]);
    game.play(Position::new(9, 9), Player::Computer).unwrap();
    let node = game.goban().clone();
    assert_eq!(game.minimax(&node, 3, isize::MIN, isize::MAX, true), isize::MAX);
    assert_eq!(game.minimax(&node, 3, isize::MIN, isize::MAX, false), isize::MAX);
}

#[test]
fn pruning_does_not_change_the_score() {
    let openings: [&[(Player, usize, usize)]; 3] = [
        &[(Player::Opponent, 9, 9)],
        &[(Player::Opponent, 3, 3), (Player::Opponent, 4, 4), (Player::Computer, 5, 5)],
        &[
            (Player::Opponent, 9, 9),
            (Player::Computer, 9, 10),
            (Player::Opponent, 8, 9),
            (Player::Computer, 10, 10),
            (Player::Opponent, 7, 9),
        ],
    ];
    for opening in openings {
        let mut game = played(opening);
        let node = game.goban().clone();
        for maximizing in [true, false] {
            for depth in 0..3 {
                assert_eq!(
                    game.minimax(&node, depth, isize::MIN, isize::MAX, maximizing),
                    exhaustive(&node, depth, maximizing)
                );
            }
        }
    }
}

#[test]
fn the_computer_blocks_the_gap_of_a_broken_four() {
    let mut game = played(&[
        (Player::Opponent, 3, 3),
        (Player::Opponent, 4, 4),
        (Player::Opponent, 5, 5),
        (Player::Opponent, 7, 7),
    ]);
    assert!(game.can_move());
    let state = game.play_computer_move(4);
    assert_eq!(state, GameState::InProgress);
    assert_eq!(game.goban().get(6, 6), Some(Stone::White));
    assert_eq!(game.play(Position::new(6, 6), Player::Opponent), Err("Invalid move"));
}

#[test]
fn the_computer_takes_a_win_that_is_there() {
    let mut game = played(&[
        (Player::Computer, 9, 5),
        (Player::Opponent, 3, 3),
        (Player::Computer, 9, 6),
        (Player::Opponent, 3, 9),
        (Player::Computer, 9, 7),
        (Player::Opponent, 15, 3),
        (Player::Computer, 9, 8),
    ]);
    assert_eq!(game.play_computer_move(2), GameState::Won(Player::Computer));
}

#[test]
fn the_computer_plays_one_stone_on_a_free_cell_near_a_stone() {
    let mut game = played(&[(Player::Opponent, 9, 9)]);
    let before = game.goban().get_possible_moves();
    let candidates = game.goban().get_limited_moves(2);
    assert_eq!(game.play_computer_move(2), GameState::InProgress);
    let after = game.goban().get_possible_moves();
    assert_eq!(after.len() + 1, before.len());
    let taken: Vec<&Position> = before.iter().filter(|p| !after.contains(p)).collect();
    assert_eq!(taken.len(), 1);
    assert!(candidates.contains(taken[0]));
    assert_eq!(game.goban().get(taken[0].row, taken[0].col), Some(Stone::White));
}

#[test]
fn a_scored_node_is_built_from_its_parts() {
    let game = played(&[(Player::Opponent, 9, 9)]);
    let _node = NodeScore::new(game.goban().clone(), Position::new(9, 9), 12);
}

#[test]
fn a_new_game_has_counted_nothing() {
    let game = Gomoku::default();
    assert_eq!(game.visited_nodes(), 0);
    assert_eq!(game.evaluated_nodes(), 0);
    assert_eq!(game.evaluated_nodes_hit(), 0);
    assert_eq!(game.evaluated_nodes_miss(), 0);
}

#[test]
fn each_move_asks_for_one_verdict() {
    let mut game = Gomoku::default();
    assert_eq!(game.play(Position::new(9, 9), Player::Opponent), Ok(GameState::InProgress));
    assert_eq!(game.evaluated_nodes(), 1);
    assert_eq!(game.evaluated_nodes_miss(), 1);
    assert_eq!(game.evaluated_nodes_hit(), 0);
    assert_eq!(game.visited_nodes(), 0);

    assert_eq!(game.play(Position::new(9, 9), Player::Computer), Err("Invalid move"));
    assert_eq!(game.evaluated_nodes(), 1);

    assert_eq!(game.eval_current(Player::Computer), Eval::Score(0));
    assert_eq!(game.evaluated_nodes(), 2);
    assert_eq!(game.evaluated_nodes_miss(), 1);
    assert_eq!(game.evaluated_nodes_hit(), 1);

    assert_eq!(game.eval_current(Player::Opponent), Eval::Score(0));
    assert_eq!(game.evaluated_nodes(), 3);
    assert_eq!(game.evaluated_nodes_miss(), 2);
    assert_eq!(game.evaluated_nodes_hit(), 1);
}

#[test]
fn a_search_of_depth_zero_visits_one_node() {
    let mut game = played(&[(Player::Opponent, 9, 9)]);
    let node = game.goban().clone();
    let visited = game.visited_nodes();
    let evaluated = game.evaluated_nodes();
    game.minimax(&node, 0, isize::MIN, isize::MAX, true);
    assert_eq!(game.visited_nodes(), visited + 1);
    assert_eq!(game.evaluated_nodes(), evaluated + 1);
}

#[test]
fn a_search_of_depth_one_visits_the_node_and_each_of_its_children() {
    let mut game = played(&[(Player::Opponent, 9, 9)]);
    let node = game.goban().clone();
    let visited = game.visited_nodes();
    let evaluated = game.evaluated_nodes();
    // The opponent to move: no reply can reach the lower end of the window,
    // so none of the 24 children ends the search early.
    game.minimax(&node, 1, isize::MIN, isize::MAX, false);
    assert_eq!(game.visited_nodes(), visited + 1 + 24);
    assert_eq!(game.evaluated_nodes(), evaluated + 1 + 24 + 24);
    assert_eq!(game.evaluated_nodes(), game.evaluated_nodes_hit() + game.evaluated_nodes_miss());
}

#[test]
fn the_computers_move_starts_the_counters_again() {
    let mut game = played(&[(Player::Opponent, 9, 9), (Player::Opponent, 3, 3)]);
    assert_eq!(game.evaluated_nodes(), 2);
    assert_eq!(game.play_computer_move(2), GameState::InProgress);
    let visited = game.visited_nodes();
    let evaluated = game.evaluated_nodes();
    assert!(visited >= 48);
    assert!(evaluated > visited);
    assert_eq!(evaluated, game.evaluated_nodes_hit() + game.evaluated_nodes_miss());

    assert_eq!(game.play(Position::new(0, 0), Player::Opponent), Ok(GameState::InProgress));
    assert_eq!(game.visited_nodes(), visited);
    assert_eq!(game.evaluated_nodes(), evaluated + 1);

    game.play_computer_move(2);
    assert!(game.visited_nodes() < visited + evaluated);
    assert_eq!(
        game.evaluated_nodes(),
        game.evaluated_nodes_hit() + game.evaluated_nodes_miss()
    );
}

#[test]
fn the_chosen_move_is_the_move_that_is_played() {
    let opening = [
        (Player::Opponent, 3, 3),
        (Player::Opponent, 4, 4),
        (Player::Opponent, 5, 5),
        (Player::Opponent, 7, 7),
    ];
    let mut game = played(&opening);
    let hash = game.goban().get_hash();
    assert_eq!(game.choose_move(2), Position::new(6, 6));
    assert_eq!(game.goban().get_hash(), hash);
    assert_eq!(game.goban().get(6, 6), None);
    assert_eq!(game.play_computer_move(2), GameState::InProgress);
    assert_eq!(game.goban().get(6, 6), Some(Stone::White));
}

#[test]
fn every_candidate_is_searched() {
    // With the full window and no decided position below, no child ends
    // the search early: each of the 24 candidates is visited.
    let mut game = played(&[(Player::Opponent, 9, 9)]);
    let node = game.goban().clone();
    assert_eq!(node.get_limited_moves(2).len(), 24);
    let visited = game.visited_nodes();
    game.minimax(&node, 1, isize::MIN, isize::MAX, true);
    assert_eq!(game.visited_nodes(), visited + 1 + 24);
}
