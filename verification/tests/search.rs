use quoridor::board::Board;
use quoridor::brute::{
    brute_force, brute_force_5x5, eval_child, filter_5x5, search_node, GameState,
};
use quoridor::enums::{Move, Player};

fn state(board: Board) -> GameState {
    GameState { board, mv_from_parent: None }
}

#[test]
fn opening_score_is_the_tempo() {
    assert_eq!(state(Board::new()).score(), 1);
    let mut b = Board::new();
    b.to_move = Player::Player2;
    assert_eq!(state(b).score(), -1);
}

#[test]
fn score_weighs_walls_and_distances() {
    let mut b = Board::new();
    b.players = [[4, 2], [4, 7]];
    b.walls_left = [7, 9];
    // (7 - 9) + 2 * (7 - 6) + 1
    assert_eq!(state(b.clone()).score(), 1);
    b.to_move = Player::Player2;
    assert_eq!(state(b.clone()).score(), -1);
    b.place_wall(0, 4, 2);
    // Both now need one step more: (7 - 9) + 2 * (8 - 7) - 1
    assert_eq!(state(b).score(), -1);
}

#[test]
fn score_of_a_win_is_the_sentinel() {
    // Player 1 has just landed on row 8.
    let mut b = Board::new();
    b.players = [[4, 8], [4, 5]];
    b.to_move = Player::Player2;
    assert_eq!(b.won(false), Some(Player::Player1));
    assert_eq!(state(b.clone()).score(), 1000);
    b.to_move = Player::Player1;
    assert_eq!(state(b).score(), 1000);
    // Player 2 has just landed on row 0.
    let mut b = Board::new();
    b.players = [[4, 2], [4, 0]];
    assert_eq!(b.won(false), Some(Player::Player2));
    assert_eq!(state(b.clone()).score(), -1000);
    b.to_move = Player::Player2;
    assert_eq!(state(b).score(), -1000);
}

#[test]
fn a_step_from_the_goal_is_not_yet_a_win() {
    let mut b = Board::new();
    b.players = [[4, 7], [4, 3]];
    assert!(b.current_player_wins());
    assert_eq!(b.won(false), None);
    // (10 - 10) + 2 * (3 - 1) + 1
    assert_eq!(state(b.clone()).score(), 5);
    b.players = [[4, 2], [4, 1]];
    b.to_move = Player::Player2;
    assert!(b.current_player_wins());
    assert_eq!(b.won(false), None);
    // (10 - 10) + 2 * (1 - 6) - 1
    assert_eq!(state(b).score(), -11);
}

#[test]
fn player_one_is_named_where_both_rest_on_their_rows() {
    let mut b = Board::new();
    b.players = [[4, 8], [4, 0]];
    assert_eq!(b.won(false), Some(Player::Player1));
    assert_eq!(state(b).score(), 1000);
}

#[test]
fn a_wall_before_the_goal_holds_the_win_back() {
    let mut b = Board::new();
    b.players = [[4, 7], [4, 3]];
    b.place_wall(0, 4, 7);
    assert!(!b.check_step_to_goal());
    assert!(!b.current_player_wins());
    b.remove_wall(0, 4, 7);
    b.place_wall(0, 3, 7);
    assert!(!b.current_player_wins());
    b.remove_wall(0, 3, 7);
    assert!(b.current_player_wins());
    // The other side already on its goal row: no win.
    b.players = [[4, 7], [4, 0]];
    assert!(!b.current_player_wins());
}

#[test]
fn small_variant_wins_two_rows_earlier() {
    let mut b = Board::new5x5();
    assert!(!b.current_player_wins_5x5());
    assert_eq!(b.won(true), None);
    b.players = [[4, 5], [4, 6]];
    assert!(b.current_player_wins_5x5());
    assert!(!b.current_player_wins());
    assert_eq!(b.won(true), None);
    // (3 - 3) + 2 * (6 - 3) + 1
    assert_eq!(state(b.clone()).score_5x5(), 7);
    b.players = [[4, 6], [4, 5]];
    b.to_move = Player::Player2;
    assert_eq!(b.won(true), Some(Player::Player1));
    assert_eq!(b.won(false), None);
    assert_eq!(state(b.clone()).score_5x5(), 1000);
    // (3 - 3) + 2 * (5 - 2) - 1
    assert_eq!(state(b.clone()).score(), 5);
    b.players = [[4, 7], [4, 5]];
    assert_eq!(b.won(true), Some(Player::Player1));
    b.players = [[4, 3], [4, 2]];
    b.to_move = Player::Player1;
    assert_eq!(b.won(true), Some(Player::Player2));
    assert_eq!(state(b.clone()).score_5x5(), -1000);
    b.players = [[4, 3], [4, 3]];
    assert_eq!(b.won(true), None);
}

#[test]
fn filter_keeps_pawn_moves_and_inner_walls() {
    assert!(filter_5x5(&Move::Step(1)));
    assert!(filter_5x5(&Move::Step(44)));
    assert!(filter_5x5(&Move::Wall([0, 2, 2])));
    assert!(filter_5x5(&Move::Wall([1, 5, 5])));
    assert!(!filter_5x5(&Move::Wall([0, 1, 3])));
    assert!(!filter_5x5(&Move::Wall([0, 3, 6])));
    assert!(!filter_5x5(&Move::Wall([1, 6, 2])));
    assert!(!filter_5x5(&Move::Wall([1, 2, 1])));
}

fn greedy(board: &Board) -> isize {
    let mut b = board.clone();
    let sign: isize = match b.to_move {
        Player::Player1 => 1,
        Player::Player2 => -1,
    };
    let mut best: Option<isize> = None;
    for m in b.all_legal_moves() {
        let s = state(b.mv_new_no_memory(&m)).score();
        best = match best {
            Some(v) if sign * v >= sign * s => Some(v),
            _ => Some(s),
        };
    }
    best.unwrap()
}

#[test]
fn one_ply_from_the_opening_steps_north() {
    let (line, score) = brute_force(Board::new(), 1);
    assert_eq!(line, vec![Move::Step(1)]);
    assert_eq!(score, 1);
}

#[test]
fn one_ply_search_is_greedy() {
    let mut boards = vec![Board::new()];
    let mut b = Board::new();
    b.players = [[4, 3], [4, 4]];
    b.place_wall(0, 4, 4);
    boards.push(b.clone());
    b.to_move = Player::Player2;
    b.walls_left = [1, 0];
    boards.push(b);
    for board in boards {
        let (line, score) = brute_force(board.clone(), 1);
        assert_eq!(score, greedy(&board));
        assert_eq!(line.len(), 1);
        let mut probe = board.clone();
        assert_eq!(probe.check_move(&line[0]), Ok(()));
        assert_eq!(state(probe.mv_new_no_memory(&line[0])).score(), score);
    }
}

#[test]
fn depth_zero_scores_the_root() {
    assert_eq!(brute_force(Board::new(), 0), (vec![], 1));
    let mut b = Board::new();
    b.players = [[4, 2], [4, 7]];
    b.walls_left = [7, 9];
    b.to_move = Player::Player2;
    assert_eq!(brute_force(b.clone(), 0), (vec![], -1));
    assert_eq!(brute_force_5x5(b, 0), (vec![], -1));
}

#[test]
fn a_won_game_is_not_searched() {
    let mut b = Board::new();
    b.players = [[4, 8], [4, 5]];
    b.to_move = Player::Player2;
    assert_eq!(brute_force(b.clone(), 3), (vec![], 1000));
    b.players = [[4, 5], [2, 0]];
    assert_eq!(brute_force(b.clone(), 3), (vec![], -1000));
    b.players = [[4, 6], [2, 4]];
    assert_eq!(brute_force_5x5(b.clone(), 2), (vec![], 1000));
    b.players = [[4, 4], [2, 1]];
    assert_eq!(brute_force_5x5(b, 2), (vec![], -1000));
}

#[test]
fn search_finds_the_winning_step() {
    let mut b = Board::new();
    b.players = [[4, 7], [4, 5]];
    let (line, score) = brute_force(b, 1);
    assert_eq!(score, 1000);
    assert_eq!(line, vec![Move::Step(1)]);
}

#[test]
fn search_finds_the_winning_walk() {
    let mut b = Board::new();
    b.players = [[4, 6], [0, 4]];
    b.walls_left = [0, 0];
    // Two plies end a step short of row 8: (0 - 0) + 2 * (3 - 1) + 1.
    let (line, score) = brute_force(b.clone(), 2);
    assert_eq!(score, 5);
    assert_eq!(line, vec![Move::Step(1), Move::Step(3)]);
    // The third ply lands on it, whatever player 2 does in between.
    let (line, score) = brute_force(b, 3);
    assert_eq!(score, 1000);
    assert_eq!(line.len(), 3);
    assert_eq!(line[0], Move::Step(1));
    assert_eq!(line[2], Move::Step(1));
}

#[test]
fn search_sees_the_lost_race() {
    let mut b = Board::new();
    b.players = [[4, 0], [4, 1]];
    b.walls_left = [0, 0];
    // Player 1 has to leave (4, 0), and player 2 steps onto row 0.
    let (line, score) = brute_force(b.clone(), 2);
    assert_eq!(score, -1000);
    assert_eq!(line.len(), 2);
    let after = b.mv_new(&line[0]).mv_new(&line[1]);
    assert_eq!(after.players[1][1], 0);
    // One ply ends before that: the jump north is best,
    // (0 - 0) + 2 * (1 - 6) - 1.
    assert_eq!(brute_force(b, 1), (vec![Move::Step(11)], -11));
}

#[test]
fn two_ply_line_is_played_in_order() {
    let mut b = Board::new();
    b.walls_left = [0, 0];
    let (line, score) = brute_force(b.clone(), 2);
    assert_eq!(line.len(), 2);
    assert_eq!(b.check_move(&line[0]), Ok(()));
    let mut after = b.mv_new(&line[0]);
    assert_eq!(after.check_move(&line[1]), Ok(()));
    let leaf = after.mv_new(&line[1]);
    assert_eq!(state(leaf).score(), score);
    // Both sides step toward their goals: 2 * (7 - 7) + 1.
    assert_eq!(score, 1);
    assert_eq!(line, vec![Move::Step(1), Move::Step(3)]);
}

#[test]
fn child_verdict_ends_in_the_move_made() {
    let b = Board::new();
    let r = eval_child(&b, &Move::Step(2), 0, 1, false);
    assert_eq!(r, Ok((vec![Move::Step(2)], -1)));
}

#[test]
fn node_reports_a_forced_loss_as_err() {
    // Player 2 to move at the node; whatever it does, player 1 steps onto
    // row 8 next.
    let mut b = Board::new();
    b.players = [[4, 7], [0, 4]];
    b.to_move = Player::Player2;
    b.walls_left = [0, 0];
    let game = GameState { board: b.clone(), mv_from_parent: Some(Move::Step(1)) };
    let r = search_node(game, 1, 3, false);
    match r {
        Err((line, score)) => {
            assert_eq!(score, 1000);
            assert_eq!(line.len(), 3);
            assert_eq!(line[0], Move::Step(1));
            assert_eq!(line[2], Move::Step(1));
        }
        Ok(_) => panic!("a forced loss is reported as Err"),
    }
    // A ply less and the node is scored by the heuristic:
    // player 2 steps south, (0 - 0) + 2 * (3 - 1) + 1.
    let game = GameState { board: b, mv_from_parent: Some(Move::Step(1)) };
    assert_eq!(
        search_node(game, 1, 2, false),
        Ok((vec![Move::Step(3), Move::Step(1)], 5))
    );
}

#[test]
fn node_of_a_won_game_is_scored_at_once() {
    let mut b = Board::new();
    b.players = [[4, 8], [0, 4]];
    b.to_move = Player::Player2;
    let game = GameState { board: b, mv_from_parent: Some(Move::Step(1)) };
    assert_eq!(search_node(game, 1, 5, false), Ok((vec![Move::Step(1)], 1000)));
}

#[test]
fn node_at_the_depth_limit_is_scored() {
    let game = GameState { board: Board::new(), mv_from_parent: Some(Move::Step(3)) };
    assert_eq!(search_node(game, 3, 3, false), Ok((vec![Move::Step(3)], 1)));
    let game = GameState { board: Board::new(), mv_from_parent: Some(Move::Step(3)) };
    assert_eq!(search_node(game, 5, 3, false), Ok((vec![Move::Step(3)], 1)));
}

#[test]
fn small_variant_search_keeps_to_inner_walls() {
    let b = Board::new5x5();
    let (line, score) = brute_force_5x5(b.clone(), 1);
    assert_eq!(line.len(), 1);
    assert!(filter_5x5(&line[0]));
    // Step north: (3 - 3) + 2 * (6 - 5) - 1
    assert_eq!(score, 1);
    assert_eq!(line[0], Move::Step(1));
    let (line, score) = brute_force_5x5(b, 2);
    assert_eq!(line.len(), 2);
    assert_eq!(score, 1);
}

#[test]
fn game_state_clone_keeps_the_node() {
    let g = GameState { board: Board::new(), mv_from_parent: Some(Move::Wall([1, 2, 3])) };
    let h = g.clone();
    assert_eq!(h.mv_from_parent, Some(Move::Wall([1, 2, 3])));
    assert_eq!(h.board.players, g.board.players);
    assert_eq!(h.board.walls, g.board.walls);
}
