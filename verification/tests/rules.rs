use quoridor::board::Board;
use quoridor::enums::{Move, MoveError, Player};

fn board_with(pawn1: [usize; 2], pawn2: [usize; 2], to_move: Player) -> Board {
    let mut b = Board::new();
    b.players = [pawn1, pawn2];
    b.to_move = to_move;
    b
}

#[test]
fn opening_step_north_is_legal_and_applies() {
    let mut b = Board::new();
    assert_eq!(b.players, [[4, 0], [4, 8]]);
    assert_eq!(b.check_move(&Move::Step(1)), Ok(()));
    b.mv(&Move::Step(1));
    assert_eq!(b.players[0], [4, 1]);
    assert_eq!(b.players[1], [4, 8]);
    assert_eq!(b.to_move, Player::Player2);
    assert_eq!(b.move_sequence, vec![Move::Step(1)]);
}

#[test]
fn straight_jump_lands_beyond_the_opponent() {
    let mut b = board_with([4, 3], [4, 4], Player::Player1);
    assert_eq!(b.check_move(&Move::Step(11)), Ok(()));
    b.mv(&Move::Step(11));
    assert_eq!(b.players[0], [4, 5]);
}

#[test]
fn wall_behind_opponent_turns_the_jump_diagonal() {
    let mut b = board_with([4, 3], [4, 4], Player::Player1);
    b.place_wall(0, 4, 4);
    assert_eq!(b.check_move(&Move::Step(11)), Err(MoveError::BlockedByWall));
    assert_eq!(b.check_move(&Move::Step(14)), Ok(()));
    assert_eq!(b.check_move(&Move::Step(12)), Ok(()));
    let west = b.mv_new(&Move::Step(14));
    assert_eq!(west.players[0], [3, 4]);
    let east = b.mv_new(&Move::Step(12));
    assert_eq!(east.players[0], [5, 4]);
}

#[test]
fn diagonal_jump_needs_the_straight_one_closed() {
    let mut b = board_with([4, 3], [4, 4], Player::Player1);
    assert_eq!(b.check_move(&Move::Step(12)), Err(MoveError::SpaceBehindFree));
    assert_eq!(b.check_move(&Move::Step(14)), Err(MoveError::SpaceBehindFree));
}

#[test]
fn jump_without_opponent_is_refused() {
    let mut b = Board::new();
    assert_eq!(b.check_move(&Move::Step(11)), Err(MoveError::OpponentNotThere));
    assert_eq!(b.check_move(&Move::Step(33)), Err(MoveError::OpponentNotThere));
    assert_eq!(b.check_move(&Move::Step(21)), Err(MoveError::OpponentNotThere));
}

#[test]
fn jump_over_a_wall_is_refused() {
    let mut b = board_with([4, 3], [4, 4], Player::Player1);
    b.place_wall(0, 3, 3);
    assert_eq!(b.check_move(&Move::Step(11)), Err(MoveError::BlockedByWall));
}

#[test]
fn jump_at_the_edge_goes_diagonal() {
    let mut b = board_with([4, 7], [4, 8], Player::Player1);
    assert_eq!(b.check_move(&Move::Step(11)), Err(MoveError::EdgeOfBoard));
    assert_eq!(b.check_move(&Move::Step(12)), Ok(()));
    assert_eq!(b.check_move(&Move::Step(14)), Ok(()));
}

#[test]
fn steps_meet_edge_wall_and_opponent() {
    let mut b = Board::new();
    assert_eq!(b.check_move(&Move::Step(3)), Err(MoveError::EdgeOfBoard));
    b.place_wall(0, 4, 0);
    assert_eq!(b.check_move(&Move::Step(1)), Err(MoveError::BlockedByWall));
    assert_eq!(b.check_move(&Move::Step(2)), Ok(()));
    let mut c = board_with([4, 3], [4, 4], Player::Player1);
    assert_eq!(c.check_move(&Move::Step(1)), Err(MoveError::BlockedByOpponent));
    let mut d = board_with([0, 3], [4, 4], Player::Player1);
    assert_eq!(d.check_move(&Move::Step(4)), Err(MoveError::EdgeOfBoard));
    let mut e = board_with([8, 3], [4, 4], Player::Player1);
    assert_eq!(e.check_move(&Move::Step(2)), Err(MoveError::EdgeOfBoard));
}

#[test]
fn vertical_wall_blocks_east_and_west() {
    let mut b = board_with([4, 4], [0, 0], Player::Player1);
    b.place_wall(1, 4, 3);
    assert_eq!(b.check_move(&Move::Step(2)), Err(MoveError::BlockedByWall));
    assert_eq!(b.check_move(&Move::Step(4)), Ok(()));
    let mut c = board_with([0, 0], [5, 4], Player::Player2);
    c.place_wall(1, 4, 4);
    assert_eq!(c.check_move(&Move::Step(4)), Err(MoveError::BlockedByWall));
}

#[test]
fn wall_needs_budget_and_room() {
    let mut b = Board::new();
    b.walls_left = [0, 10];
    assert_eq!(b.check_move(&Move::Wall([0, 3, 3])), Err(MoveError::NoWallsLeft));
    let mut c = Board::new();
    c.place_wall(0, 3, 3);
    assert_eq!(c.check_move(&Move::Wall([0, 3, 3])), Err(MoveError::SpaceOccupied));
    assert_eq!(c.check_move(&Move::Wall([1, 3, 3])), Err(MoveError::SpaceOccupied));
    assert_eq!(c.check_move(&Move::Wall([0, 2, 3])), Err(MoveError::SpaceOccupied));
    assert_eq!(c.check_move(&Move::Wall([0, 4, 3])), Err(MoveError::SpaceOccupied));
    assert_eq!(c.check_move(&Move::Wall([0, 5, 3])), Ok(()));
    assert_eq!(c.check_move(&Move::Wall([1, 3, 4])), Ok(()));
    let mut d = Board::new();
    d.place_wall(1, 3, 3);
    assert_eq!(d.check_move(&Move::Wall([1, 3, 2])), Err(MoveError::SpaceOccupied));
    assert_eq!(d.check_move(&Move::Wall([1, 3, 4])), Err(MoveError::SpaceOccupied));
}

fn sealed_but_for_one_gap() -> Board {
    // A fence between rows 3 and 4 that leaves the edge above column 8 open.
    let mut b = Board::new();
    b.place_wall(0, 0, 3);
    b.place_wall(0, 2, 3);
    b.place_wall(0, 4, 3);
    b.place_wall(0, 6, 3);
    b
}

#[test]
fn sealing_the_last_corridor_gives_no_path_for_player_two() {
    // Player 1 stands above the fence, player 2 has to come down through
    // the corridor in column 8, which the wall [0, 7, 7] would close.
    let mut b = sealed_but_for_one_gap();
    b.players = [[4, 5], [4, 8]];
    b.place_wall(1, 7, 4);
    b.place_wall(1, 7, 6);
    assert_eq!(b.dist_to_goal(0), Some(3));
    assert_eq!(b.dist_to_goal(1), Some(12));
    let walls = b.walls;
    assert_eq!(b.check_move(&Move::Wall([0, 7, 7])), Err(MoveError::P2NoPath));
    assert_eq!(b.walls, walls);
    assert_eq!(b.walls_left, [10, 10]);
    assert_eq!(b.players, [[4, 5], [4, 8]]);
    assert_eq!(b.to_move, Player::Player1);
    assert!(!b.is_wall(0, 7, 7));
    assert_eq!(b.dist_to_goal(1), Some(12));
}

#[test]
fn sealing_both_players_reports_player_one_first() {
    let mut b = sealed_but_for_one_gap();
    b.place_wall(1, 7, 4);
    b.place_wall(1, 7, 6);
    let walls = b.walls;
    assert_eq!(b.check_move(&Move::Wall([0, 7, 7])), Err(MoveError::P1NoPath));
    assert_eq!(b.walls, walls);
}

#[test]
fn overlapping_the_fence_is_refused_before_any_path_is_measured() {
    let mut b = sealed_but_for_one_gap();
    assert_eq!(b.check_move(&Move::Wall([0, 7, 3])), Err(MoveError::SpaceOccupied));
}

#[test]
fn wall_that_cuts_off_player_two_is_refused() {
    // Player 2 in the corner (0, 8) behind a vertical wall, with one way out downward.
    let mut b = board_with([4, 0], [0, 8], Player::Player1);
    b.place_wall(1, 0, 7);
    let before = b.walls;
    assert_eq!(b.dist_to_goal(1), Some(8));
    assert_eq!(b.check_move(&Move::Wall([0, 0, 6])), Err(MoveError::P2NoPath));
    assert_eq!(b.walls, before);
    assert_eq!(b.players, [[4, 0], [0, 8]]);
    assert_eq!(b.walls_left, [10, 10]);
    assert_eq!(b.dist_to_goal(1), Some(8));
}

#[test]
fn wall_that_cuts_off_player_one_is_refused() {
    let mut b = board_with([8, 0], [4, 8], Player::Player2);
    b.place_wall(1, 7, 0);
    let before = b.walls;
    assert_eq!(b.check_move(&Move::Wall([0, 7, 1])), Err(MoveError::P1NoPath));
    assert_eq!(b.walls, before);
}

#[test]
fn validating_twice_gives_the_same_verdict() {
    let mut b = board_with([4, 3], [4, 4], Player::Player1);
    b.place_wall(0, 4, 4);
    let moves = [
        Move::Step(1),
        Move::Step(11),
        Move::Step(12),
        Move::Step(2),
        Move::Wall([0, 4, 4]),
        Move::Wall([1, 0, 0]),
    ];
    for m in moves.iter() {
        let walls = b.walls;
        let first = b.check_move(m);
        let second = b.check_move(m);
        assert_eq!(first, second);
        assert_eq!(b.walls, walls);
    }
}

#[test]
fn accepted_walls_leave_both_paths() {
    let mut b = sealed_but_for_one_gap();
    for i in 0..2 {
        for x in 0..8 {
            for y in 0..8 {
                let m = Move::Wall([i, x, y]);
                if b.check_move(&m) == Ok(()) {
                    let after = b.mv_new(&m);
                    assert!(after.dist_to_goal(0).is_some());
                    assert!(after.dist_to_goal(1).is_some());
                }
            }
        }
    }
}

#[test]
fn wall_move_spends_one_wall() {
    let mut b = Board::new();
    b.mv(&Move::Wall([1, 2, 5]));
    assert_eq!(b.walls_left, [9, 10]);
    assert!(b.is_wall(1, 2, 5));
    assert!(!b.is_wall(0, 2, 5));
    assert_eq!(b.walls, 1u128 << (64 + 8 * 5 + 2));
    assert_eq!(b.to_move, Player::Player2);
    b.mv(&Move::Wall([0, 7, 7]));
    assert_eq!(b.walls_left, [9, 9]);
    assert_eq!(b.to_move, Player::Player1);
    b.remove_wall(1, 2, 5);
    assert_eq!(b.walls, 1u128 << (8 * 7 + 7));
}

#[test]
fn mv_new_no_memory_forgets_the_record() {
    let b = Board::new();
    let c = b.mv_new(&Move::Step(2));
    assert_eq!(c.move_sequence, vec![Move::Step(2)]);
    assert_eq!(c.players[0], [5, 0]);
    let d = c.mv_new_no_memory(&Move::Step(4));
    assert!(d.move_sequence.is_empty());
    assert_eq!(d.players[1], [3, 8]);
    assert_eq!(b.players, [[4, 0], [4, 8]]);
}

#[test]
fn move_well_formedness() {
    for c in [1, 2, 3, 4, 11, 12, 14, 21, 22, 23, 32, 33, 34, 41, 43, 44] {
        assert!(Move::Step(c).is_wf());
    }
    for c in [0, 5, 9, 10, 13, 24, 31, 42, 15, 45, 51, 111, 100] {
        assert!(!Move::Step(c).is_wf());
    }
    assert!(Move::Wall([1, 7, 7]).is_wf());
    assert!(!Move::Wall([2, 0, 0]).is_wf());
    assert!(!Move::Wall([0, 8, 0]).is_wf());
    assert!(!Move::Wall([0, 0, 8]).is_wf());
}

#[test]
fn to_move_indices_follow_the_turn() {
    let mut b = Board::new();
    assert_eq!(b.to_move_indices(), (0, 1));
    b.mv(&Move::Step(1));
    assert_eq!(b.to_move_indices(), (1, 0));
}
