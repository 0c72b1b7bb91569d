use quoridor::board::Board;
use quoridor::enums::{Move, Player};

fn all_candidates() -> Vec<Move> {
    let mut v = Vec::new();
    for c in [1, 2, 3, 4, 11, 12, 14, 21, 22, 23, 32, 33, 34, 41, 43, 44] {
        v.push(Move::Step(c));
    }
    for i in 0..2 {
        for x in 0..8 {
            for y in 0..8 {
                v.push(Move::Wall([i, x, y]));
            }
        }
    }
    v
}

fn sample_boards() -> Vec<Board> {
    let mut boards = Vec::new();
    boards.push(Board::new());
    boards.push(Board::new5x5());
    let mut b = Board::new();
    b.players = [[4, 3], [4, 4]];
    b.place_wall(0, 4, 4);
    b.place_wall(1, 2, 2);
    boards.push(b.clone());
    b.to_move = Player::Player2;
    b.walls_left = [2, 0];
    boards.push(b.clone());
    let mut c = Board::new();
    c.players = [[0, 8], [8, 0]];
    c.place_wall(0, 0, 3);
    c.place_wall(0, 2, 3);
    c.place_wall(0, 4, 3);
    c.place_wall(0, 6, 3);
    c.place_wall(1, 7, 4);
    c.place_wall(1, 7, 6);
    boards.push(c);
    boards
}

#[test]
fn opening_position_has_three_steps_and_all_walls() {
    let mut b = Board::new();
    let moves = b.all_legal_moves();
    assert_eq!(moves.len(), 3 + 128);
    assert_eq!(moves[0], Move::Step(1));
    assert_eq!(moves[1], Move::Step(2));
    assert_eq!(moves[2], Move::Step(4));
    assert_eq!(moves[3], Move::Wall([0, 0, 0]));
    assert_eq!(moves[4], Move::Wall([0, 0, 1]));
    assert_eq!(moves[3 + 8], Move::Wall([0, 1, 0]));
    assert_eq!(moves[3 + 64], Move::Wall([1, 0, 0]));
    assert_eq!(moves[130], Move::Wall([1, 7, 7]));
}

#[test]
fn player_two_tries_south_first() {
    let mut b = Board::new();
    b.mv(&Move::Step(1));
    let moves = b.all_legal_moves();
    assert_eq!(moves[0], Move::Step(3));
    assert_eq!(moves[1], Move::Step(2));
    assert_eq!(moves[2], Move::Step(4));
}

#[test]
fn jumps_are_listed_in_the_side_order() {
    let mut b = Board::new();
    b.players = [[4, 3], [4, 4]];
    b.place_wall(0, 4, 4);
    let moves = b.all_legal_moves();
    // North is barred by the opponent; the two diagonal jumps come first.
    assert_eq!(moves[0], Move::Step(12));
    assert_eq!(moves[1], Move::Step(14));
    assert_eq!(moves[2], Move::Step(2));
    assert_eq!(moves[3], Move::Step(4));
    assert_eq!(moves[4], Move::Step(3));
    assert!(matches!(moves[5], Move::Wall(_)));
}

#[test]
fn generator_and_validator_agree() {
    for mut b in sample_boards() {
        let legal = b.all_legal_moves();
        for m in all_candidates() {
            let accepted = b.check_move(&m).is_ok();
            assert_eq!(legal.contains(&m), accepted);
        }
        for m in legal.iter() {
            assert!(m.is_wf());
            assert_eq!(b.check_move(m), Ok(()));
        }
    }
}

#[test]
fn generator_leaves_the_board_alone() {
    for mut b in sample_boards() {
        let walls = b.walls;
        let players = b.players;
        let left = b.walls_left;
        let turn = b.to_move;
        let _ = b.all_legal_moves();
        assert_eq!(b.walls, walls);
        assert_eq!(b.players, players);
        assert_eq!(b.walls_left, left);
        assert_eq!(b.to_move, turn);
    }
}

#[test]
fn no_walls_are_offered_without_budget() {
    let mut b = Board::new();
    b.walls_left = [0, 10];
    let moves = b.all_legal_moves();
    assert_eq!(moves, vec![Move::Step(1), Move::Step(2), Move::Step(4)]);
}

#[test]
fn legal_moves_keep_the_invariants() {
    for mut b in sample_boards() {
        if b.dist_to_goal(0).is_none() || b.dist_to_goal(1).is_none() {
            continue;
        }
        for m in b.all_legal_moves() {
            let after = b.mv_new(&m);
            assert!(after.is_wf());
            assert_ne!(after.players[0], after.players[1]);
            assert!(after.dist_to_goal(0).is_some());
            assert!(after.dist_to_goal(1).is_some());
            assert_ne!(after.to_move, b.to_move);
        }
    }
}

fn turned(b: &Board) -> Board {
    let mut t = Board::new();
    t.players = [
        [8 - b.players[1][0], 8 - b.players[1][1]],
        [8 - b.players[0][0], 8 - b.players[0][1]],
    ];
    t.to_move = match b.to_move {
        Player::Player1 => Player::Player2,
        Player::Player2 => Player::Player1,
    };
    t.walls_left = [b.walls_left[1], b.walls_left[0]];
    for i in 0..2 {
        for x in 0..8 {
            for y in 0..8 {
                if b.is_wall(i, x, y) {
                    t.place_wall(i, 7 - x, 7 - y);
                }
            }
        }
    }
    t
}

fn turned_code(c: usize) -> usize {
    let turn = |d: usize| if d <= 2 { d + 2 } else { d - 2 };
    if c < 10 {
        turn(c)
    } else {
        10 * turn(c / 10) + turn(c % 10)
    }
}

#[test]
fn pawn_moves_are_judged_alike_from_both_sides() {
    for mut b in sample_boards() {
        let mut t = turned(&b);
        for c in [1, 2, 3, 4, 11, 12, 14, 21, 22, 23, 32, 33, 34, 41, 43, 44] {
            assert_eq!(
                t.check_move(&Move::Step(turned_code(c))),
                b.check_move(&Move::Step(c))
            );
        }
    }
}

#[test]
fn jump_symmetry_on_the_blocked_jump_scenario() {
    let mut b = Board::new();
    b.players = [[4, 3], [4, 4]];
    b.place_wall(0, 4, 4);
    let mut t = turned(&b);
    assert_eq!(t.players, [[4, 4], [4, 5]]);
    assert!(t.is_wall(0, 3, 3));
    assert_eq!(t.to_move, Player::Player2);
    assert_eq!(t.check_move(&Move::Step(33)), b.check_move(&Move::Step(11)));
    assert_eq!(t.check_move(&Move::Step(34)), Ok(()));
    assert_eq!(t.check_move(&Move::Step(32)), Ok(()));
}

fn turned_move(m: &Move) -> Move {
    match m {
        Move::Step(c) => Move::Step(turned_code(*c)),
        Move::Wall(w) => Move::Wall([w[0], 7 - w[1], 7 - w[2]]),
    }
}

#[test]
fn legality_is_the_same_from_both_sides() {
    for mut b in sample_boards() {
        let mut t = turned(&b);
        for m in all_candidates() {
            assert_eq!(
                t.check_move(&turned_move(&m)).is_ok(),
                b.check_move(&m).is_ok()
            );
        }
        let there: Vec<Move> = b.all_legal_moves().iter().map(turned_move).collect();
        let mut back = t.all_legal_moves();
        assert_eq!(there.len(), back.len());
        back.retain(|m| !there.contains(m));
        assert!(back.is_empty());
    }
}
