use vstd::prelude::*;
use crate::board::Board;
use crate::enums::{Move, MoveError};
use crate::moves::{candidates, lemma_candidates_complete, lemma_legal_among_contains, wall_move};
use crate::grid::{
    distance, lemma_distance_is_shortest, lemma_distance_some, lemma_edge_symmetric,
    lemma_shortest_exists, reach_row,
};
use crate::position::{
    dx, dy, edge_open, is_dir, lemma_wall_edges, on_board, opposite, wall_blocks, wall_edges,
    Position,
};
use crate::rules::leg;

verus! {

/// Across an open edge the way into a row is not lost.
pub proof fn lemma_edge_keeps_path(w: Set<(int, int, int)>, x: int, y: int, d: int, row: int)
    requires
        edge_open(w, x, y, d),
        distance(wall_edges(w), x, y, row) is Some,
    ensures
        distance(wall_edges(w), x + dx(d), y + dy(d), row) is Some,
{
    let ed = wall_edges(w);
    lemma_wall_edges(w);
    lemma_distance_is_shortest(ed, x, y, row);
    let n = distance(ed, x, y, row).unwrap();
    lemma_edge_symmetric(ed, x, y, d);
    assert(reach_row(ed, x + dx(d), y + dy(d), row, n + 1));
    lemma_shortest_exists(ed, x + dx(d), y + dy(d), row, n + 1);
}

/// After a wall placement that the rules accept, each player still has a
/// way to its goal row.
pub proof fn lemma_accepted_wall_keeps_paths(pos: Position, m: Move)
    requires
        pos.wf(),
        m is Wall,
        pos.legal(m),
    ensures
        pos.after(m).dist(0) is Some,
        pos.after(m).dist(1) is Some,
{
}

/// A legal move keeps the position well formed and hands the turn over;
/// it keeps each player's way to its goal row open; it keeps the walls
/// apart; and it leaves the two tokens on different cells (a wall move
/// where they were, a pawn move in any case).
pub proof fn lemma_legal_move_keeps_invariants(pos: Position, m: Move)
    requires
        pos.wf(),
        pos.legal(m),
    ensures
        pos.after(m).wf(),
        pos.after(m).to_move == pos.next_mover(),
        pos.paths_open() ==> pos.after(m).paths_open(),
        pos.walls_apart() ==> pos.after(m).walls_apart(),
        m is Step || pos.tokens_apart() ==> pos.after(m).tokens_apart(),
{
    let me = pos.cell(pos.mover());
    let other = pos.cell(1 - pos.mover());
    let goal = Position::goal(pos.mover());
    match m {
        Move::Step(c) => {
            if pos.paths_open() {
                if c < 10 {
                    lemma_edge_keeps_path(pos.walls, me.0, me.1, c as int, goal);
                } else {
                    let d1 = c as int / 10;
                    let d2 = c as int % 10;
                    lemma_edge_keeps_path(pos.walls, me.0, me.1, d1, goal);
                    if d2 == d1 {
                        lemma_edge_keeps_path(pos.walls, other.0, other.1, d1, goal);
                    } else {
                        lemma_edge_keeps_path(pos.walls, other.0, other.1, d2, goal);
                    }
                }
            }
        },
        Move::Wall(a) => {
            if pos.walls_apart() {
                let after = pos.after(m);
                assert forall|x: int, y: int|
                    #![trigger after.walls.contains((0, x, y))]
                    #![trigger after.walls.contains((1, x, y))]
                    0 <= x <= 7 && 0 <= y <= 7 implies {
                    &&& !(after.walls.contains((0, x, y)) && after.walls.contains((1, x, y)))
                    &&& !(after.walls.contains((0, x, y)) && x <= 6 && after.walls.contains(
                        (0, x + 1, y),
                    ))
                    &&& !(after.walls.contains((1, x, y)) && y <= 6 && after.walls.contains(
                        (1, x, y + 1),
                    ))
                } by {
                    assert(pos.walls.contains((0, x, y)) || !pos.walls.contains((0, x, y)));
                    assert(pos.walls.contains((1, x, y)) || !pos.walls.contains((1, x, y)));
                }
            }
        },
    }
}

/// The generator and the validator agree: a well-formed move is among the
/// legal moves of a position exactly if the rules accept it, and every
/// move among them is well formed.
pub proof fn lemma_generator_agrees(pos: Position, m: Move)
    ensures
        m.wf() ==> (pos.legal_moves().contains(m) <==> pos.check(m) is Ok),
        pos.legal_moves().contains(m) ==> m.wf(),
{
    lemma_legal_among_contains(pos, candidates(pos.to_move), m);
    if m.wf() {
        lemma_candidates_complete(pos.to_move, m);
    }
}

/// Validating the same move twice on a board that nothing else touches
/// gives the same verdict twice and leaves the board as it was: each
/// validation returns the verdict of the rules on the board it is given
/// and hands the board back unchanged.
pub proof fn lemma_validation_repeats(
    b0: Board,
    m: Move,
    b1: Board,
    r1: Result<(), MoveError>,
    b2: Board,
    r2: Result<(), MoveError>,
)
    requires
        b1 == b0,
        r1 == b0@.check(m),
        b2 == b1,
        r2 == b1@.check(m),
    ensures
        r1 == r2,
        b2 == b0,
{
}

/// The pawn move code `c` seen from the other side of the board.
pub open spec fn turned_code(c: int) -> int {
    if c < 10 {
        opposite(c)
    } else {
        10 * opposite(c / 10) + opposite(c % 10)
    }
}

/// The move `m` seen from the other side of the board.
pub open spec fn turned_move(m: Move) -> Move {
    match m {
        Move::Step(c) => Move::Step(turned_code(c as int) as usize),
        Move::Wall(a) => wall_move(a[0] as int, 7 - a[1], 7 - a[2]),
    }
}

impl Position {
    /// The position turned by half a turn about the centre of the board:
    /// each cell `(x, y)` goes to `(8 - x, 8 - y)`, each wall anchor
    /// `(x, y)` to `(7 - x, 7 - y)`, and the two players change places,
    /// budgets and turn.
    pub open spec fn turned(self) -> Position {
        Position {
            walls: Set::new(|t: (int, int, int)| self.walls.contains((t.0, 7 - t.1, 7 - t.2))),
            pawn1: (8 - self.pawn2.0, 8 - self.pawn2.1),
            pawn2: (8 - self.pawn1.0, 8 - self.pawn1.1),
            to_move: self.next_mover(),
            left1: self.left2,
            left2: self.left1,
        }
    }
}

/// Turning the board turns each edge with it.
pub proof fn lemma_turned_edge(pos: Position, x: int, y: int, d: int)
    requires
        on_board(x, y),
        is_dir(d),
    ensures
        on_board(8 - x, 8 - y),
        on_board(x + dx(d), y + dy(d)) == on_board(8 - x + dx(opposite(d)), 8 - y + dy(opposite(d))),
        8 - x + dx(opposite(d)) == 8 - (x + dx(d)),
        8 - y + dy(opposite(d)) == 8 - (y + dy(d)),
        on_board(x + dx(d), y + dy(d)) ==> wall_blocks(
            pos.turned().walls,
            8 - x,
            8 - y,
            opposite(d),
        ) == wall_blocks(pos.walls, x, y, d),
        leg(pos.turned().walls, 8 - x, 8 - y, opposite(d)) == leg(pos.walls, x, y, d),
        edge_open(pos.turned().walls, 8 - x, 8 - y, opposite(d)) == edge_open(pos.walls, x, y, d),
{
}

/// Pawn moves are judged alike from both sides of the board: on the
/// turned position the rules give the turned step or jump the verdict
/// that the move has on the position itself.
pub proof fn lemma_turned_pawn_move(pos: Position, m: Move)
    requires
        pos.wf(),
        m is Step,
        m.wf(),
    ensures
        turned_move(m).wf(),
        pos.turned().wf(),
        pos.turned().check(turned_move(m)) == pos.check(m),
{
    let c = m->Step_0 as int;
    let me = pos.cell(pos.mover());
    let other = pos.cell(1 - pos.mover());
    let t = pos.turned();
    assert(t.cell(t.mover()) == (8 - me.0, 8 - me.1));
    assert(t.cell(1 - t.mover()) == (8 - other.0, 8 - other.1));
    if c < 10 {
        lemma_turned_edge(pos, me.0, me.1, c);
    } else {
        let d1 = c / 10;
        let d2 = c % 10;
        assert(turned_code(c) / 10 == opposite(d1));
        assert(turned_code(c) % 10 == opposite(d2));
        lemma_turned_edge(pos, me.0, me.1, d1);
        if other == (me.0 + dx(d1), me.1 + dy(d1)) {
            lemma_turned_edge(pos, other.0, other.1, d1);
            lemma_turned_edge(pos, other.0, other.1, d2);
        }
    }
}

/// Turning the board turns each walk with it: a row is reached in `n`
/// steps from a cell exactly if the turned row is reached in `n` steps
/// from the turned cell under the turned walls.
pub proof fn lemma_turned_reach(pos: Position, x: int, y: int, row: int, n: nat)
    ensures
        reach_row(wall_edges(pos.turned().walls), 8 - x, 8 - y, 8 - row, n) == reach_row(
            wall_edges(pos.walls),
            x,
            y,
            row,
            n,
        ),
    decreases n,
{
    if n > 0 && on_board(x, y) {
        let m = (n - 1) as nat;
        lemma_turned_edge(pos, x, y, 1);
        lemma_turned_edge(pos, x, y, 2);
        lemma_turned_edge(pos, x, y, 3);
        lemma_turned_edge(pos, x, y, 4);
        lemma_turned_reach(pos, x, y + 1, row, m);
        lemma_turned_reach(pos, x + 1, y, row, m);
        lemma_turned_reach(pos, x, y - 1, row, m);
        lemma_turned_reach(pos, x - 1, y, row, m);
    }
}

/// Turning the board keeps each distance: from the turned cell to the
/// turned row it is what it was from the cell to the row.
pub proof fn lemma_turned_distance(pos: Position, x: int, y: int, row: int)
    ensures
        distance(wall_edges(pos.turned().walls), 8 - x, 8 - y, 8 - row) == distance(
            wall_edges(pos.walls),
            x,
            y,
            row,
        ),
{
    let ed = wall_edges(pos.walls);
    let et = wall_edges(pos.turned().walls);
    lemma_wall_edges(pos.walls);
    lemma_wall_edges(pos.turned().walls);
    if distance(ed, x, y, row) is Some {
        let d = distance(ed, x, y, row).unwrap();
        lemma_distance_is_shortest(ed, x, y, row);
        lemma_turned_reach(pos, x, y, row, d);
        let tx = 8 - x;
        let ty = 8 - y;
        let trow = 8 - row;
        assert forall|m: nat| m < d implies !#[trigger] reach_row(et, tx, ty, trow, m) by {
            lemma_turned_reach(pos, x, y, row, m);
        }
        lemma_distance_some(et, 8 - x, 8 - y, 8 - row, d);
    } else if distance(et, 8 - x, 8 - y, 8 - row) is Some {
        let d = distance(et, 8 - x, 8 - y, 8 - row).unwrap();
        lemma_distance_is_shortest(et, 8 - x, 8 - y, 8 - row);
        lemma_turned_reach(pos, x, y, row, d);
        lemma_shortest_exists(ed, x, y, row, d);
    }
}

/// Legality is the same from both sides of the board: the turned move is
/// legal on the turned position exactly if the move is legal on the
/// position itself.
pub proof fn lemma_turned_move(pos: Position, m: Move)
    requires
        pos.wf(),
        m.wf(),
    ensures
        turned_move(m).wf(),
        pos.turned().wf(),
        pos.turned().legal(turned_move(m)) == pos.legal(m),
{
    match m {
        Move::Step(c) => {
            lemma_turned_pawn_move(pos, m);
        },
        Move::Wall(a) => {
            let o = a[0] as int;
            let x = a[1] as int;
            let y = a[2] as int;
            let t = pos.turned();
            let with = pos.with_wall(o, x, y);
            assert(t.with_wall(o, 7 - x, 7 - y).walls =~= with.turned().walls);
            assert(t.with_wall(o, 7 - x, 7 - y) == with.turned());
            lemma_turned_distance(with, pos.pawn1.0, pos.pawn1.1, 8);
            lemma_turned_distance(with, pos.pawn2.0, pos.pawn2.1, 0);
            assert(with.turned().dist(1) == with.dist(0));
            assert(with.turned().dist(0) == with.dist(1));
            assert(t.wall_fits(o, 7 - x, 7 - y) == pos.wall_fits(o, x, y));
            assert(t.left(t.mover()) == pos.left(pos.mover()));
        },
    }
}

} // verus!
