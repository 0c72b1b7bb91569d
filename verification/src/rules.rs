use vstd::prelude::*;
use crate::board::{lemma_wall_round_trip, Board};
use crate::enums::{Move, MoveError, Player};
use crate::position::{dx, dy, is_dir, on_board, opposite, wall_blocks, wall_slot, Position};

verus! {

/// `c` is a jump code: two directions, the second not back toward the
/// mover's own cell.
pub open spec fn is_jump_code(c: int) -> bool {
    &&& 11 <= c <= 44
    &&& is_dir(c / 10)
    &&& is_dir(c % 10)
    &&& c % 10 != opposite(c / 10)
}

/// `c` is a pawn move code: one of the four steps or one of the twelve jumps.
pub open spec fn is_step_code(c: int) -> bool {
    is_dir(c) || is_jump_code(c)
}

/// Column change of the pawn move `c`: the sum over its legs.
pub open spec fn code_dx(c: int) -> int {
    if c < 10 {
        dx(c)
    } else {
        dx(c / 10) + dx(c % 10)
    }
}

/// Row change of the pawn move `c`: the sum over its legs.
pub open spec fn code_dy(c: int) -> int {
    if c < 10 {
        dy(c)
    } else {
        dy(c / 10) + dy(c % 10)
    }
}

/// The edge and wall test of one leg from `(x, y)` in direction `d`.
pub open spec fn leg(w: Set<(int, int, int)>, x: int, y: int, d: int) -> Result<(), MoveError> {
    if !on_board(x + dx(d), y + dy(d)) {
        Err(MoveError::EdgeOfBoard)
    } else if wall_blocks(w, x, y, d) {
        Err(MoveError::BlockedByWall)
    } else {
        Ok(())
    }
}

impl Move {
    /// The move is one of the closed set of moves: a pawn move code, or a
    /// wall with orientation 0 or 1 and anchor in the 8x8 grid.
    pub open spec fn wf(self) -> bool {
        match self {
            Move::Step(c) => is_step_code(c as int),
            Move::Wall(a) => wall_slot(a[0] as int, a[1] as int, a[2] as int),
        }
    }

    /// Tells whether the move is well formed.
    pub fn is_wf(&self) -> (r: bool)
        ensures
            r == self.wf(),
    {
        match self {
            Move::Step(c) => {
                let c = *c;
                if c < 10 {
                    1 <= c && c <= 4
                } else {
                    let a = c / 10;
                    let b = c % 10;
                    c <= 44 && 1 <= a && a <= 4 && 1 <= b && b <= 4 && !(a + 2 == b || b + 2 == a)
                }
            },
            Move::Wall(a) => a[0] <= 1 && a[1] <= 7 && a[2] <= 7,
        }
    }
}

impl Position {
    /// The rule that the single step in direction `d` breaks, if any: the
    /// edge of the board, then a wall, then the opponent's token.
    pub open spec fn check_step(self, d: int) -> Result<(), MoveError> {
        let me = self.cell(self.mover());
        let other = self.cell(1 - self.mover());
        match leg(self.walls, me.0, me.1, d) {
            Err(e) => Err(e),
            Ok(_) => if other == (me.0 + dx(d), me.1 + dy(d)) {
                Err(MoveError::BlockedByOpponent)
            } else {
                Ok(())
            },
        }
    }

    /// The rule that the jump with legs `d1`, `d2` breaks, if any. The
    /// opponent must stand one step in direction `d1`, with no wall in
    /// between. A straight jump then needs the edge behind the opponent
    /// open; a diagonal jump needs it closed and the edge out of the
    /// opponent's cell in direction `d2` open.
    pub open spec fn check_jump(self, d1: int, d2: int) -> Result<(), MoveError> {
        let me = self.cell(self.mover());
        let other = self.cell(1 - self.mover());
        if other != (me.0 + dx(d1), me.1 + dy(d1)) {
            Err(MoveError::OpponentNotThere)
        } else if wall_blocks(self.walls, me.0, me.1, d1) {
            Err(MoveError::BlockedByWall)
        } else if d2 == d1 {
            leg(self.walls, other.0, other.1, d1)
        } else if leg(self.walls, other.0, other.1, d1) is Ok {
            Err(MoveError::SpaceBehindFree)
        } else {
            leg(self.walls, other.0, other.1, d2)
        }
    }

    /// There is room for the wall `(o, x, y)`: no wall is placed at its
    /// anchor, and none of its own orientation is anchored one place
    /// further along its line, where the two would lie on a common edge.
    pub open spec fn wall_fits(self, o: int, x: int, y: int) -> bool {
        &&& !self.walls.contains((0, x, y))
        &&& !self.walls.contains((1, x, y))
        &&& o == 0 ==> !(x != 0 && self.walls.contains((0, x - 1, y))) && !(x != 7
            && self.walls.contains((0, x + 1, y)))
        &&& o == 1 ==> !(y != 0 && self.walls.contains((1, x, y - 1))) && !(y != 7
            && self.walls.contains((1, x, y + 1)))
    }

    /// The position with the wall `(o, x, y)` added and all else as it is.
    pub open spec fn with_wall(self, o: int, x: int, y: int) -> Position {
        Position { walls: self.walls.insert((o, x, y)), ..self }
    }

    /// The rule that placing the wall `(o, x, y)` breaks, if any: the
    /// mover's budget, then the room for the wall, then player 1's way to
    /// row 8 and player 2's way to row 0 with the wall in place.
    pub open spec fn check_wall(self, o: int, x: int, y: int) -> Result<(), MoveError> {
        if self.left(self.mover()) == 0 {
            Err(MoveError::NoWallsLeft)
        } else if !self.wall_fits(o, x, y) {
            Err(MoveError::SpaceOccupied)
        } else if self.with_wall(o, x, y).dist(0) is None {
            Err(MoveError::P1NoPath)
        } else if self.with_wall(o, x, y).dist(1) is None {
            Err(MoveError::P2NoPath)
        } else {
            Ok(())
        }
    }

    /// The verdict of the rules on the move `m` in this position.
    pub open spec fn check(self, m: Move) -> Result<(), MoveError> {
        match m {
            Move::Step(c) => if c < 10 {
                self.check_step(c as int)
            } else {
                self.check_jump(c as int / 10, c as int % 10)
            },
            Move::Wall(a) => self.check_wall(a[0] as int, a[1] as int, a[2] as int),
        }
    }

    /// The move is well formed and breaks no rule.
    pub open spec fn legal(self, m: Move) -> bool {
        m.wf() && self.check(m) is Ok
    }

    /// The move can be carried out: a pawn move lands on the grid, a wall
    /// is paid from a budget that is not empty.
    pub open spec fn can_apply(self, m: Move) -> bool {
        match m {
            Move::Step(c) => {
                let me = self.cell(self.mover());
                on_board(me.0 + code_dx(c as int), me.1 + code_dy(c as int))
            },
            Move::Wall(a) => self.left(self.mover()) > 0,
        }
    }

    /// The side that does not move.
    pub open spec fn next_mover(self) -> Player {
        match self.to_move {
            Player::Player1 => Player::Player2,
            Player::Player2 => Player::Player1,
        }
    }

    /// The position that the move `m` leads to. A pawn move shifts the
    /// mover's token by the sum of its legs; a wall move adds the wall and
    /// takes one from the mover's budget; either hands the turn over.
    pub open spec fn after(self, m: Move) -> Position {
        match m {
            Move::Step(c) => {
                let me = self.cell(self.mover());
                let to = (me.0 + code_dx(c as int), me.1 + code_dy(c as int));
                Position {
                    pawn1: if self.mover() == 0 {
                        to
                    } else {
                        self.pawn1
                    },
                    pawn2: if self.mover() == 0 {
                        self.pawn2
                    } else {
                        to
                    },
                    to_move: self.next_mover(),
                    ..self
                }
            },
            Move::Wall(a) => Position {
                walls: self.walls.insert((a[0] as int, a[1] as int, a[2] as int)),
                left1: if self.mover() == 0 {
                    self.left1 - 1
                } else {
                    self.left1
                },
                left2: if self.mover() == 0 {
                    self.left2
                } else {
                    self.left2 - 1
                },
                to_move: self.next_mover(),
                ..self
            },
        }
    }
}

/// A legal move can be carried out.
pub proof fn lemma_legal_can_apply(p: Position, m: Move)
    requires
        p.wf(),
        p.legal(m),
    ensures
        p.can_apply(m),
{
}

impl Board {
    /// The edge and wall test of one leg from `(x, y)` in direction `d`.
    pub fn leg_check(&self, x: usize, y: usize, d: usize) -> (r: Result<(), MoveError>)
        requires
            on_board(x as int, y as int),
            is_dir(d as int),
        ensures
            r == leg(self@.walls, x as int, y as int, d as int),
    {
        if d == 1 {
            if y == 8 {
                return Err(MoveError::EdgeOfBoard);
            }
            if (x != 8 && self.is_wall(0, x, y)) || (x != 0 && self.is_wall(0, x - 1, y)) {
                return Err(MoveError::BlockedByWall);
            }
        } else if d == 2 {
            if x == 8 {
                return Err(MoveError::EdgeOfBoard);
            }
            if (y != 8 && self.is_wall(1, x, y)) || (y != 0 && self.is_wall(1, x, y - 1)) {
                return Err(MoveError::BlockedByWall);
            }
        } else if d == 3 {
            if y == 0 {
                return Err(MoveError::EdgeOfBoard);
            }
            if (x != 8 && self.is_wall(0, x, y - 1)) || (x != 0 && self.is_wall(0, x - 1, y - 1)) {
                return Err(MoveError::BlockedByWall);
            }
        } else {
            if x == 0 {
                return Err(MoveError::EdgeOfBoard);
            }
            if (y != 8 && self.is_wall(1, x - 1, y)) || (y != 0 && self.is_wall(1, x - 1, y - 1)) {
                return Err(MoveError::BlockedByWall);
            }
        }
        Ok(())
    }

    /// Tells whether `(a, b)` is the cell one step from `(x, y)` in
    /// direction `d`.
    fn is_next(x: usize, y: usize, d: usize, a: usize, b: usize) -> (r: bool)
        requires
            on_board(x as int, y as int),
            on_board(a as int, b as int),
            is_dir(d as int),
        ensures
            r == (a == x + dx(d as int) && b == y + dy(d as int)),
    {
        if d == 1 {
            a == x && b == y + 1
        } else if d == 2 {
            a == x + 1 && b == y
        } else if d == 3 {
            a == x && b + 1 == y
        } else {
            a + 1 == x && b == y
        }
    }

    /// Decides whether the move is legal for the side to move and, if it
    /// is not, names the rule it breaks. For a wall the wall is placed, both
    /// players' ways are measured, and the wall is taken away again: the
    /// board is left as it was.
    pub fn check_move(&mut self, mv: &Move) -> (r: Result<(), MoveError>)
        requires
            old(self).wf(),
            mv.wf(),
        ensures
            *final(self) == *old(self),
            r == old(self)@.check(*mv),
    {
        let (tm, ntm) = self.to_move_indices();
        let x = self.players[tm][0];
        let y = self.players[tm][1];
        let a = self.players[ntm][0];
        let b = self.players[ntm][1];
        match mv {
            Move::Step(c) => {
                let c = *c;
                if c < 10 {
                    match self.leg_check(x, y, c) {
                        Err(e) => {
                            return Err(e);
                        },
                        Ok(_) => {},
                    }
                    if Self::is_next(x, y, c, a, b) {
                        return Err(MoveError::BlockedByOpponent);
                    }
                    Ok(())
                } else {
                    let d1 = c / 10;
                    let d2 = c % 10;
                    if !Self::is_next(x, y, d1, a, b) {
                        return Err(MoveError::OpponentNotThere);
                    }
                    match self.leg_check(x, y, d1) {
                        Err(_) => {
                            return Err(MoveError::BlockedByWall);
                        },
                        Ok(_) => {},
                    }
                    let behind = self.leg_check(a, b, d1);
                    if d2 == d1 {
                        behind
                    } else {
                        match behind {
                            Ok(_) => Err(MoveError::SpaceBehindFree),
                            Err(_) => self.leg_check(a, b, d2),
                        }
                    }
                }
            },
            Move::Wall(w) => {
                let i = w[0];
                let x = w[1];
                let y = w[2];
                if self.walls_left[tm] == 0 {
                    return Err(MoveError::NoWallsLeft);
                }
                if self.is_wall(0, x, y) || self.is_wall(1, x, y) {
                    return Err(MoveError::SpaceOccupied);
                }
                if i == 0 {
                    if (x != 0 && self.is_wall(0, x - 1, y)) || (x != 7 && self.is_wall(
                        0,
                        x + 1,
                        y,
                    )) {
                        return Err(MoveError::SpaceOccupied);
                    }
                } else {
                    if (y != 0 && self.is_wall(1, x, y - 1)) || (y != 7 && self.is_wall(
                        1,
                        x,
                        y + 1,
                    )) {
                        return Err(MoveError::SpaceOccupied);
                    }
                }
                proof {
                    lemma_wall_round_trip(self.walls, i as int, x as int, y as int);
                }
                self.place_wall(i, x, y);
                assert(self@ == old(self)@.with_wall(i as int, x as int, y as int));
                let first = self.dist_to_goal(0);
                let second = self.dist_to_goal(1);
                self.remove_wall(i, x, y);
                if first.is_none() {
                    return Err(MoveError::P1NoPath);
                }
                if second.is_none() {
                    return Err(MoveError::P2NoPath);
                }
                Ok(())
            },
        }
    }

    /// Applies a move. The move is not checked here: the caller has
    /// validated it.
    pub fn mv(&mut self, m: &Move)
        requires
            old(self).wf(),
            m.wf(),
            old(self)@.can_apply(*m),
        ensures
            final(self)@ == old(self)@.after(*m),
            final(self).move_sequence@ == old(self).move_sequence@.push(*m),
            final(self).wf(),
    {
        let tm = self.to_move_indices().0;
        match m {
            Move::Step(c) => {
                let c = *c;
                let mut x = self.players[tm][0];
                let mut y = self.players[tm][1];
                if c < 10 {
                    if c == 1 {
                        y += 1;
                    } else if c == 2 {
                        x += 1;
                    } else if c == 3 {
                        y -= 1;
                    } else {
                        x -= 1;
                    }
                } else {
                    let d1 = c / 10;
                    let d2 = c % 10;
                    if d1 == 1 || d2 == 1 {
                        y += 1;
                    }
                    if d1 == 1 && d2 == 1 {
                        y += 1;
                    }
                    if d1 == 2 || d2 == 2 {
                        x += 1;
                    }
                    if d1 == 2 && d2 == 2 {
                        x += 1;
                    }
                    if d1 == 3 || d2 == 3 {
                        y -= 1;
                    }
                    if d1 == 3 && d2 == 3 {
                        y -= 1;
                    }
                    if d1 == 4 || d2 == 4 {
                        x -= 1;
                    }
                    if d1 == 4 && d2 == 4 {
                        x -= 1;
                    }
                }
                if tm == 0 {
                    self.players = [[x, y], self.players[1]];
                } else {
                    self.players = [self.players[0], [x, y]];
                }
            },
            Move::Wall(w) => {
                self.place_wall(w[0], w[1], w[2]);
                if tm == 0 {
                    self.walls_left = [self.walls_left[0] - 1, self.walls_left[1]];
                } else {
                    self.walls_left = [self.walls_left[0], self.walls_left[1] - 1];
                }
            },
        }
        match self.to_move {
            Player::Player1 => {
                self.to_move = Player::Player2;
            },
            Player::Player2 => {
                self.to_move = Player::Player1;
            },
        }
        self.move_sequence.push(*m);
    }

    /// The board after the move, with the move added to its record. The
    /// move is not checked here.
    pub fn mv_new(&self, m: &Move) -> (b: Board)
        requires
            self.wf(),
            m.wf(),
            self@.can_apply(*m),
        ensures
            b@ == self@.after(*m),
            b.move_sequence@ == self.move_sequence@.push(*m),
            b.wf(),
    {
        let mut b = self.clone();
        b.mv(m);
        b
    }

    /// The board after the move, with an empty record. The move is not
    /// checked here.
    pub fn mv_new_no_memory(&self, m: &Move) -> (b: Board)
        requires
            self.wf(),
            m.wf(),
            self@.can_apply(*m),
        ensures
            b@ == self@.after(*m),
            b.move_sequence@.len() == 0,
            b.wf(),
    {
        let mut b = self.mv_new(m);
        b.move_sequence.clear();
        b
    }
}

} // verus!
