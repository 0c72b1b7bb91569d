use vstd::prelude::*;
use crate::enums::Player;
use crate::grid::{distance, grid_like, Edges};

verus! {

/// The mathematical model of a game position: everything the rules read.
pub struct Position {
    /// The placed wall segments, each `(orientation, x, y)`.
    pub walls: Set<(int, int, int)>,
    /// Cell of player 1's token.
    pub pawn1: (int, int),
    /// Cell of player 2's token.
    pub pawn2: (int, int),
    /// The side that acts next.
    pub to_move: Player,
    /// Walls that player 1 may still place.
    pub left1: int,
    /// Walls that player 2 may still place.
    pub left2: int,
}

/// The cell `(x, y)` lies on the 9x9 grid.
pub open spec fn on_board(x: int, y: int) -> bool {
    0 <= x <= 8 && 0 <= y <= 8
}

/// `(o, x, y)` names a wall segment: orientation 0 or 1, anchor in the 8x8
/// grid of intersections.
pub open spec fn wall_slot(o: int, x: int, y: int) -> bool {
    0 <= o <= 1 && 0 <= x <= 7 && 0 <= y <= 7
}

/// `d` is one of the four directions: 1 north, 2 east, 3 south, 4 west.
pub open spec fn is_dir(d: int) -> bool {
    1 <= d <= 4
}

/// Column change of one step in direction `d`.
pub open spec fn dx(d: int) -> int {
    if d == 2 {
        1
    } else if d == 4 {
        -1
    } else {
        0
    }
}

/// Row change of one step in direction `d`.
pub open spec fn dy(d: int) -> int {
    if d == 1 {
        1
    } else if d == 3 {
        -1
    } else {
        0
    }
}

/// The direction opposite to `d`.
pub open spec fn opposite(d: int) -> int {
    if d <= 2 {
        d + 2
    } else {
        d - 2
    }
}

/// A horizontal wall lies on the edge between `(x, y)` and `(x, y + 1)`.
pub open spec fn blocked_above(w: Set<(int, int, int)>, x: int, y: int) -> bool {
    (x <= 7 && w.contains((0, x, y))) || (x >= 1 && w.contains((0, x - 1, y)))
}

/// A vertical wall lies on the edge between `(x, y)` and `(x + 1, y)`.
pub open spec fn blocked_right(w: Set<(int, int, int)>, x: int, y: int) -> bool {
    (y <= 7 && w.contains((1, x, y))) || (y >= 1 && w.contains((1, x, y - 1)))
}

/// A wall lies on the edge that a step from `(x, y)` in direction `d` crosses.
pub open spec fn wall_blocks(w: Set<(int, int, int)>, x: int, y: int, d: int) -> bool {
    if d == 1 {
        blocked_above(w, x, y)
    } else if d == 2 {
        blocked_right(w, x, y)
    } else if d == 3 {
        blocked_above(w, x, y - 1)
    } else {
        blocked_right(w, x - 1, y)
    }
}

/// A step from the cell `(x, y)` in direction `d` stays on the grid and
/// crosses no wall. Tokens play no part in this.
pub open spec fn edge_open(w: Set<(int, int, int)>, x: int, y: int, d: int) -> bool {
    &&& on_board(x, y)
    &&& is_dir(d)
    &&& on_board(x + dx(d), y + dy(d))
    &&& !wall_blocks(w, x, y, d)
}

/// The open edges of the grid under the walls `w`, as an edge relation.
pub open spec fn wall_edges(w: Set<(int, int, int)>) -> Edges {
    |x: int, y: int, d: int| edge_open(w, x, y, d)
}

/// The open edges under any set of walls stay on the grid and can be
/// taken both ways.
pub proof fn lemma_wall_edges(w: Set<(int, int, int)>)
    ensures
        grid_like(wall_edges(w)),
{
    let e = wall_edges(w);
    assert forall|x: int, y: int| #[trigger] e(x, y, 1) == e(x, y + 1, 3) by {}
    assert forall|x: int, y: int| #[trigger] e(x, y, 2) == e(x + 1, y, 4) by {}
}

impl Position {
    /// Index of the side to move: 0 for player 1, 1 for player 2.
    pub open spec fn mover(self) -> int {
        match self.to_move {
            Player::Player1 => 0,
            Player::Player2 => 1,
        }
    }

    /// Cell of player `p` (0 or 1).
    pub open spec fn cell(self, p: int) -> (int, int) {
        if p == 0 {
            self.pawn1
        } else {
            self.pawn2
        }
    }

    /// Wall budget of player `p` (0 or 1).
    pub open spec fn left(self, p: int) -> int {
        if p == 0 {
            self.left1
        } else {
            self.left2
        }
    }

    /// Goal row of player `p`: row 8 for player 1, row 0 for player 2.
    pub open spec fn goal(p: int) -> int {
        if p == 0 {
            8
        } else {
            0
        }
    }

    /// Both tokens are on the grid and neither budget exceeds ten.
    pub open spec fn wf(self) -> bool {
        &&& on_board(self.pawn1.0, self.pawn1.1)
        &&& on_board(self.pawn2.0, self.pawn2.1)
        &&& 0 <= self.left1 <= 10
        &&& 0 <= self.left2 <= 10
    }

    /// The two tokens stand on different cells.
    pub open spec fn tokens_apart(self) -> bool {
        self.pawn1 != self.pawn2
    }

    /// No two walls share an anchor, and no two walls of one orientation
    /// are anchored one place apart along their line.
    pub open spec fn walls_apart(self) -> bool {
        forall|x: int, y: int|
            #![trigger self.walls.contains((0, x, y))]
            #![trigger self.walls.contains((1, x, y))]
            0 <= x <= 7 && 0 <= y <= 7 ==> {
                &&& !(self.walls.contains((0, x, y)) && self.walls.contains((1, x, y)))
                &&& !(self.walls.contains((0, x, y)) && x <= 6 && self.walls.contains((0, x + 1, y)))
                &&& !(self.walls.contains((1, x, y)) && y <= 6 && self.walls.contains((1, x, y + 1)))
            }
    }

    /// Shortest distance of player `p` to its goal row, tokens ignored.
    pub open spec fn dist(self, p: int) -> Option<nat> {
        distance(wall_edges(self.walls), self.cell(p).0, self.cell(p).1, Self::goal(p))
    }

    /// Each player still has a way to its goal row.
    pub open spec fn paths_open(self) -> bool {
        self.dist(0) is Some && self.dist(1) is Some
    }
}

} // verus!
