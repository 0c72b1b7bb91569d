use vstd::prelude::*;
use crate::enums::{Move, Player};
use crate::grid::{lemma_climb, lemma_descend, lemma_shortest_exists};
use crate::position::{lemma_wall_edges, wall_edges, wall_slot, Position};

verus! {

/// A game position together with the moves that led to it.
#[derive(Debug)]
pub struct Board {
    /// Wall bitmap: bit `64 * o + 8 * y + x` stands for the wall `[o, x, y]`.
    pub walls: u128,
    /// Cells `[x, y]` of player 1 and of player 2.
    pub players: [[usize; 2]; 2],
    /// The side that acts next.
    pub to_move: Player,
    /// Walls that each player may still place.
    pub walls_left: [usize; 2],
    /// The moves applied so far, oldest first.
    pub move_sequence: Vec<Move>,
}

/// The walls that fence the small variant in: vertical walls along
/// columns 0, 1, 6, 7 in rows 1 to 6 and along rows 0 and 7 in columns 2
/// to 5, and a horizontal wall in each corner.
pub const SMALL_WALLS: u128 = 80770148214459885546621745580772163713;

/// Position in the bitmap of the wall `(o, x, y)`.
pub open spec fn wall_bit(o: int, x: int, y: int) -> int {
    64 * o + 8 * y + x
}

/// Bit `k` of the bitmap `w` is set.
pub open spec fn bit_set(w: u128, k: int) -> bool {
    w & (1u128 << (k as u128)) != 0
}

/// The bitmap that holds the wall `(o, x, y)` alone.
pub open spec fn wall_mask(o: int, x: int, y: int) -> u128 {
    1u128 << (wall_bit(o, x, y) as u128)
}

/// The set of walls that the bitmap `w` holds.
pub open spec fn wall_set(w: u128) -> Set<(int, int, int)> {
    Set::new(|t: (int, int, int)| wall_slot(t.0, t.1, t.2) && bit_set(w, wall_bit(t.0, t.1, t.2)))
}

proof fn lemma_bit_or(w: u128, k: u128, j: u128)
    by (bit_vector)
    requires
        k < 128,
        j < 128,
    ensures
        ((w | (1u128 << k)) & (1u128 << j) != 0) == (j == k || (w & (1u128 << j)) != 0),
{
}

proof fn lemma_bit_clear(w: u128, k: u128, j: u128)
    by (bit_vector)
    requires
        k < 128,
        j < 128,
    ensures
        ((w & !(1u128 << k)) & (1u128 << j) != 0) == (j != k && (w & (1u128 << j)) != 0),
{
}

proof fn lemma_bit_restore(w: u128, k: u128)
    by (bit_vector)
    requires
        k < 128,
        w & (1u128 << k) == 0,
    ensures
        (w | (1u128 << k)) & !(1u128 << k) == w,
{
}

proof fn lemma_bit_none(j: u128)
    by (bit_vector)
    requires
        j < 128,
    ensures
        0u128 & (1u128 << j) == 0,
{
}

/// Setting the bit of a wall adds that wall to the set and no other.
pub proof fn lemma_wall_set_insert(w: u128, o: int, x: int, y: int)
    requires
        wall_slot(o, x, y),
    ensures
        wall_set(w | (1u128 << (wall_bit(o, x, y) as u128))) == wall_set(w).insert((o, x, y)),
{
    let k = wall_bit(o, x, y) as u128;
    let w2 = w | (1u128 << k);
    assert forall|t: (int, int, int)| wall_set(w2).contains(t) == wall_set(w).insert(
        (o, x, y),
    ).contains(t) by {
        if wall_slot(t.0, t.1, t.2) {
            let j = wall_bit(t.0, t.1, t.2) as u128;
            lemma_bit_or(w, k, j);
        }
    }
    assert(wall_set(w2) =~= wall_set(w).insert((o, x, y)));
}

/// Clearing the bit of a wall removes that wall from the set and no other.
pub proof fn lemma_wall_set_remove(w: u128, o: int, x: int, y: int)
    requires
        wall_slot(o, x, y),
    ensures
        wall_set(w & !(1u128 << (wall_bit(o, x, y) as u128))) == wall_set(w).remove((o, x, y)),
{
    let k = wall_bit(o, x, y) as u128;
    let w2 = w & !(1u128 << k);
    assert forall|t: (int, int, int)| wall_set(w2).contains(t) == wall_set(w).remove(
        (o, x, y),
    ).contains(t) by {
        if wall_slot(t.0, t.1, t.2) {
            let j = wall_bit(t.0, t.1, t.2) as u128;
            lemma_bit_clear(w, k, j);
        }
    }
    assert(wall_set(w2) =~= wall_set(w).remove((o, x, y)));
}

/// Placing a wall that was not there and taking it away again gives the
/// bitmap back.
pub proof fn lemma_wall_round_trip(w: u128, o: int, x: int, y: int)
    requires
        wall_slot(o, x, y),
        !wall_set(w).contains((o, x, y)),
    ensures
        (w | wall_mask(o, x, y)) & !wall_mask(o, x, y) == w,
{
    lemma_bit_restore(w, wall_bit(o, x, y) as u128);
}

/// The empty bitmap holds no wall.
pub proof fn lemma_wall_set_empty()
    ensures
        wall_set(0) == Set::<(int, int, int)>::empty(),
{
    assert forall|t: (int, int, int)| !wall_set(0).contains(t) by {
        if wall_slot(t.0, t.1, t.2) {
            lemma_bit_none(wall_bit(t.0, t.1, t.2) as u128);
        }
    }
    assert(wall_set(0) =~= Set::<(int, int, int)>::empty());
}

proof fn lemma_small_walls_leave_column(k: u128)
    by (bit_vector)
    requires
        k < 64,
        k % 8 == 3 || k % 8 == 4,
    ensures
        SMALL_WALLS & (1u128 << k) == 0,
{
}

/// Where no horizontal wall is anchored in columns 3 and 4, the token in
/// column 4 has a way straight up to row 8 and straight down to row 0.
pub proof fn lemma_open_column(w: Set<(int, int, int)>, y: int)
    requires
        0 <= y <= 8,
        forall|b: int| 0 <= b <= 7 ==> !w.contains((0, 3, b)) && !w.contains((0, 4, b)),
    ensures
        crate::grid::distance(wall_edges(w), 4, y, 8) is Some,
        crate::grid::distance(wall_edges(w), 4, y, 0) is Some,
{
    let ed = wall_edges(w);
    lemma_wall_edges(w);
    assert forall|j: int| 0 <= j < 8 - y implies #[trigger] ed(4, y + j, 1) by {
        assert(!w.contains((0, 3, y + j)) && !w.contains((0, 4, y + j)));
    }
    lemma_climb(ed, 4, y, (8 - y) as nat);
    lemma_shortest_exists(ed, 4, y, 8, (8 - y) as nat);
    assert forall|j: int| 0 <= j < y implies #[trigger] ed(4, y - j, 3) by {
        assert(!w.contains((0, 3, y - j - 1)) && !w.contains((0, 4, y - j - 1)));
    }
    lemma_descend(ed, 4, y, y as nat);
    lemma_shortest_exists(ed, 4, y, 0, y as nat);
}

/// The opening position is well formed; each player has a way to its
/// goal row; the tokens stand apart; no wall is placed.
pub proof fn lemma_start_is_playable()
    ensures
        Board::start().wf(),
        Board::start().paths_open(),
        Board::start().tokens_apart(),
        Board::start().walls_apart(),
{
    lemma_open_column(Board::start().walls, 0);
    lemma_open_column(Board::start().walls, 8);
}

/// The opening position of the small variant is well formed; each player
/// has a way to its goal row; the tokens stand apart.
pub proof fn lemma_small_start_is_playable()
    ensures
        Board::start_small().wf(),
        Board::start_small().paths_open(),
        Board::start_small().tokens_apart(),
{
    let w = Board::start_small().walls;
    assert forall|b: int| 0 <= b <= 7 implies !w.contains((0, 3, b)) && !w.contains((0, 4, b)) by {
        lemma_small_walls_leave_column((8 * b + 3) as u128);
        lemma_small_walls_leave_column((8 * b + 4) as u128);
    }
    lemma_open_column(w, 2);
    lemma_open_column(w, 6);
}

impl View for Board {
    type V = Position;

    open spec fn view(&self) -> Position {
        Position {
            walls: wall_set(self.walls),
            pawn1: (self.players[0][0] as int, self.players[0][1] as int),
            pawn2: (self.players[1][0] as int, self.players[1][1] as int),
            to_move: self.to_move,
            left1: self.walls_left[0] as int,
            left2: self.walls_left[1] as int,
        }
    }
}

impl Clone for Board {
    fn clone(&self) -> (b: Board)
        ensures
            b@ == self@,
            b.walls == self.walls,
            b.players == self.players,
            b.to_move == self.to_move,
            b.walls_left == self.walls_left,
            b.move_sequence@ == self.move_sequence@,
    {
        let moves = self.move_sequence.clone();
        assert(moves@ =~= self.move_sequence@);
        Board {
            walls: self.walls,
            players: self.players,
            to_move: self.to_move,
            walls_left: self.walls_left,
            move_sequence: moves,
        }
    }
}

impl Default for Board {
    fn default() -> (b: Board)
        ensures
            b@ == Board::start(),
            b.move_sequence@.len() == 0,
            b.wf(),
            b@.paths_open(),
    {
        proof {
            lemma_wall_set_empty();
            lemma_start_is_playable();
        }
        Board {
            walls: 0,
            players: [[4, 0], [4, 8]],
            to_move: Player::Player1,
            walls_left: [10, 10],
            move_sequence: Vec::new(),
        }
    }
}

impl Board {
    /// Both tokens are on the grid and neither budget exceeds ten.
    pub open spec fn wf(&self) -> bool {
        self@.wf()
    }

    /// The opening position: tokens at the middle of their baselines, no
    /// wall placed, ten walls each, player 1 to move.
    pub open spec fn start() -> Position {
        Position {
            walls: Set::empty(),
            pawn1: (4, 0),
            pawn2: (4, 8),
            to_move: Player::Player1,
            left1: 10,
            left2: 10,
        }
    }

    /// The opening position of the small variant.
    pub open spec fn start_small() -> Position {
        Position {
            walls: wall_set(SMALL_WALLS),
            pawn1: (4, 2),
            pawn2: (4, 6),
            to_move: Player::Player1,
            left1: 3,
            left2: 3,
        }
    }

    /// Tells whether the board is well formed.
    pub fn is_wf(&self) -> (r: bool)
        ensures
            r == self.wf(),
    {
        self.players[0][0] <= 8 && self.players[0][1] <= 8 && self.players[1][0] <= 8
            && self.players[1][1] <= 8 && self.walls_left[0] <= 10 && self.walls_left[1] <= 10
    }

    /// Tells whether the wall `[i, x, y]` is placed.
    pub fn is_wall(&self, i: usize, x: usize, y: usize) -> (r: bool)
        requires
            wall_slot(i as int, x as int, y as int),
        ensures
            r == self@.walls.contains((i as int, x as int, y as int)),
    {
        let k: usize = 64 * i + 8 * y + x;
        (self.walls & (1u128 << (k as u128))) != 0
    }

    /// Places the wall `[i, x, y]`.
    pub fn place_wall(&mut self, i: usize, x: usize, y: usize)
        requires
            wall_slot(i as int, x as int, y as int),
        ensures
            *final(self) == (Board {
                walls: old(self).walls | wall_mask(i as int, x as int, y as int),
                ..*old(self)
            }),
            final(self)@.walls == old(self)@.walls.insert((i as int, x as int, y as int)),
    {
        let k: usize = 64 * i + 8 * y + x;
        proof {
            lemma_wall_set_insert(self.walls, i as int, x as int, y as int);
        }
        self.walls = self.walls | (1u128 << (k as u128));
    }

    /// Takes the wall `[i, x, y]` away.
    pub fn remove_wall(&mut self, i: usize, x: usize, y: usize)
        requires
            wall_slot(i as int, x as int, y as int),
        ensures
            *final(self) == (Board {
                walls: old(self).walls & !wall_mask(i as int, x as int, y as int),
                ..*old(self)
            }),
            final(self)@.walls == old(self)@.walls.remove((i as int, x as int, y as int)),
    {
        let k: usize = 64 * i + 8 * y + x;
        proof {
            lemma_wall_set_remove(self.walls, i as int, x as int, y as int);
        }
        self.walls = self.walls & !(1u128 << (k as u128));
    }

    /// Indices of the side to move and of the other side.
    pub fn to_move_indices(&self) -> (r: (usize, usize))
        ensures
            r.0 == self@.mover(),
            r.1 == 1 - self@.mover(),
    {
        match self.to_move {
            Player::Player1 => (0, 1),
            Player::Player2 => (1, 0),
        }
    }

    /// The opening position of the 9x9 game.
    pub fn new() -> (b: Board)
        ensures
            b@ == Board::start(),
            b.move_sequence@.len() == 0,
            b.wf(),
            b@.paths_open(),
    {
        Default::default()
    }

    /// The opening position of the small variant: the 9x9 grid with the
    /// walls of `SMALL_WALLS` in place, the tokens at `(4, 2)` and
    /// `(4, 6)`, three walls each, player 1 to move.
    pub fn new5x5() -> (b: Board)
        ensures
            b@ == Board::start_small(),
            b.move_sequence@.len() == 0,
            b.wf(),
            b@.paths_open(),
    {
        proof {
            lemma_small_start_is_playable();
        }
        Board {
            walls: SMALL_WALLS,
            players: [[4, 2], [4, 6]],
            to_move: Player::Player1,
            walls_left: [3, 3],
            move_sequence: Vec::new(),
        }
    }
}

} // verus!
