use vstd::prelude::*;
use crate::grid::{cut_off, shortest_is, shortest_walk, Edges, Grid};
use crate::position::{is_dir, on_board, wall_blocks};

verus! {

/// A cell of the grid with its open edges.
#[derive(Clone, Copy, Debug, PartialEq, Eq, Hash)]
pub struct Tile {
    /// The cell `[x, y]`.
    pub pos: [usize; 2],
    /// Whether the step north, east, south, west is open, in that order.
    pub neighboors: [bool; 4],
}

/// The grid as a table of cells, `vertices[x][y]` for the cell `(x, y)`.
#[derive(Clone, Copy, Debug)]
pub struct Graph {
    pub vertices: [[Tile; 9]; 9],
}

/// The wall `(o, x, y)` lies on the edge that a step from `(a, b)` in
/// direction `d` crosses.
pub open spec fn crossed(o: int, x: int, y: int, a: int, b: int, d: int) -> bool {
    wall_blocks(Set::<(int, int, int)>::empty().insert((o, x, y)), a, b, d)
}

impl Tile {
    /// The cell `(x, y)` with every edge open that stays on the grid.
    pub fn new(x: usize, y: usize) -> (t: Tile)
        ensures
            t.pos[0] == x,
            t.pos[1] == y,
            t.neighboors[0] == (y != 8),
            t.neighboors[1] == (x != 8),
            t.neighboors[2] == (y != 0),
            t.neighboors[3] == (x != 0),
    {
        Tile { pos: [x, y], neighboors: [y != 8, x != 8, y != 0, x != 0] }
    }

    /// The cell `(0, 0)` with all four edges marked open.
    pub fn empty() -> (t: Tile)
        ensures
            t.pos[0] == 0,
            t.pos[1] == 0,
            forall|d: int| 0 <= d < 4 ==> #[trigger] t.neighboors[d],
    {
        Tile { pos: [0, 0], neighboors: [true, true, true, true] }
    }
}

impl Graph {
    /// The step from `(x, y)` in direction `d` is marked open.
    pub open spec fn link(&self, x: int, y: int, d: int) -> bool {
        on_board(x, y) && is_dir(d) && self.vertices[x][y].neighboors[d - 1]
    }

    /// Every edge that is marked open is marked so from both its ends, and
    /// none leads off the grid.
    pub open spec fn wf(&self) -> bool {
        &&& forall|x: int, y: int| #[trigger] self.link(x, y, 1) == self.link(x, y + 1, 3)
        &&& forall|x: int, y: int| #[trigger] self.link(x, y, 2) == self.link(x + 1, y, 4)
    }

    /// Every cell of the table holds its own place.
    pub open spec fn placed(&self) -> bool {
        forall|x: int, y: int|
            on_board(x, y) ==> (#[trigger] self.vertices[x][y]).pos[0] == x
                && self.vertices[x][y].pos[1] == y
    }

    /// The grid without walls: an edge is open exactly if it stays on the
    /// grid.
    pub open spec fn open_grid(&self) -> bool {
        forall|x: int, y: int, d: int|
            #[trigger] self.link(x, y, d) == (on_board(x, y) && is_dir(d) && on_board(
                x + crate::position::dx(d),
                y + crate::position::dy(d),
            ))
    }

    /// Marks the step from `(x, y)` in direction `d` open or closed.
    fn mark(&mut self, x: usize, y: usize, d: usize, open: bool)
        requires
            on_board(x as int, y as int),
            is_dir(d as int),
        ensures
            forall|a: int, b: int, e: int|
                #[trigger] final(self).link(a, b, e) == (if a == x && b == y && e == d {
                    open
                } else {
                    old(self).link(a, b, e)
                }),
            forall|a: int, b: int|
                on_board(a, b) ==> (#[trigger] final(self).vertices[a][b]).pos == old(
                    self,
                ).vertices[a][b].pos,
    {
        let mut tile = self.vertices[x][y];
        tile.neighboors[d - 1] = open;
        self.vertices[x][y] = tile;
    }

    /// Closes the four steps that the wall `[i, x, y]` bars: for a
    /// horizontal wall the steps north out of `(x, y)` and `(x + 1, y)` and
    /// south out of the cells above them, for a vertical wall the steps
    /// east out of `(x, y)` and `(x, y + 1)` and west out of the cells
    /// beside them. An orientation other than 0 or 1 closes nothing.
    pub fn place_wall(&mut self, wall: [usize; 3])
        requires
            wall[1] <= 7,
            wall[2] <= 7,
        ensures
            forall|a: int, b: int, d: int|
                #[trigger] final(self).link(a, b, d) == (old(self).link(a, b, d) && !crossed(
                    wall[0] as int,
                    wall[1] as int,
                    wall[2] as int,
                    a,
                    b,
                    d,
                )),
            old(self).wf() ==> final(self).wf(),
            forall|a: int, b: int|
                on_board(a, b) ==> (#[trigger] final(self).vertices[a][b]).pos == old(
                    self,
                ).vertices[a][b].pos,
    {
        let i = wall[0];
        let x = wall[1];
        let y = wall[2];
        if i == 0 {
            self.mark(x, y, 1, false);
            self.mark(x + 1, y, 1, false);
            self.mark(x, y + 1, 3, false);
            self.mark(x + 1, y + 1, 3, false);
        } else if i == 1 {
            self.mark(x, y, 2, false);
            self.mark(x + 1, y, 4, false);
            self.mark(x, y + 1, 2, false);
            self.mark(x + 1, y + 1, 4, false);
        }
        proof {
            if old(self).wf() {
                assert forall|a: int, b: int| #[trigger]
                    self.link(a, b, 1) == self.link(a, b + 1, 3) by {
                    assert(old(self).link(a, b, 1) == old(self).link(a, b + 1, 3));
                }
                assert forall|a: int, b: int| #[trigger]
                    self.link(a, b, 2) == self.link(a + 1, b, 4) by {
                    assert(old(self).link(a, b, 2) == old(self).link(a + 1, b, 4));
                }
            }
        }
    }

    /// Opens the four steps that the wall `[i, x, y]` bars. An orientation
    /// other than 0 or 1 opens nothing.
    pub fn remove_wall(&mut self, wall: [usize; 3])
        requires
            wall[1] <= 7,
            wall[2] <= 7,
        ensures
            forall|a: int, b: int, d: int|
                #[trigger] final(self).link(a, b, d) == (old(self).link(a, b, d) || (on_board(a, b)
                    && is_dir(d) && crossed(
                    wall[0] as int,
                    wall[1] as int,
                    wall[2] as int,
                    a,
                    b,
                    d,
                ))),
            old(self).wf() ==> final(self).wf(),
            forall|a: int, b: int|
                on_board(a, b) ==> (#[trigger] final(self).vertices[a][b]).pos == old(
                    self,
                ).vertices[a][b].pos,
    {
        let i = wall[0];
        let x = wall[1];
        let y = wall[2];
        if i == 0 {
            self.mark(x, y, 1, true);
            self.mark(x + 1, y, 1, true);
            self.mark(x, y + 1, 3, true);
            self.mark(x + 1, y + 1, 3, true);
        } else if i == 1 {
            self.mark(x, y, 2, true);
            self.mark(x + 1, y, 4, true);
            self.mark(x, y + 1, 2, true);
            self.mark(x + 1, y + 1, 4, true);
        }
        proof {
            if old(self).wf() {
                assert forall|a: int, b: int| #[trigger]
                    self.link(a, b, 1) == self.link(a, b + 1, 3) by {
                    assert(old(self).link(a, b, 1) == old(self).link(a, b + 1, 3));
                }
                assert forall|a: int, b: int| #[trigger]
                    self.link(a, b, 2) == self.link(a + 1, b, 4) by {
                    assert(old(self).link(a, b, 2) == old(self).link(a + 1, b, 4));
                }
            }
        }
    }

    /// Length of a shortest walk over open steps from the cell `[a, b]`
    /// into the row `g`; `None` where no walk leads there.
    pub fn dist_to_goal(&self, from: [usize; 2], g: usize) -> (r: Option<usize>)
        requires
            self.wf(),
            on_board(from[0] as int, from[1] as int),
        ensures
            match r {
                Some(d) => shortest_is(
                    self.edges(),
                    from[0] as int,
                    from[1] as int,
                    g as int,
                    d as nat,
                ) && d <= 80,
                None => cut_off(self.edges(), from[0] as int, from[1] as int, g as int),
            },
    {
        shortest_walk(self, from[0], from[1], g)
    }
}

impl Grid for Graph {
    open spec fn edges(&self) -> Edges {
        |x: int, y: int, d: int| self.link(x, y, d)
    }

    open spec fn grid_ok(&self) -> bool {
        self.wf()
    }

    proof fn lemma_grid(&self) {
        let ed = self.edges();
        assert forall|x: int, y: int, d: int| #[trigger] ed(x, y, d) implies on_board(x, y)
            && is_dir(d) && on_board(x + crate::position::dx(d), y + crate::position::dy(d)) by {
            if d == 1 {
                assert(self.link(x, y, 1) == self.link(x, y + 1, 3));
            } else if d == 2 {
                assert(self.link(x, y, 2) == self.link(x + 1, y, 4));
            } else if d == 3 {
                assert(self.link(x, y - 1, 1) == self.link(x, y - 1 + 1, 3));
            } else {
                assert(self.link(x - 1, y, 2) == self.link(x - 1 + 1, y, 4));
            }
        }
        assert forall|x: int, y: int| #[trigger] ed(x, y, 1) == ed(x, y + 1, 3) by {
            assert(self.link(x, y, 1) == self.link(x, y + 1, 3));
        }
        assert forall|x: int, y: int| #[trigger] ed(x, y, 2) == ed(x + 1, y, 4) by {
            assert(self.link(x, y, 2) == self.link(x + 1, y, 4));
        }
    }

    fn open_edge(&self, cell: [usize; 2], dir: usize) -> (r: bool) {
        self.vertices[cell[0]][cell[1]].neighboors[dir - 1]
    }
}

impl Default for Graph {
    fn default() -> (g: Graph)
        ensures
            g.wf(),
            g.placed(),
            g.open_grid(),
    {
        let mut v = [[Tile::empty(); 9]; 9];
        let mut x: usize = 0;
        while x < 9
            invariant
                0 <= x <= 9,
                forall|a: int, b: int|
                    0 <= a < x && 0 <= b < 9 ==> fresh_tile(#[trigger] v[a][b], a, b),
            decreases 9 - x,
        {
            let mut y: usize = 0;
            while y < 9
                invariant
                    0 <= x < 9,
                    0 <= y <= 9,
                    forall|a: int, b: int|
                        0 <= a < x && 0 <= b < 9 ==> fresh_tile(#[trigger] v[a][b], a, b),
                    forall|b: int| 0 <= b < y ==> fresh_tile(#[trigger] v[x as int][b], x as int, b),
                decreases 9 - y,
            {
                let ghost before = v;
                v[x][y] = Tile::new(x, y);
                assert forall|a: int, b: int| 0 <= a < x && 0 <= b < 9 implies fresh_tile(
                    #[trigger] v[a][b],
                    a,
                    b,
                ) by {
                    assert(v[a] == before[a]);
                    assert(fresh_tile(before[a][b], a, b));
                }
                assert forall|b: int| 0 <= b < y + 1 implies fresh_tile(
                    #[trigger] v[x as int][b],
                    x as int,
                    b,
                ) by {
                    if b < y {
                        assert(v[x as int][b] == before[x as int][b]);
                        assert(fresh_tile(before[x as int][b], x as int, b));
                    }
                }
                y += 1;
            }
            x += 1;
        }
        let g = Graph { vertices: v };
        proof {
            assert forall|a: int, b: int, d: int| #[trigger]
                g.link(a, b, d) == (on_board(a, b) && is_dir(d) && on_board(
                    a + crate::position::dx(d),
                    b + crate::position::dy(d),
                )) by {
                if on_board(a, b) {
                    assert(fresh_tile(g.vertices[a][b], a, b));
                }
            }
            assert forall|a: int, b: int| #[trigger] g.link(a, b, 1) == g.link(a, b + 1, 3) by {
                assert(g.link(a, b + 1, 3) == (on_board(a, b + 1) && on_board(a, b)));
            }
            assert forall|a: int, b: int| #[trigger] g.link(a, b, 2) == g.link(a + 1, b, 4) by {
                assert(g.link(a + 1, b, 4) == (on_board(a + 1, b) && on_board(a, b)));
            }
            assert forall|a: int, b: int| on_board(a, b) implies (#[trigger] g.vertices[a][b]).pos[0]
                == a && g.vertices[a][b].pos[1] == b by {
                assert(fresh_tile(g.vertices[a][b], a, b));
            }
        }
        g
    }
}

/// The tile is the one that `Tile::new` makes for the cell `(x, y)`.
pub open spec fn fresh_tile(t: Tile, x: int, y: int) -> bool {
    &&& t.pos[0] == x
    &&& t.pos[1] == y
    &&& t.neighboors[0] == (y != 8)
    &&& t.neighboors[1] == (x != 8)
    &&& t.neighboors[2] == (y != 0)
    &&& t.neighboors[3] == (x != 0)
}

} // verus!
