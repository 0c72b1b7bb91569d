use vstd::prelude::*;
use crate::board::Board;
use crate::grid::{
    cut_off, lemma_distance_none, lemma_distance_some, shortest_is, shortest_walk, Edges, Grid,
};
use crate::position::{edge_open, is_dir, lemma_wall_edges, on_board, wall_edges, Position};

verus! {

impl Grid for Board {
    open spec fn edges(&self) -> Edges {
        wall_edges(self@.walls)
    }

    open spec fn grid_ok(&self) -> bool {
        true
    }

    proof fn lemma_grid(&self) {
        lemma_wall_edges(self@.walls);
    }

    fn open_edge(&self, cell: [usize; 2], dir: usize) -> (r: bool) {
        self.step_possible(cell, dir)
    }
}

impl Board {
    /// Tells whether a step from `[x, y]` in direction `dir` (1 north, 2
    /// east, 3 south, 4 west) stays on the grid and crosses no wall. The
    /// tokens are ignored.
    pub fn step_possible(&self, cell: [usize; 2], dir: usize) -> (r: bool)
        requires
            on_board(cell[0] as int, cell[1] as int),
            is_dir(dir as int),
        ensures
            r == edge_open(self@.walls, cell[0] as int, cell[1] as int, dir as int),
    {
        let x = cell[0];
        let y = cell[1];
        if dir == 1 {
            y != 8 && !((x != 8 && self.is_wall(0, x, y)) || (x != 0 && self.is_wall(0, x - 1, y)))
        } else if dir == 2 {
            x != 8 && !((y != 8 && self.is_wall(1, x, y)) || (y != 0 && self.is_wall(1, x, y - 1)))
        } else if dir == 3 {
            y != 0 && !((x != 8 && self.is_wall(0, x, y - 1)) || (x != 0 && self.is_wall(
                0,
                x - 1,
                y - 1,
            )))
        } else {
            x != 0 && !((y != 8 && self.is_wall(1, x - 1, y)) || (y != 0 && self.is_wall(
                1,
                x - 1,
                y - 1,
            )))
        }
    }

    /// Length of a shortest walk of player `p` (0 or 1) to its goal row
    /// over open edges, the tokens ignored; `None` where the walls cut the
    /// player off.
    pub fn dist_to_goal(&self, p: usize) -> (r: Option<usize>)
        requires
            self.wf(),
            p < 2,
        ensures
            match r {
                Some(d) => shortest_is(
                    wall_edges(self@.walls),
                    self@.cell(p as int).0,
                    self@.cell(p as int).1,
                    Position::goal(p as int),
                    d as nat,
                ) && d <= 80,
                None => cut_off(
                    wall_edges(self@.walls),
                    self@.cell(p as int).0,
                    self@.cell(p as int).1,
                    Position::goal(p as int),
                ),
            },
            self@.dist(p as int) == match r {
                Some(d) => Some(d as nat),
                None => None::<nat>,
            },
    {
        let x = self.players[p][0];
        let y = self.players[p][1];
        let g: usize = if p == 0 {
            8
        } else {
            0
        };
        let r = shortest_walk(self, x, y, g);
        proof {
            let ed = wall_edges(self@.walls);
            match r {
                Some(d) => {
                    lemma_distance_some(ed, x as int, y as int, g as int, d as nat);
                },
                None => {
                    lemma_distance_none(ed, x as int, y as int, g as int);
                },
            }
        }
        r
    }
}

} // verus!
