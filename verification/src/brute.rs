use vstd::prelude::*;
use rayon::iter::{IntoParallelRefIterator, ParallelIterator};
use crate::board::Board;
use crate::enums::{Move, Player};
use crate::laws::lemma_legal_move_keeps_invariants;
use crate::moves::{candidates, lemma_legal_among_legal};
use crate::grid::lemma_distance_is_shortest;
use crate::position::{blocked_above, lemma_wall_edges, wall_edges, Position};
use crate::rules::lemma_legal_can_apply;

verus! {

/// A node of the game tree: a position and the move that led to it.
#[derive(Debug)]
pub struct GameState {
    pub board: Board,
    pub mv_from_parent: Option<Move>,
}

impl Clone for GameState {
    fn clone(&self) -> (g: GameState)
        ensures
            g.board@ == self.board@,
            g.board.move_sequence@ == self.board.move_sequence@,
            g.mv_from_parent == self.mv_from_parent,
    {
        GameState { board: self.board.clone(), mv_from_parent: self.mv_from_parent }
    }
}

/// What a node hands to its parent: its line of play, last move first,
/// and its score. `Err` says that the score is a forced loss for the side
/// to move at the node, so that the parent need look no further.
pub type Verdict = Result<(Vec<Move>, isize), (Vec<Move>, isize)>;

/// The score `a` is at least as good as `b` for the side `p`: player 1
/// wants it high, player 2 low.
pub open spec fn better(p: Player, a: int, b: int) -> bool {
    match p {
        Player::Player1 => a >= b,
        Player::Player2 => a <= b,
    }
}

/// The better of two scores for the side `p`.
pub open spec fn pick(p: Player, a: int, b: int) -> int {
    if better(p, b, a) {
        b
    } else {
        a
    }
}

/// The score of a won game for the side `p`.
pub open spec fn win_score(p: Player) -> int {
    match p {
        Player::Player1 => 1000,
        Player::Player2 => -1000,
    }
}

/// The move is a pawn move, or a wall anchored in the middle 4x4 block of
/// intersections: the moves of the small variant.
pub open spec fn inner_move(m: Move) -> bool {
    match m {
        Move::Step(_) => true,
        Move::Wall(a) => 2 <= a[1] <= 5 && 2 <= a[2] <= 5,
    }
}

/// The moves of `c` that the small variant admits, in the order of `c`.
pub open spec fn inner_among(c: Seq<Move>) -> Seq<Move>
    decreases c.len(),
{
    if c.len() == 0 {
        Seq::empty()
    } else {
        let rest = inner_among(c.drop_last());
        if inner_move(c.last()) {
            rest.push(c.last())
        } else {
            rest
        }
    }
}

impl Position {
    /// No wall lies on the edge between the mover's cell and the next row
    /// toward the mover's goal; true as well where the mover stands on its
    /// goal row.
    pub open spec fn goal_step_free(self) -> bool {
        let me = self.cell(self.mover());
        match self.to_move {
            Player::Player1 => !(me.1 != 8 && blocked_above(self.walls, me.0, me.1)),
            Player::Player2 => !(me.1 != 0 && blocked_above(self.walls, me.0, me.1 - 1)),
        }
    }

    /// The side to move can win with its next step: it stands within a
    /// step of its goal row (of rows 6 and 2 in the small variant), no
    /// wall bars that step, and the other side has not reached its own
    /// goal row.
    pub open spec fn wins(self, small: bool) -> bool {
        let near: int = if small {
            5
        } else {
            7
        };
        match self.to_move {
            Player::Player1 => self.pawn1.1 >= near && self.goal_step_free() && self.pawn2.1 != 0,
            Player::Player2 => self.pawn2.1 <= 8 - near && self.goal_step_free() && self.pawn1.1 != 8,
        }
    }

    /// The tempo term: one point for the side to move.
    pub open spec fn tempo(self) -> int {
        match self.to_move {
            Player::Player1 => 1,
            Player::Player2 => -1,
        }
    }

    /// The row that player `p` (0 or 1) has to reach: rows 8 and 0, in the
    /// small variant rows 6 and 2.
    pub open spec fn home(p: int, small: bool) -> int {
        if p == 0 {
            if small {
                6
            } else {
                8
            }
        } else {
            if small {
                2
            } else {
                0
            }
        }
    }

    /// The player who has won: the one whose token rests on the row it
    /// has to reach, or beyond it. Where both do, player 1 is named.
    pub open spec fn won(self, small: bool) -> Option<Player> {
        if self.pawn1.1 >= Self::home(0, small) {
            Some(Player::Player1)
        } else if self.pawn2.1 <= Self::home(1, small) {
            Some(Player::Player2)
        } else {
            None
        }
    }

    /// The score of a position at which the search stops: the score of a
    /// won game where a player has won; else the difference of the wall
    /// budgets, plus twice the difference of the distances to goal, plus
    /// the tempo term. High scores favour player 1.
    pub open spec fn score(self, small: bool) -> int {
        match self.won(small) {
            Some(p) => win_score(p),
            None => (self.left1 - self.left2) + 2 * (self.dist(1).unwrap() - self.dist(0).unwrap())
                + self.tempo(),
        }
    }

    /// The moves that the search tries at this position: the legal moves,
    /// in the small variant those among them that it admits.
    pub open spec fn options(self, small: bool) -> Seq<Move> {
        if small {
            inner_among(self.legal_moves())
        } else {
            self.legal_moves()
        }
    }

    /// The search goes no deeper at this position: the depth limit is
    /// reached, a player has won, or there is no move to try.
    pub open spec fn stops(self, depth: nat, max_depth: nat, small: bool) -> bool {
        depth >= max_depth || self.won(small) is Some || self.options(small).len() == 0
    }

    /// The minimax value of this position at depth `depth` of a search
    /// to depth `max_depth`: its score where the search stops, else the
    /// best for the side to move of the values of its children.
    pub open spec fn value(self, depth: nat, max_depth: nat, small: bool) -> int
        decreases max_depth - depth, 1nat, 0nat,
    {
        if self.stops(depth, max_depth, small) {
            self.score(small)
        } else {
            self.best_child(
                self.options(small),
                self.options(small).len(),
                depth,
                max_depth,
                small,
            )
        }
    }

    /// The best for the side to move of the values of the children that
    /// the first `n` moves of `ms` lead to.
    pub open spec fn best_child(
        self,
        ms: Seq<Move>,
        n: nat,
        depth: nat,
        max_depth: nat,
        small: bool,
    ) -> int
        decreases max_depth - depth, 0nat, n,
    {
        if depth >= max_depth || n == 0 {
            0
        } else if n == 1 {
            self.after(ms[0]).value(depth + 1, max_depth, small)
        } else {
            pick(
                self.to_move,
                self.best_child(ms, (n - 1) as nat, depth, max_depth, small),
                self.after(ms[n - 1]).value(depth + 1, max_depth, small),
            )
        }
    }

    /// `rev`, read from its end, is a best line of play from this
    /// position: each move is one that the search tries and leads to a
    /// child that has the value of its parent, down to where the search
    /// stops.
    pub open spec fn best_tail(self, rev: Seq<Move>, depth: nat, max_depth: nat, small: bool) -> bool
        decreases rev.len(),
    {
        if self.stops(depth, max_depth, small) {
            rev.len() == 0
        } else {
            &&& rev.len() > 0
            &&& self.options(small).contains(rev.last())
            &&& self.after(rev.last()).value(depth + 1, max_depth, small) == self.value(
                depth,
                max_depth,
                small,
            )
            &&& self.after(rev.last()).best_tail(rev.drop_last(), depth + 1, max_depth, small)
        }
    }

    /// `line`, read from its start, is a best line of play from this
    /// position.
    pub open spec fn best_line(self, line: Seq<Move>, depth: nat, max_depth: nat, small: bool) -> bool
        decreases line.len(),
    {
        if self.stops(depth, max_depth, small) {
            line.len() == 0
        } else {
            &&& line.len() > 0
            &&& self.options(small).contains(line[0])
            &&& self.after(line[0]).value(depth + 1, max_depth, small) == self.value(
                depth,
                max_depth,
                small,
            )
            &&& self.after(line[0]).best_line(line.skip(1), depth + 1, max_depth, small)
        }
    }

    /// The value that a search from this position to the depth
    /// `max_depth` reports: the value of the position as the node at depth
    /// 0.
    pub open spec fn root_value(self, max_depth: nat, small: bool) -> int {
        self.value(0, max_depth, small)
    }

    /// `line` is a best line of play from this position as the root of a
    /// search to the depth `max_depth`: empty where the search stops at
    /// the root.
    pub open spec fn root_line(self, line: Seq<Move>, max_depth: nat, small: bool) -> bool {
        self.best_line(line, 0, max_depth, small)
    }

    /// The best score for the side to move that one move can reach, by the
    /// scores of the positions that the first `n` moves of `ms` lead to.
    pub open spec fn greedy(self, ms: Seq<Move>, n: nat, small: bool) -> int
        decreases n,
    {
        if n == 0 {
            0
        } else if n == 1 {
            self.after(ms[0]).score(small)
        } else {
            pick(
                self.to_move,
                self.greedy(ms, (n - 1) as nat, small),
                self.after(ms[n - 1]).score(small),
            )
        }
    }
}

/// The line of play in a verdict.
pub open spec fn line_of(r: Verdict) -> Seq<Move> {
    match r {
        Ok(p) => p.0@,
        Err(p) => p.0@,
    }
}

/// The score in a verdict.
pub open spec fn score_of(r: Verdict) -> int {
    match r {
        Ok(p) => p.1 as int,
        Err(p) => p.1 as int,
    }
}

/// The verdict `r` is a right one for the node at `pos` that the move `mv`
/// led to. Its score is the value of the node. Its line ends in `mv`, and
/// what stands before `mv` is a best line of play from the node, last move
/// first. It is `Err` exactly where the search went on below the node and
/// the score is that of a game won by the side that is not to move there.
pub open spec fn node_post(
    pos: Position,
    mv: Move,
    depth: nat,
    max_depth: nat,
    small: bool,
    r: Verdict,
) -> bool {
    &&& score_of(r) == pos.value(depth, max_depth, small)
    &&& line_of(r).len() > 0
    &&& line_of(r).last() == mv
    &&& pos.best_tail(line_of(r).drop_last(), depth, max_depth, small)
    &&& r is Err <==> !pos.stops(depth, max_depth, small) && score_of(r) == win_score(
        pos.next_mover(),
    )
}

/// The verdict `r` is a right one for the child that the move `m` leads
/// to from `pos`, a node at depth `depth`.
pub open spec fn child_post(
    pos: Position,
    m: Move,
    depth: nat,
    max_depth: nat,
    small: bool,
    r: Verdict,
) -> bool {
    node_post(pos.after(m), m, depth + 1, max_depth, small, r)
}

/// Entry `i` of `v` has a score that is best for the side `p`, and is the
/// last entry with that score.
pub open spec fn last_best(p: Player, v: Seq<(Vec<Move>, isize)>, i: int) -> bool {
    &&& 0 <= i < v.len()
    &&& forall|j: int| 0 <= j < v.len() ==> better(p, v[i].1 as int, #[trigger] v[j].1 as int)
    &&& forall|j: int| i < j < v.len() ==> #[trigger] v[j].1 != v[i].1
}

/// Every move that the small variant keeps of a list is in the list.
pub proof fn lemma_inner_among_from(c: Seq<Move>, i: int) -> (j: int)
    requires
        0 <= i < inner_among(c).len(),
    ensures
        0 <= j < c.len(),
        c[j] == inner_among(c)[i],
    decreases c.len(),
{
    let rest = inner_among(c.drop_last());
    if i < rest.len() {
        lemma_inner_among_from(c.drop_last(), i)
    } else {
        c.len() - 1
    }
}

/// Every move that the search tries is legal.
pub proof fn lemma_options_legal(pos: Position, small: bool, i: int)
    requires
        0 <= i < pos.options(small).len(),
    ensures
        pos.legal(pos.options(small)[i]),
{
    if small {
        let j = lemma_inner_among_from(pos.legal_moves(), i);
        lemma_legal_among_legal(pos, candidates(pos.to_move), j);
    } else {
        lemma_legal_among_legal(pos, candidates(pos.to_move), i);
    }
}

/// The score of a position with both ways open lies between the scores
/// of the two won games.
pub proof fn lemma_score_bounds(pos: Position, small: bool)
    requires
        pos.wf(),
        pos.paths_open(),
    ensures
        -1000 <= pos.score(small) <= 1000,
        pos.won(small) is None ==> -171 <= pos.score(small) <= 171,
{
    lemma_wall_edges(pos.walls);
    lemma_distance_is_shortest(wall_edges(pos.walls), pos.pawn1.0, pos.pawn1.1, 8);
    lemma_distance_is_shortest(wall_edges(pos.walls), pos.pawn2.0, pos.pawn2.1, 0);
}

/// The value of a position with both ways open lies between the scores
/// of the two won games.
pub proof fn lemma_value_bounds(pos: Position, depth: nat, max_depth: nat, small: bool)
    requires
        pos.wf(),
        pos.paths_open(),
    ensures
        -1000 <= pos.value(depth, max_depth, small) <= 1000,
    decreases max_depth - depth, 1nat, 0nat,
{
    if pos.stops(depth, max_depth, small) {
        lemma_score_bounds(pos, small);
    } else {
        assert forall|j: int| 0 <= j < pos.options(small).len() implies pos.legal(
            #[trigger] pos.options(small)[j],
        ) by {
            lemma_options_legal(pos, small, j);
        }
        lemma_best_child_bounds(
            pos,
            pos.options(small),
            pos.options(small).len(),
            depth,
            max_depth,
            small,
        );
    }
}

/// The best of the children's values lies between the scores of the two
/// won games.
pub proof fn lemma_best_child_bounds(
    pos: Position,
    ms: Seq<Move>,
    n: nat,
    depth: nat,
    max_depth: nat,
    small: bool,
)
    requires
        pos.wf(),
        pos.paths_open(),
        n <= ms.len(),
        forall|j: int| 0 <= j < n ==> pos.legal(#[trigger] ms[j]),
    ensures
        -1000 <= pos.best_child(ms, n, depth, max_depth, small) <= 1000,
    decreases max_depth - depth, 0nat, n,
{
    if depth >= max_depth || n == 0 {
    } else {
        assert(pos.legal(ms[n - 1]));
        lemma_legal_move_keeps_invariants(pos, ms[n - 1]);
        lemma_value_bounds(pos.after(ms[n - 1]), depth + 1, max_depth, small);
        if n > 1 {
            lemma_best_child_bounds(pos, ms, (n - 1) as nat, depth, max_depth, small);
        }
    }
}

/// The best of the children's values is as good for the side to move as
/// the value of each child, and is the value of one of them.
pub proof fn lemma_best_child_extreme(
    pos: Position,
    ms: Seq<Move>,
    n: nat,
    depth: nat,
    max_depth: nat,
    small: bool,
) -> (i: int)
    requires
        1 <= n <= ms.len(),
        depth < max_depth,
    ensures
        0 <= i < n,
        pos.best_child(ms, n, depth, max_depth, small) == pos.after(ms[i]).value(
            depth + 1,
            max_depth,
            small,
        ),
        forall|j: int|
            0 <= j < n ==> better(
                pos.to_move,
                pos.best_child(ms, n, depth, max_depth, small),
                #[trigger] pos.after(ms[j]).value(depth + 1, max_depth, small),
            ),
    decreases n,
{
    if n == 1 {
        0
    } else {
        let i = lemma_best_child_extreme(pos, ms, (n - 1) as nat, depth, max_depth, small);
        let before = pos.best_child(ms, (n - 1) as nat, depth, max_depth, small);
        let last = pos.after(ms[n - 1]).value(depth + 1, max_depth, small);
        if better(pos.to_move, last, before) {
            n - 1
        } else {
            i
        }
    }
}

/// A child's value that is as good for the side to move as that of each
/// child is the best of the children's values.
pub proof fn lemma_best_child_pinned(
    pos: Position,
    ms: Seq<Move>,
    depth: nat,
    max_depth: nat,
    small: bool,
    i: int,
)
    requires
        0 <= i < ms.len(),
        depth < max_depth,
        forall|j: int|
            0 <= j < ms.len() ==> better(
                pos.to_move,
                pos.after(ms[i]).value(depth + 1, max_depth, small),
                #[trigger] pos.after(ms[j]).value(depth + 1, max_depth, small),
            ),
    ensures
        pos.best_child(ms, ms.len(), depth, max_depth, small) == pos.after(ms[i]).value(
            depth + 1,
            max_depth,
            small,
        ),
{
    let k = lemma_best_child_extreme(pos, ms, ms.len(), depth, max_depth, small);
}

/// A best line read from its end is, turned round, a best line read from
/// its start.
pub proof fn lemma_tail_is_line(
    pos: Position,
    rev: Seq<Move>,
    depth: nat,
    max_depth: nat,
    small: bool,
)
    requires
        pos.best_tail(rev, depth, max_depth, small),
    ensures
        pos.best_line(rev.reverse(), depth, max_depth, small),
    decreases rev.len(),
{
    if !pos.stops(depth, max_depth, small) {
        let line = rev.reverse();
        assert(line[0] == rev.last());
        assert(line.skip(1) =~= rev.drop_last().reverse());
        lemma_tail_is_line(pos.after(rev.last()), rev.drop_last(), depth + 1, max_depth, small);
    }
}

/// A search of one ply is greedy: where nobody has won and there is a
/// move to try, the root's value is the best, for the side to move, of
/// the scores of the positions that its moves lead to; else it is the
/// score of the root itself.
pub proof fn lemma_one_ply_is_greedy(pos: Position, small: bool)
    ensures
        pos.won(small) is None && pos.options(small).len() > 0 ==> pos.root_value(1, small)
            == pos.greedy(pos.options(small), pos.options(small).len(), small),
        pos.won(small) is Some || pos.options(small).len() == 0 ==> pos.root_value(1, small)
            == pos.score(small),
{
    lemma_one_ply_prefix(pos, pos.options(small), pos.options(small).len(), small);
}

proof fn lemma_one_ply_prefix(pos: Position, ms: Seq<Move>, n: nat, small: bool)
    requires
        n <= ms.len(),
    ensures
        n > 0 ==> pos.best_child(ms, n, 0, 1, small) == pos.greedy(ms, n, small),
    decreases n,
{
    if n > 0 {
        let child = pos.after(ms[n - 1]);
        assert(child.stops(1, 1, small));
        assert(child.value(1, 1, small) == child.score(small));
        if n > 1 {
            lemma_one_ply_prefix(pos, ms, (n - 1) as nat, small);
        }
    }
}

/// The score that one move can reach at best is the score of the position
/// after one of the moves, and as good for the side to move as the score
/// after each of them.
pub proof fn lemma_greedy_extreme(pos: Position, ms: Seq<Move>, n: nat, small: bool) -> (i: int)
    requires
        1 <= n <= ms.len(),
    ensures
        0 <= i < n,
        pos.greedy(ms, n, small) == pos.after(ms[i]).score(small),
        forall|j: int|
            0 <= j < n ==> better(
                pos.to_move,
                pos.greedy(ms, n, small),
                #[trigger] pos.after(ms[j]).score(small),
            ),
    decreases n,
{
    if n == 1 {
        0
    } else {
        let i = lemma_greedy_extreme(pos, ms, (n - 1) as nat, small);
        let before = pos.greedy(ms, (n - 1) as nat, small);
        let last = pos.after(ms[n - 1]).score(small);
        if better(pos.to_move, last, before) {
            n - 1
        } else {
            i
        }
    }
}

impl Board {
    /// Tells whether no wall bars the mover's step toward its goal row.
    pub fn check_step_to_goal(&self) -> (r: bool)
        requires
            self.wf(),
        ensures
            r == self@.goal_step_free(),
    {
        let tm = self.to_move_indices().0;
        let x = self.players[tm][0];
        let y = self.players[tm][1];
        match self.to_move {
            Player::Player1 => !((x != 8 && y != 8 && self.is_wall(0, x, y)) || (x != 0 && y != 8
                && self.is_wall(0, x - 1, y))),
            Player::Player2 => !((x != 8 && y != 0 && self.is_wall(0, x, y - 1)) || (x != 0 && y
                != 0 && self.is_wall(0, x - 1, y - 1))),
        }
    }

    /// Tells whether the side to move can win with its next step on the
    /// 9x9 board.
    pub fn current_player_wins(&self) -> (r: bool)
        requires
            self.wf(),
        ensures
            r == self@.wins(false),
    {
        match self.to_move {
            Player::Player1 => self.players[0][1] >= 7 && self.check_step_to_goal()
                && self.players[1][1] != 0,
            Player::Player2 => self.players[1][1] <= 1 && self.check_step_to_goal()
                && self.players[0][1] != 8,
        }
    }

    /// Tells whether the side to move can win with its next step in the
    /// small variant.
    pub fn current_player_wins_5x5(&self) -> (r: bool)
        requires
            self.wf(),
        ensures
            r == self@.wins(true),
    {
        match self.to_move {
            Player::Player1 => self.players[0][1] >= 5 && self.check_step_to_goal()
                && self.players[1][1] != 0,
            Player::Player2 => self.players[1][1] <= 3 && self.check_step_to_goal()
                && self.players[0][1] != 8,
        }
    }

    /// The player who has won, if one has: the one whose token rests on
    /// the row it has to reach (rows 8 and 0, in the small variant rows 6
    /// and 2) or beyond it; player 1 where both do.
    pub fn won(&self, small: bool) -> (r: Option<Player>)
        ensures
            r == self@.won(small),
    {
        let top: usize = if small {
            6
        } else {
            8
        };
        let bottom: usize = if small {
            2
        } else {
            0
        };
        if self.players[0][1] >= top {
            Some(Player::Player1)
        } else if self.players[1][1] <= bottom {
            Some(Player::Player2)
        } else {
            None
        }
    }

    /// The heuristic part of the score.
    fn material(&self) -> (r: isize)
        requires
            self.wf(),
            self@.paths_open(),
        ensures
            r == (self@.left1 - self@.left2) + 2 * (self@.dist(1).unwrap() - self@.dist(0).unwrap())
                + self@.tempo(),
            -171 <= r <= 171,
    {
        let far = self.dist_to_goal(1).unwrap();
        let near = self.dist_to_goal(0).unwrap();
        let mut sum: isize = self.walls_left[0] as isize - self.walls_left[1] as isize;
        sum += 2 * (far as isize - near as isize);
        match self.to_move {
            Player::Player1 => {
                sum += 1;
            },
            Player::Player2 => {
                sum -= 1;
            },
        }
        sum
    }
}

impl GameState {
    /// The score of this node on the 9x9 board.
    pub fn score(&self) -> (r: isize)
        requires
            self.board.wf(),
            self.board@.paths_open(),
        ensures
            r == self.board@.score(false),
    {
        match self.board.won(false) {
            Some(Player::Player1) => 1000,
            Some(Player::Player2) => -1000,
            None => self.board.material(),
        }
    }

    /// The score of this node in the small variant.
    pub fn score_5x5(&self) -> (r: isize)
        requires
            self.board.wf(),
            self.board@.paths_open(),
        ensures
            r == self.board@.score(true),
    {
        match self.board.won(true) {
            Some(Player::Player1) => 1000,
            Some(Player::Player2) => -1000,
            None => self.board.material(),
        }
    }
}

/// Tells whether the small variant admits the move.
pub fn filter_5x5(mv: &Move) -> (r: bool)
    ensures
        r == inner_move(*mv),
{
    match mv {
        Move::Step(_) => true,
        Move::Wall(a) => 2 <= a[1] && a[1] <= 5 && 2 <= a[2] && a[2] <= 5,
    }
}

/// The moves of a list that the small variant admits.
fn inner_moves(all: &Vec<Move>) -> (kept: Vec<Move>)
    ensures
        kept@ == inner_among(all@),
{
    let mut kept: Vec<Move> = Vec::new();
    let mut i: usize = 0;
    proof {
        assert(all@.take(0) =~= Seq::<Move>::empty());
    }
    while i < all.len()
        invariant
            0 <= i <= all.len(),
            kept@ == inner_among(all@.take(i as int)),
        decreases all.len() - i,
    {
        proof {
            assert(all@.take(i + 1).drop_last() =~= all@.take(i as int));
        }
        if filter_5x5(&all[i]) {
            kept.push(all[i]);
        }
        i += 1;
    }
    proof {
        assert(all@.take(all.len() as int) =~= all@);
    }
    kept
}

/// Index of the entry that is best for the side `p`: of several with the
/// best score, the last.
fn best_index(v: &Vec<(Vec<Move>, isize)>, p: Player) -> (i: usize)
    requires
        v@.len() > 0,
    ensures
        last_best(p, v@, i as int),
{
    let mut best: usize = 0;
    let mut k: usize = 1;
    while k < v.len()
        invariant
            1 <= k <= v.len(),
            0 <= best < k,
            forall|j: int| 0 <= j < k ==> better(p, v@[best as int].1 as int, #[trigger] v@[j].1 as int),
            forall|j: int| best < j < k ==> #[trigger] v@[j].1 != v@[best as int].1,
        decreases v.len() - k,
    {
        let mine = v[k].1;
        let held = v[best].1;
        let wins = match p {
            Player::Player1 => mine >= held,
            Player::Player2 => mine <= held,
        };
        if wins {
            best = k;
        }
        k += 1;
    }
    best
}

/// The moves of a list in reverse order.
fn reversed(v: &Vec<Move>) -> (r: Vec<Move>)
    ensures
        r@ == v@.reverse(),
{
    let mut r: Vec<Move> = Vec::new();
    let mut k: usize = v.len();
    while k > 0
        invariant
            0 <= k <= v.len(),
            r@.len() == v.len() - k,
            forall|j: int| 0 <= j < r@.len() ==> r@[j] == v@[v.len() - 1 - j],
        decreases k,
    {
        k -= 1;
        r.push(v[k]);
    }
    proof {
        assert(r@ =~= v@.reverse());
    }
    r
}

/// Evaluates the child that each move of `moves` leads to, in parallel,
/// through rayon's `par_iter`, `map` and `collect` into a `Result`.
///
/// Not verified; the contract states what rayon documents of that
/// collection. `Ok` holds one entry for each move, in the order of the
/// moves, each the score and line of an `Ok` verdict that `eval_child`
/// meets its contract with. `Err` holds the score and line of an `Err`
/// verdict of `eval_child` for one of the moves; which one, where several
/// children report `Err`, is left open.
#[verifier::external_body]
fn par_children(board: &Board, moves: &Vec<Move>, depth: usize, max_depth: usize, small: bool) -> (res:
    Result<Vec<(Vec<Move>, isize)>, (Vec<Move>, isize)>)
    requires
        board.wf(),
        board@.paths_open(),
        depth < max_depth,
        forall|i: int| 0 <= i < moves@.len() ==> board@.legal(#[trigger] moves@[i]),
    ensures
        match res {
            Ok(v) => v@.len() == moves@.len() && forall|i: int|
                0 <= i < moves@.len() ==> child_post(
                    board@,
                    moves@[i],
                    depth as nat,
                    max_depth as nat,
                    small,
                    Ok(#[trigger] v@[i]),
                ),
            Err(e) => exists|i: int|
                0 <= i < moves@.len() && child_post(
                    board@,
                    #[trigger] moves@[i],
                    depth as nat,
                    max_depth as nat,
                    small,
                    Err(e),
                ),
        },
{
    moves.par_iter().map(|mv| eval_child(board, mv, depth, max_depth, small)).collect()
}

/// Makes the move on a copy of the board and evaluates the child node.
pub fn eval_child(board: &Board, mv: &Move, depth: usize, max_depth: usize, small: bool) -> (r:
    Verdict)
    requires
        board.wf(),
        board@.paths_open(),
        depth < max_depth,
        board@.legal(*mv),
    ensures
        child_post(board@, *mv, depth as nat, max_depth as nat, small, r),
{
    proof {
        lemma_legal_can_apply(board@, *mv);
        lemma_legal_move_keeps_invariants(board@, *mv);
    }
    let child = GameState { board: board.mv_new_no_memory(mv), mv_from_parent: Some(*mv) };
    search_node(child, depth + 1, max_depth, small)
}

/// Evaluates a node of the game tree to the depth limit: its minimax
/// value and a best line of play, last move first, with the move that led
/// to the node at the end.
pub fn search_node(game: GameState, depth: usize, max_depth: usize, small: bool) -> (r: Verdict)
    requires
        game.board.wf(),
        game.board@.paths_open(),
        game.mv_from_parent is Some,
    ensures
        node_post(
            game.board@,
            game.mv_from_parent.unwrap(),
            depth as nat,
            max_depth as nat,
            small,
            r,
        ),
{
    let mut game = game;
    let ghost pos = game.board@;
    let from = game.mv_from_parent.unwrap();
    let over = game.board.won(small).is_some();
    if depth >= max_depth || over {
        let score = if small {
            game.score_5x5()
        } else {
            game.score()
        };
        let mut line: Vec<Move> = Vec::new();
        line.push(from);
        proof {
            assert(line@.drop_last() =~= Seq::<Move>::empty());
        }
        return Ok((line, score));
    }
    let all = game.board.all_legal_moves();
    let moves = if small {
        inner_moves(&all)
    } else {
        all
    };
    assert(moves@ == pos.options(small));
    if moves.len() == 0 {
        let score = if small {
            game.score_5x5()
        } else {
            game.score()
        };
        let mut line: Vec<Move> = Vec::new();
        line.push(from);
        proof {
            assert(line@.drop_last() =~= Seq::<Move>::empty());
        }
        return Ok((line, score));
    }
    let (line, score) = best_reply(&game.board, &moves, depth, max_depth, small);
    let mut line = line;
    let ghost reply = line@;
    line.push(from);
    proof {
        assert(line@.drop_last() =~= reply);
    }
    let lost = match game.board.to_move {
        Player::Player1 => score == -1000,
        Player::Player2 => score == 1000,
    };
    if lost {
        Err((line, score))
    } else {
        Ok((line, score))
    }
}

/// Evaluates the children that the moves lead to and picks the best for
/// the side to move: its score, and its line of play, which ends in the
/// move chosen.
fn best_reply(board: &Board, moves: &Vec<Move>, depth: usize, max_depth: usize, small: bool) -> (r: (
    Vec<Move>,
    isize,
))
    requires
        board.wf(),
        board@.paths_open(),
        depth < max_depth,
        moves@.len() > 0,
        moves@ == board@.options(small),
    ensures
        r.1 == board@.best_child(moves@, moves@.len(), depth as nat, max_depth as nat, small),
        r.0@.len() > 0,
        moves@.contains(r.0@.last()),
        board@.after(r.0@.last()).value(depth as nat + 1, max_depth as nat, small) == r.1,
        board@.after(r.0@.last()).best_tail(
            r.0@.drop_last(),
            depth as nat + 1,
            max_depth as nat,
            small,
        ),
{
    let ghost pos = board@;
    let ghost d = depth as nat;
    let ghost md = max_depth as nat;
    proof {
        assert forall|i: int| 0 <= i < moves@.len() implies pos.legal(#[trigger] moves@[i]) by {
            lemma_options_legal(pos, small, i);
        }
    }
    let res = par_children(board, moves, depth, max_depth, small);
    match res {
        Ok(v) => {
            let i = best_index(&v, board.to_move);
            let mut v = v;
            let ghost all = v@;
            let best = v.swap_remove(i);
            proof {
                assert(best == all[i as int]);
                assert(child_post(pos, moves@[i as int], d, md, small, Ok(all[i as int])));
                assert forall|j: int| 0 <= j < moves@.len() implies better(
                    pos.to_move,
                    pos.after(moves@[i as int]).value(d + 1, md, small),
                    #[trigger] pos.after(moves@[j]).value(d + 1, md, small),
                ) by {
                    assert(child_post(pos, moves@[j], d, md, small, Ok(all[j])));
                    assert(better(pos.to_move, all[i as int].1 as int, all[j].1 as int));
                }
                lemma_best_child_pinned(pos, moves@, d, md, small, i as int);
            }
            best
        },
        Err(e) => {
            proof {
                let i = choose|i: int|
                    0 <= i < moves@.len() && child_post(
                        pos,
                        #[trigger] moves@[i],
                        d,
                        md,
                        small,
                        Err(e),
                    );
                assert forall|j: int| 0 <= j < moves@.len() implies better(
                    pos.to_move,
                    pos.after(moves@[i]).value(d + 1, md, small),
                    #[trigger] pos.after(moves@[j]).value(d + 1, md, small),
                ) by {
                    lemma_legal_move_keeps_invariants(pos, moves@[j]);
                    lemma_value_bounds(pos.after(moves@[j]), d + 1, md, small);
                }
                lemma_best_child_pinned(pos, moves@, d, md, small, i);
            }
            e
        },
    }
}

/// Searches the game tree below a position to the depth limit and
/// reports a best line of play, first move first, and its score.
fn search_root(board: Board, max_depth: usize, small: bool) -> (r: (Vec<Move>, isize))
    requires
        board.wf(),
        board@.paths_open(),
    ensures
        r.1 == board@.root_value(max_depth as nat, small),
        board@.root_line(r.0@, max_depth as nat, small),
{
    let mut board = board;
    let ghost pos = board@;
    let over = board.won(small).is_some();
    let moves = if max_depth == 0 || over {
        Vec::new()
    } else {
        let all = board.all_legal_moves();
        if small {
            inner_moves(&all)
        } else {
            all
        }
    };
    if moves.len() == 0 {
        let game = GameState { board: board, mv_from_parent: None };
        let score = if small {
            game.score_5x5()
        } else {
            game.score()
        };
        return (Vec::new(), score);
    }
    let (rev, score) = best_reply(&board, &moves, 0, max_depth, small);
    let line = reversed(&rev);
    proof {
        lemma_tail_is_line(pos.after(rev@.last()), rev@.drop_last(), 1, max_depth as nat, small);
        assert(line@[0] == rev@.last());
        assert(line@.skip(1) =~= rev@.drop_last().reverse());
    }
    (line, score)
}

/// Searches the game tree of the 9x9 game below a position to the depth
/// limit and reports a best line of play, first move first, and its
/// score: player 1 picks the highest, player 2 the lowest.
pub fn brute_force(board: Board, max_depth: usize) -> (r: (Vec<Move>, isize))
    requires
        board.wf(),
        board@.paths_open(),
    ensures
        r.1 == board@.root_value(max_depth as nat, false),
        board@.root_line(r.0@, max_depth as nat, false),
{
    search_root(board, max_depth, false)
}

/// Searches the game tree of the small variant below a position to the
/// depth limit and reports a best line of play, first move first, and its
/// score.
pub fn brute_force_5x5(board: Board, max_depth: usize) -> (r: (Vec<Move>, isize))
    requires
        board.wf(),
        board@.paths_open(),
    ensures
        r.1 == board@.root_value(max_depth as nat, true),
        board@.root_line(r.0@, max_depth as nat, true),
{
    search_root(board, max_depth, true)
}

} // verus!
