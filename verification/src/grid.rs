use vstd::prelude::*;
use crate::position::{dx, dy, is_dir, on_board, opposite};

verus! {

/// An edge relation on the grid: `ed(x, y, d)` says that a step from the
/// cell `(x, y)` in direction `d` can be taken.
pub type Edges = spec_fn(int, int, int) -> bool;

/// The edges stay on the grid, run in one of the four directions, and
/// can each be taken both ways.
pub open spec fn grid_like(ed: Edges) -> bool {
    &&& forall|x: int, y: int, d: int| #[trigger]
        ed(x, y, d) ==> on_board(x, y) && is_dir(d) && on_board(x + dx(d), y + dy(d))
    &&& forall|x: int, y: int| #[trigger] ed(x, y, 1) == ed(x, y + 1, 3)
    &&& forall|x: int, y: int| #[trigger] ed(x, y, 2) == ed(x + 1, y, 4)
}

/// Some walk of exactly `n` open steps leads from `(x, y)` into row `row`.
pub open spec fn reach_row(ed: Edges, x: int, y: int, row: int, n: nat) -> bool
    decreases n,
{
    if n == 0 {
        on_board(x, y) && y == row
    } else {
        ||| ed(x, y, 1) && reach_row(ed, x, y + 1, row, (n - 1) as nat)
        ||| ed(x, y, 2) && reach_row(ed, x + 1, y, row, (n - 1) as nat)
        ||| ed(x, y, 3) && reach_row(ed, x, y - 1, row, (n - 1) as nat)
        ||| ed(x, y, 4) && reach_row(ed, x - 1, y, row, (n - 1) as nat)
    }
}

/// `d` is the length of a shortest walk from `(x, y)` into row `row`.
pub open spec fn shortest_is(ed: Edges, x: int, y: int, row: int, d: nat) -> bool {
    &&& reach_row(ed, x, y, row, d)
    &&& forall|m: nat| m < d ==> !reach_row(ed, x, y, row, m)
}

/// No walk from `(x, y)` ends in row `row`.
pub open spec fn cut_off(ed: Edges, x: int, y: int, row: int) -> bool {
    forall|n: nat| !reach_row(ed, x, y, row, n)
}

/// Length of a shortest walk from `(x, y)` into row `row`, if there is one.
pub open spec fn distance(ed: Edges, x: int, y: int, row: int) -> Option<nat> {
    if exists|d: nat| shortest_is(ed, x, y, row, d) {
        Some(choose|d: nat| shortest_is(ed, x, y, row, d))
    } else {
        None
    }
}

/// A shortest length is unique, so naming one names the distance.
pub proof fn lemma_distance_some(ed: Edges, x: int, y: int, row: int, d: nat)
    requires
        shortest_is(ed, x, y, row, d),
    ensures
        distance(ed, x, y, row) == Some(d),
{
    let c = choose|c: nat| shortest_is(ed, x, y, row, c);
    assert(shortest_is(ed, x, y, row, c));
    if c < d {
        assert(!reach_row(ed, x, y, row, c));
    }
    if d < c {
        assert(!reach_row(ed, x, y, row, d));
    }
}

/// Where nothing is reachable there is no distance.
pub proof fn lemma_distance_none(ed: Edges, x: int, y: int, row: int)
    requires
        cut_off(ed, x, y, row),
    ensures
        distance(ed, x, y, row) is None,
{
    if exists|d: nat| shortest_is(ed, x, y, row, d) {
        let d = choose|d: nat| shortest_is(ed, x, y, row, d);
        assert(reach_row(ed, x, y, row, d));
    }
}

/// Some walk of exactly `n` open steps leads from `(x, y)` to `(tx, ty)`.
pub open spec fn walk(ed: Edges, x: int, y: int, tx: int, ty: int, n: nat) -> bool
    decreases n,
{
    if n == 0 {
        on_board(x, y) && x == tx && y == ty
    } else {
        ||| ed(x, y, 1) && walk(ed, x, y + 1, tx, ty, (n - 1) as nat)
        ||| ed(x, y, 2) && walk(ed, x + 1, y, tx, ty, (n - 1) as nat)
        ||| ed(x, y, 3) && walk(ed, x, y - 1, tx, ty, (n - 1) as nat)
        ||| ed(x, y, 4) && walk(ed, x - 1, y, tx, ty, (n - 1) as nat)
    }
}

/// Some walk of at most `k` open steps leads from `(x, y)` to `(tx, ty)`.
pub open spec fn within(ed: Edges, x: int, y: int, tx: int, ty: int, k: nat) -> bool
    decreases k,
{
    walk(ed, x, y, tx, ty, k) || (k > 0 && within(ed, x, y, tx, ty, (k - 1) as nat))
}

/// An open edge is open from both of its ends.
pub proof fn lemma_edge_symmetric(ed: Edges, x: int, y: int, d: int)
    requires
        grid_like(ed),
        ed(x, y, d),
    ensures
        ed(x + dx(d), y + dy(d), opposite(d)),
        x + dx(d) + dx(opposite(d)) == x,
        y + dy(d) + dy(opposite(d)) == y,
{
    if d == 1 {
        assert(ed(x, y, 1) == ed(x, y + 1, 3));
    } else if d == 2 {
        assert(ed(x, y, 2) == ed(x + 1, y, 4));
    } else if d == 3 {
        assert(ed(x, y - 1, 1) == ed(x, y - 1 + 1, 3));
    } else {
        assert(ed(x - 1, y, 2) == ed(x - 1 + 1, y, 4));
    }
}

/// A first step: an open edge followed by a walk is a walk one longer.
pub proof fn lemma_walk_first(
    ed: Edges,
    x: int,
    y: int,
    d: int,
    tx: int,
    ty: int,
    n: nat,
)
    requires
        grid_like(ed),
        ed(x, y, d),
        walk(ed, x + dx(d), y + dy(d), tx, ty, n),
    ensures
        walk(ed, x, y, tx, ty, n + 1),
{
}

/// A last step: a walk followed by an open edge is a walk one longer.
pub proof fn lemma_walk_last(
    ed: Edges,
    x: int,
    y: int,
    tx: int,
    ty: int,
    n: nat,
    d: int,
)
    requires
        grid_like(ed),
        walk(ed, x, y, tx, ty, n),
        ed(tx, ty, d),
    ensures
        walk(ed, x, y, tx + dx(d), ty + dy(d), n + 1),
    decreases n,
{
    if n == 0 {
        assert(walk(ed, tx + dx(d), ty + dy(d), tx + dx(d), ty + dy(d), 0));
        lemma_walk_first(ed, x, y, d, tx + dx(d), ty + dy(d), 0);
    } else {
        let m = (n - 1) as nat;
        if ed(x, y, 1) && walk(ed, x, y + 1, tx, ty, m) {
            lemma_walk_last(ed, x, y + 1, tx, ty, m, d);
            lemma_walk_first(ed, x, y, 1, tx + dx(d), ty + dy(d), n);
        } else if ed(x, y, 2) && walk(ed, x + 1, y, tx, ty, m) {
            lemma_walk_last(ed, x + 1, y, tx, ty, m, d);
            lemma_walk_first(ed, x, y, 2, tx + dx(d), ty + dy(d), n);
        } else if ed(x, y, 3) && walk(ed, x, y - 1, tx, ty, m) {
            lemma_walk_last(ed, x, y - 1, tx, ty, m, d);
            lemma_walk_first(ed, x, y, 3, tx + dx(d), ty + dy(d), n);
        } else {
            lemma_walk_last(ed, x - 1, y, tx, ty, m, d);
            lemma_walk_first(ed, x, y, 4, tx + dx(d), ty + dy(d), n);
        }
    }
}

/// The first step of a walk of one step or more.
pub proof fn lemma_walk_split(ed: Edges, x: int, y: int, tx: int, ty: int, n: nat) -> (d:
    int)
    requires
        grid_like(ed),
        n > 0,
        walk(ed, x, y, tx, ty, n),
    ensures
        ed(x, y, d),
        walk(ed, x + dx(d), y + dy(d), tx, ty, (n - 1) as nat),
{
    let m = (n - 1) as nat;
    if ed(x, y, 1) && walk(ed, x, y + 1, tx, ty, m) {
        1
    } else if ed(x, y, 2) && walk(ed, x + 1, y, tx, ty, m) {
        2
    } else if ed(x, y, 3) && walk(ed, x, y - 1, tx, ty, m) {
        3
    } else {
        4
    }
}

/// A walk can be taken backwards.
pub proof fn lemma_walk_reverse(ed: Edges, x: int, y: int, tx: int, ty: int, n: nat)
    requires
        grid_like(ed),
        walk(ed, x, y, tx, ty, n),
    ensures
        walk(ed, tx, ty, x, y, n),
    decreases n,
{
    if n > 0 {
        let d = lemma_walk_split(ed, x, y, tx, ty, n);
        let m = (n - 1) as nat;
        lemma_walk_reverse(ed, x + dx(d), y + dy(d), tx, ty, m);
        lemma_edge_symmetric(ed, x, y, d);
        lemma_walk_last(ed, tx, ty, x + dx(d), y + dy(d), m, opposite(d));
    }
}

/// A walk that ends in a row reaches that row.
pub proof fn lemma_walk_into_row(ed: Edges, x: int, y: int, tx: int, row: int, n: nat)
    requires
        grid_like(ed),
        walk(ed, x, y, tx, row, n),
    ensures
        reach_row(ed, x, y, row, n),
    decreases n,
{
    if n > 0 {
        let d = lemma_walk_split(ed, x, y, tx, row, n);
        lemma_walk_into_row(ed, x + dx(d), y + dy(d), tx, row, (n - 1) as nat);
    }
}

/// Where a row is reached there is a walk to one of its cells.
pub proof fn lemma_row_walk(ed: Edges, x: int, y: int, row: int, n: nat) -> (tx: int)
    requires
        grid_like(ed),
        reach_row(ed, x, y, row, n),
    ensures
        walk(ed, x, y, tx, row, n),
        on_board(tx, row),
    decreases n,
{
    if n == 0 {
        x
    } else {
        let m = (n - 1) as nat;
        if ed(x, y, 1) && reach_row(ed, x, y + 1, row, m) {
            lemma_row_walk(ed, x, y + 1, row, m)
        } else if ed(x, y, 2) && reach_row(ed, x + 1, y, row, m) {
            lemma_row_walk(ed, x + 1, y, row, m)
        } else if ed(x, y, 3) && reach_row(ed, x, y - 1, row, m) {
            lemma_row_walk(ed, x, y - 1, row, m)
        } else {
            lemma_row_walk(ed, x - 1, y, row, m)
        }
    }
}

/// A walk of `j` steps is within any bound from `j` up.
pub proof fn lemma_within_from_walk(
    ed: Edges,
    x: int,
    y: int,
    tx: int,
    ty: int,
    j: nat,
    k: nat,
)
    requires
        grid_like(ed),
        walk(ed, x, y, tx, ty, j),
        j <= k,
    ensures
        within(ed, x, y, tx, ty, k),
    decreases k,
{
    if j < k {
        lemma_within_from_walk(ed, x, y, tx, ty, j, (k - 1) as nat);
    }
}

/// One open edge away from a cell within `k` is within `k + 1`.
pub proof fn lemma_within_step(
    ed: Edges,
    x: int,
    y: int,
    d: int,
    tx: int,
    ty: int,
    k: nat,
)
    requires
        grid_like(ed),
        ed(x, y, d),
        within(ed, x + dx(d), y + dy(d), tx, ty, k),
    ensures
        within(ed, x, y, tx, ty, k + 1),
    decreases k,
{
    if walk(ed, x + dx(d), y + dy(d), tx, ty, k) {
        lemma_walk_first(ed, x, y, d, tx, ty, k);
    } else {
        lemma_within_step(ed, x, y, d, tx, ty, (k - 1) as nat);
    }
}

/// Once a further step finds no new cell, no number of steps does.
pub proof fn lemma_within_closed(
    ed: Edges,
    tx: int,
    ty: int,
    k: nat,
    x: int,
    y: int,
    n: nat,
)
    requires
        grid_like(ed),
        forall|a: int, b: int|
            on_board(a, b) && #[trigger] within(ed, a, b, tx, ty, k + 1) ==> within(
                ed,
                a,
                b,
                tx,
                ty,
                k,
            ),
        walk(ed, x, y, tx, ty, n),
    ensures
        within(ed, x, y, tx, ty, k),
    decreases n,
{
    if n <= k {
        lemma_within_from_walk(ed, x, y, tx, ty, n, k);
    } else {
        let d = lemma_walk_split(ed, x, y, tx, ty, n);
        lemma_within_closed(ed, tx, ty, k, x + dx(d), y + dy(d), (n - 1) as nat);
        lemma_within_step(ed, x, y, d, tx, ty, k);
    }
}

/// Number of `true` entries of `s`.
spec fn count_true(s: Seq<bool>) -> nat
    decreases s.len(),
{
    if s.len() == 0 {
        0
    } else {
        count_true(s.drop_last()) + if s.last() {
            1nat
        } else {
            0nat
        }
    }
}

proof fn lemma_count_bound(s: Seq<bool>)
    ensures
        count_true(s) <= s.len(),
    decreases s.len(),
{
    if s.len() > 0 {
        lemma_count_bound(s.drop_last());
    }
}

proof fn lemma_count_gap(s: Seq<bool>, i: int)
    requires
        0 <= i < s.len(),
        !s[i],
    ensures
        count_true(s) < s.len(),
    decreases s.len(),
{
    if i == s.len() - 1 {
        lemma_count_bound(s.drop_last());
    } else {
        lemma_count_gap(s.drop_last(), i);
    }
}

proof fn lemma_count_mark(s: Seq<bool>, i: int)
    requires
        0 <= i < s.len(),
        !s[i],
    ensures
        count_true(s.update(i, true)) == count_true(s) + 1,
    decreases s.len(),
{
    let t = s.update(i, true);
    if i == s.len() - 1 {
        assert(t.drop_last() =~= s.drop_last());
    } else {
        assert(t.drop_last() =~= s.drop_last().update(i, true));
        lemma_count_mark(s.drop_last(), i);
    }
}

proof fn lemma_count_none(s: Seq<bool>)
    requires
        forall|i: int| 0 <= i < s.len() ==> !s[i],
    ensures
        count_true(s) == 0,
    decreases s.len(),
{
    if s.len() > 0 {
        lemma_count_none(s.drop_last());
    }
}

proof fn lemma_count_grows(a: Seq<bool>, b: Seq<bool>)
    requires
        a.len() == b.len(),
        forall|i: int| 0 <= i < a.len() && a[i] ==> b[i],
    ensures
        count_true(a) <= count_true(b),
    decreases a.len(),
{
    if a.len() > 0 {
        lemma_count_grows(a.drop_last(), b.drop_last());
    }
}

proof fn lemma_count_grows_strictly(a: Seq<bool>, b: Seq<bool>, s: int)
    requires
        a.len() == b.len(),
        forall|i: int| 0 <= i < a.len() && a[i] ==> b[i],
        0 <= s < a.len(),
        !a[s],
        b[s],
    ensures
        count_true(a) < count_true(b),
    decreases a.len(),
{
    if s == a.len() - 1 {
        lemma_count_grows(a.drop_last(), b.drop_last());
    } else {
        lemma_count_grows_strictly(a.drop_last(), b.drop_last(), s);
    }
}

/// Place of the cell `(x, y)` in a table of the 81 cells.
spec fn slot(x: int, y: int) -> int {
    9 * y + x
}

/// The table `f` marks the cell `(x, y)`.
spec fn seen(f: Seq<bool>, x: int, y: int) -> bool {
    f[slot(x, y)]
}

/// The list `l` holds the cell `(x, y)`.
spec fn listed(l: Seq<[usize; 2]>, x: int, y: int) -> bool {
    exists|i: int| 0 <= i < l.len() && #[trigger] l[i][0] == x && l[i][1] == y
}

/// State of the search once every cell within `k` steps of the start
/// `(sx, sy)` is marked in `f`, with those at exactly `k` steps in `front`.
spec fn layered(
    ed: Edges,
    sx: int,
    sy: int,
    g: int,
    k: nat,
    f: Seq<bool>,
    front: Seq<[usize; 2]>,
) -> bool {
    &&& f.len() == 81
    &&& on_board(sx, sy)
    &&& forall|x: int, y: int|
        on_board(x, y) ==> (#[trigger] seen(f, x, y) <==> within(ed, x, y, sx, sy, k))
    &&& forall|i: int|
        0 <= i < front.len() ==> on_board(#[trigger] front[i][0] as int, front[i][1] as int)
            && walk(ed, front[i][0] as int, front[i][1] as int, sx, sy, k) && seen(
            f,
            front[i][0] as int,
            front[i][1] as int,
        )
    &&& forall|x: int, y: int|
        on_board(x, y) && #[trigger] seen(f, x, y) && !listed(front, x, y) ==> k > 0 && within(
            ed,
            x,
            y,
            sx,
            sy,
            (k - 1) as nat,
        )
    &&& forall|x: int, y: int| on_board(x, y) && #[trigger] seen(f, x, y) ==> y != g
}

/// State of the search while the cells one step beyond layer `k` are being
/// gathered: `base` is the table at the start of the layer, `f` the table
/// now, `next` the cells found since.
spec fn growing(
    ed: Edges,
    sx: int,
    sy: int,
    g: int,
    k: nat,
    base: Seq<bool>,
    f: Seq<bool>,
    next: Seq<[usize; 2]>,
) -> bool {
    &&& f.len() == 81
    &&& base.len() == 81
    &&& forall|x: int, y: int| on_board(x, y) && #[trigger] seen(base, x, y) ==> seen(f, x, y)
    &&& forall|x: int, y: int|
        on_board(x, y) && #[trigger] seen(f, x, y) ==> within(ed, x, y, sx, sy, k + 1) && y != g
    &&& forall|i: int|
        0 <= i < next.len() ==> on_board(#[trigger] next[i][0] as int, next[i][1] as int) && walk(
            ed,
            next[i][0] as int,
            next[i][1] as int,
            sx,
            sy,
            k + 1,
        ) && seen(f, next[i][0] as int, next[i][1] as int)
    &&& forall|x: int, y: int|
        on_board(x, y) && #[trigger] seen(f, x, y) && !seen(base, x, y) ==> listed(next, x, y)
    &&& count_true(f) == count_true(base) + next.len()
}

/// Every open edge out of the first `i` cells of `front`, and every open
/// edge in a direction below `d` out of cell `i`, leads to a marked cell.
spec fn explored(
    ed: Edges,
    f: Seq<bool>,
    front: Seq<[usize; 2]>,
    i: int,
    d: int,
) -> bool {
    forall|j: int, e: int|
        #![trigger ed(front[j][0] as int, front[j][1] as int, e)]
        0 <= j < front.len() && (j < i || (j == i && e < d)) && ed(front[j][0] as int,
            front[j][1] as int,
            e,
        ) ==> seen(f, front[j][0] + dx(e), front[j][1] + dy(e))
}

/// Marking one more cell, reached over an open edge from a cell of the
/// layer, keeps the search state.
proof fn lemma_grow(
    ed: Edges,
    sx: int,
    sy: int,
    g: int,
    k: nat,
    base: Seq<bool>,
    f: Seq<bool>,
    next: Seq<[usize; 2]>,
    x: int,
    y: int,
    d: int,
    cell: [usize; 2],
)
    requires
        grid_like(ed),
        growing(ed, sx, sy, g, k, base, f, next),
        walk(ed, x, y, sx, sy, k),
        ed(x, y, d),
        cell[0] == x + dx(d),
        cell[1] == y + dy(d),
        !seen(f, x + dx(d), y + dy(d)),
        y + dy(d) != g,
    ensures
        growing(
            ed,
            sx,
            sy,
            g,
            k,
            base,
            f.update(slot(x + dx(d), y + dy(d)), true),
            next.push(cell),
        ),
{
    let nx = x + dx(d);
    let ny = y + dy(d);
    let f2 = f.update(slot(nx, ny), true);
    let next2 = next.push(cell);
    lemma_edge_symmetric(ed, x, y, d);
    lemma_walk_first(ed, nx, ny, opposite(d), sx, sy, k);
    lemma_within_from_walk(ed, nx, ny, sx, sy, k + 1, k + 1);
    lemma_count_mark(f, slot(nx, ny));
    assert forall|a: int, b: int| on_board(a, b) && #[trigger] seen(base, a, b) implies seen(
        f2,
        a,
        b,
    ) by {
        assert(seen(f, a, b));
    }
    assert forall|a: int, b: int| on_board(a, b) && #[trigger] seen(f2, a, b) implies within(
        ed,
        a,
        b,
        sx,
        sy,
        k + 1,
    ) && b != g by {
        if a == nx && b == ny {
        } else {
            assert(slot(a, b) != slot(nx, ny));
            assert(seen(f, a, b));
        }
    }
    assert forall|i: int| 0 <= i < next2.len() implies on_board(
        #[trigger] next2[i][0] as int,
        next2[i][1] as int,
    ) && walk(ed, next2[i][0] as int, next2[i][1] as int, sx, sy, k + 1) && seen(
        f2,
        next2[i][0] as int,
        next2[i][1] as int,
    ) by {
        if i < next.len() {
            assert(next2[i] == next[i]);
            assert(seen(f, next[i][0] as int, next[i][1] as int));
        } else {
            assert(next2[i] == cell);
        }
    }
    assert forall|a: int, b: int|
        on_board(a, b) && #[trigger] seen(f2, a, b) && !seen(base, a, b) implies listed(
        next2,
        a,
        b,
    ) by {
        if a == nx && b == ny {
            assert(next2[next.len() as int][0] == a && next2[next.len() as int][1] == b);
        } else {
            assert(slot(a, b) != slot(nx, ny));
            assert(seen(f, a, b));
            assert(listed(next, a, b));
            let i = choose|i: int| 0 <= i < next.len() && #[trigger] next[i][0] == a && next[i][1]
                == b;
            assert(next2[i][0] == a && next2[i][1] == b);
        }
    }
}

/// Marking cells keeps what was explored.
proof fn lemma_explored_mark(
    ed: Edges,
    f: Seq<bool>,
    front: Seq<[usize; 2]>,
    i: int,
    d: int,
    s: int,
)
    requires
        grid_like(ed),
        explored(ed, f, front, i, d),
        f.len() == 81,
        0 <= s < 81,
    ensures
        explored(ed, f.update(s, true), front, i, d),
{
    let f2 = f.update(s, true);
    assert forall|j: int, e: int|
        #![trigger ed(front[j][0] as int, front[j][1] as int, e)]
        0 <= j < front.len() && (j < i || (j == i && e < d)) && ed(front[j][0] as int,
            front[j][1] as int,
            e,
        ) implies seen(f2, front[j][0] + dx(e), front[j][1] + dy(e)) by {
        assert(seen(f, front[j][0] + dx(e), front[j][1] + dy(e)));
    }
}

/// When a layer has been explored in full, the cells gathered form the
/// next layer.
proof fn lemma_next_layer(
    ed: Edges,
    sx: int,
    sy: int,
    g: int,
    k: nat,
    base: Seq<bool>,
    front: Seq<[usize; 2]>,
    f: Seq<bool>,
    next: Seq<[usize; 2]>,
)
    requires
        grid_like(ed),
        layered(ed, sx, sy, g, k, base, front),
        growing(ed, sx, sy, g, k, base, f, next),
        explored(ed, f, front, front.len() as int, 0),
    ensures
        layered(ed, sx, sy, g, k + 1, f, next),
{
    assert forall|x: int, y: int| on_board(x, y) implies (#[trigger] seen(f, x, y) <==> within(
        ed,
        x,
        y,
        sx,
        sy,
        k + 1,
    )) by {
        if within(ed, x, y, sx, sy, k + 1) && !seen(f, x, y) {
            assert(!seen(base, x, y));
            assert(!within(ed, x, y, sx, sy, k));
            assert(walk(ed, x, y, sx, sy, k + 1));
            let d = lemma_walk_split(ed, x, y, sx, sy, k + 1);
            let px = x + dx(d);
            let py = y + dy(d);
            lemma_within_from_walk(ed, px, py, sx, sy, k, k);
            assert(seen(base, px, py));
            if listed(front, px, py) {
                let j = choose|j: int|
                    0 <= j < front.len() && #[trigger] front[j][0] == px && front[j][1] == py;
                lemma_edge_symmetric(ed, x, y, d);
                assert(ed(front[j][0] as int, front[j][1] as int, opposite(d)));
                assert(seen(f, front[j][0] + dx(opposite(d)), front[j][1] + dy(opposite(d))));
            } else {
                lemma_within_step(ed, x, y, d, sx, sy, (k - 1) as nat);
            }
        }
    }
    assert forall|x: int, y: int|
        on_board(x, y) && #[trigger] seen(f, x, y) && !listed(next, x, y) implies within(
        ed,
        x,
        y,
        sx,
        sy,
        k,
    ) by {
        assert(seen(base, x, y));
    }
}

/// No row that the marked cells avoid is reached within `k` steps.
proof fn lemma_row_not_reached(
    ed: Edges,
    sx: int,
    sy: int,
    g: int,
    k: nat,
    f: Seq<bool>,
    front: Seq<[usize; 2]>,
    m: nat,
)
    requires
        grid_like(ed),
        layered(ed, sx, sy, g, k, f, front),
        m <= k,
    ensures
        !reach_row(ed, sx, sy, g, m),
{
    if reach_row(ed, sx, sy, g, m) {
        let tx = lemma_row_walk(ed, sx, sy, g, m);
        lemma_walk_reverse(ed, sx, sy, tx, g, m);
        lemma_within_from_walk(ed, tx, g, sx, sy, m, k);
        assert(seen(f, tx, g));
    }
}

/// When a layer turns out empty, the row is cut off.
proof fn lemma_row_cut_off(
    ed: Edges,
    sx: int,
    sy: int,
    g: int,
    k: nat,
    f: Seq<bool>,
)
    requires
        grid_like(ed),
        layered(ed, sx, sy, g, k + 1, f, Seq::<[usize; 2]>::empty()),
    ensures
        cut_off(ed, sx, sy, g),
{
    let none = Seq::<[usize; 2]>::empty();
    assert forall|a: int, b: int|
        on_board(a, b) && #[trigger] within(ed, a, b, sx, sy, k + 1) implies within(
        ed,
        a,
        b,
        sx,
        sy,
        k,
    ) by {
        assert(seen(f, a, b));
        assert(!listed(none, a, b));
    }
    assert forall|n: nat| !reach_row(ed, sx, sy, g, n) by {
        if reach_row(ed, sx, sy, g, n) {
            let tx = lemma_row_walk(ed, sx, sy, g, n);
            lemma_walk_reverse(ed, sx, sy, tx, g, n);
            lemma_within_closed(ed, sx, sy, k, tx, g, n);
            lemma_within_from_walk(ed, sx, sy, sx, sy, 0, 0);
            assert(within(ed, tx, g, sx, sy, k + 1));
            assert(seen(f, tx, g));
        }
    }
}

/// The length of some walk of at most `k` steps.
proof fn lemma_within_walk(ed: Edges, x: int, y: int, tx: int, ty: int, k: nat) -> (j:
    nat)
    requires
        grid_like(ed),
        within(ed, x, y, tx, ty, k),
    ensures
        j <= k,
        walk(ed, x, y, tx, ty, j),
    decreases k,
{
    if walk(ed, x, y, tx, ty, k) {
        k
    } else {
        lemma_within_walk(ed, x, y, tx, ty, (k - 1) as nat)
    }
}

/// The table of the cells that have a walk of at most `k` steps to
/// `(tx, ty)`.
spec fn table(ed: Edges, tx: int, ty: int, k: nat) -> Seq<bool> {
    Seq::new(81, |s: int| within(ed, s % 9, s / 9, tx, ty, k))
}

/// While a row is farther than `k` steps from `(sx, sy)`, each further
/// step reaches a cell that was out of reach before: more than `k` cells
/// lie within `k` steps.
proof fn lemma_layers_grow(ed: Edges, sx: int, sy: int, g: int, d: nat, k: nat)
    requires
        grid_like(ed),
        shortest_is(ed, sx, sy, g, d),
        k <= d,
    ensures
        count_true(table(ed, sx, sy, k)) >= k + 1,
    decreases k,
{
    lemma_row_walk(ed, sx, sy, g, d);
    let t = table(ed, sx, sy, k);
    if k == 0 {
        let blank = Seq::new(81, |s: int| false);
        lemma_count_none(blank);
        assert(slot(sx, sy) % 9 == sx && slot(sx, sy) / 9 == sy);
        assert(t[slot(sx, sy)]);
        lemma_count_grows_strictly(blank, t, slot(sx, sy));
    } else {
        let j = (k - 1) as nat;
        let u = table(ed, sx, sy, j);
        lemma_layers_grow(ed, sx, sy, g, d, j);
        if forall|a: int, b: int|
            on_board(a, b) && #[trigger] within(ed, a, b, sx, sy, j + 1) ==> within(
                ed,
                a,
                b,
                sx,
                sy,
                j,
            ) {
            let tx = lemma_row_walk(ed, sx, sy, g, d);
            lemma_walk_reverse(ed, sx, sy, tx, g, d);
            lemma_within_closed(ed, sx, sy, j, tx, g, d);
            let n = lemma_within_walk(ed, tx, g, sx, sy, j);
            lemma_walk_reverse(ed, tx, g, sx, sy, n);
            lemma_walk_into_row(ed, sx, sy, tx, g, n);
            assert(false);
        } else {
            let (a, b) = choose|a: int, b: int|
                on_board(a, b) && #[trigger] within(ed, a, b, sx, sy, j + 1) && !within(
                    ed,
                    a,
                    b,
                    sx,
                    sy,
                    j,
                );
            assert(slot(a, b) % 9 == a && slot(a, b) / 9 == b);
            assert(t[slot(a, b)] && !u[slot(a, b)]);
            lemma_count_grows_strictly(u, t, slot(a, b));
        }
    }
}

/// A shortest walk into a row visits no cell twice, so it has at most 80
/// steps.
pub proof fn lemma_distance_bound(ed: Edges, x: int, y: int, row: int, d: nat)
    requires
        grid_like(ed),
        shortest_is(ed, x, y, row, d),
    ensures
        d <= 80,
{
    lemma_layers_grow(ed, x, y, row, d, d);
    lemma_count_bound(table(ed, x, y, d));
}

/// Where a row is reached at all there is a shortest walk into it.
pub proof fn lemma_shortest_exists(ed: Edges, x: int, y: int, row: int, n: nat) -> (d:
    nat)
    requires
        grid_like(ed),
        reach_row(ed, x, y, row, n),
    ensures
        shortest_is(ed, x, y, row, d),
        d <= n,
        distance(ed, x, y, row) == Some(d),
    decreases n,
{
    if exists|m: nat| m < n && reach_row(ed, x, y, row, m) {
        let m = choose|m: nat| m < n && reach_row(ed, x, y, row, m);
        lemma_shortest_exists(ed, x, y, row, m)
    } else {
        lemma_distance_some(ed, x, y, row, n);
        n
    }
}

/// The distance, where there is one, is the length of a shortest walk.
pub proof fn lemma_distance_is_shortest(ed: Edges, x: int, y: int, row: int)
    requires
        grid_like(ed),
        distance(ed, x, y, row) is Some,
    ensures
        shortest_is(ed, x, y, row, distance(ed, x, y, row).unwrap()),
        distance(ed, x, y, row).unwrap() <= 80,
{
    let d = choose|d: nat| shortest_is(ed, x, y, row, d);
    lemma_distance_bound(ed, x, y, row, d);
}


/// A column whose edges are open for `n` steps up from `(x, y)` is a walk
/// of `n` steps into the row `y + n`.
pub proof fn lemma_climb(ed: Edges, x: int, y: int, n: nat)
    requires
        grid_like(ed),
        on_board(x, y),
        forall|j: int| 0 <= j < n ==> #[trigger] ed(x, y + j, 1),
    ensures
        reach_row(ed, x, y, y + n, n),
    decreases n,
{
    if n > 0 {
        assert(ed(x, y + 0, 1));
        assert forall|j: int| 0 <= j < n - 1 implies #[trigger] ed(x, y + 1 + j, 1) by {
            assert(ed(x, y + (j + 1), 1));
        }
        lemma_climb(ed, x, y + 1, (n - 1) as nat);
    }
}

/// A column whose edges are open for `n` steps down from `(x, y)` is a
/// walk of `n` steps into the row `y - n`.
pub proof fn lemma_descend(ed: Edges, x: int, y: int, n: nat)
    requires
        grid_like(ed),
        on_board(x, y),
        forall|j: int| 0 <= j < n ==> #[trigger] ed(x, y - j, 3),
    ensures
        reach_row(ed, x, y, y - n, n),
    decreases n,
{
    if n > 0 {
        assert(ed(x, y - 0, 3));
        assert forall|j: int| 0 <= j < n - 1 implies #[trigger] ed(x, y - 1 - j, 3) by {
            assert(ed(x, y - (j + 1), 3));
        }
        lemma_descend(ed, x, y - 1, (n - 1) as nat);
    }
}

/// A grid whose open edges can be asked for one at a time.
pub trait Grid {
    /// The open edges of the grid.
    spec fn edges(&self) -> Edges;

    /// The grid is fit to be searched.
    spec fn grid_ok(&self) -> bool;

    /// The edges of a grid that is fit stay on the grid and can be taken
    /// both ways.
    proof fn lemma_grid(&self)
        requires
            self.grid_ok(),
        ensures
            grid_like(self.edges()),
    ;

    /// Tells whether the step from `cell` in direction `dir` is open.
    fn open_edge(&self, cell: [usize; 2], dir: usize) -> (r: bool)
        requires
            self.grid_ok(),
            on_board(cell[0] as int, cell[1] as int),
            is_dir(dir as int),
        ensures
            r == self.edges()(cell[0] as int, cell[1] as int, dir as int),
    ;
}

/// Length of a shortest walk over open edges from the cell `(x, y)` into
/// the row `g`, found breadth first: layer by layer, each cell marked when
/// it is first reached; `None` where no walk leads there.
pub fn shortest_walk<G: Grid>(grid: &G, x: usize, y: usize, g: usize) -> (r: Option<usize>)
    requires
        grid.grid_ok(),
        on_board(x as int, y as int),
    ensures
        match r {
            Some(d) => shortest_is(grid.edges(), x as int, y as int, g as int, d as nat) && d
                <= 80,
            None => cut_off(grid.edges(), x as int, y as int, g as int),
        },
{
    let ghost ed = grid.edges();
    let ghost sx = x as int;
    let ghost sy = y as int;
    proof {
        grid.lemma_grid();
    }
    if y == g {
        return Some(0);
    }
    let mut front: Vec<[usize; 2]> = Vec::new();
    front.push([x, y]);
    let mut found: Vec<bool> = vec![false; 81];
    let ghost blank = found@;
    proof {
        lemma_count_none(blank);
    }
    found[9 * y + x] = true;
    let mut steps: usize = 0;
    let mut marked: usize = 1;
    proof {
        lemma_count_mark(blank, slot(sx, sy));
        assert(front@[0][0] == sx && front@[0][1] == sy);
        assert forall|a: int, b: int| on_board(a, b) implies (#[trigger] seen(found@, a, b)
            <==> within(ed, a, b, sx, sy, 0)) by {
            if a == sx && b == sy {
            } else {
                assert(slot(a, b) != slot(sx, sy));
            }
        }
        assert forall|a: int, b: int|
            on_board(a, b) && #[trigger] seen(found@, a, b) implies listed(front@, a, b) by {
            if a == sx && b == sy {
            } else {
                assert(slot(a, b) != slot(sx, sy));
            }
        }
    }
    loop
        invariant
            grid.grid_ok(),
            grid_like(ed),
            ed == grid.edges(),
            sx == x,
            sy == y,
            layered(ed, sx, sy, g as int, steps as nat, found@, front@),
            count_true(found@) == marked,
            steps < marked,
            front.len() > 0,
        decreases 81 - marked,
    {
        proof {
            lemma_count_bound(found@);
        }
        let mut new_front: Vec<[usize; 2]> = Vec::new();
        let ghost base = found@;
        let mut i: usize = 0;
        proof {
            assert forall|a: int, b: int|
                on_board(a, b) && #[trigger] seen(found@, a, b) implies within(
                ed,
                a,
                b,
                sx,
                sy,
                steps as nat + 1,
            ) by {
                assert(within(ed, a, b, sx, sy, steps as nat));
            }
        }
        while i < front.len()
            invariant
                grid.grid_ok(),
                grid_like(ed),
                ed == grid.edges(),
                sx == x,
                sy == y,
                0 <= i <= front.len(),
                steps < marked,
                steps < 81,
                layered(ed, sx, sy, g as int, steps as nat, base, front@),
                growing(ed, sx, sy, g as int, steps as nat, base, found@, new_front@),
                explored(ed, found@, front@, i as int, 0),
                count_true(base) == marked,
            decreases front.len() - i,
        {
            let cx = front[i][0];
            let cy = front[i][1];
            let mut dir: usize = 1;
            while dir <= 4
                invariant
                    grid.grid_ok(),
                    grid_like(ed),
                    ed == grid.edges(),
                    sx == x,
                    sy == y,
                    0 <= i < front.len(),
                    1 <= dir <= 5,
                    steps < marked,
                    steps < 81,
                    cx == front@[i as int][0],
                    cy == front@[i as int][1],
                    layered(ed, sx, sy, g as int, steps as nat, base, front@),
                    growing(ed, sx, sy, g as int, steps as nat, base, found@, new_front@),
                    explored(ed, found@, front@, i as int, dir as int),
                    count_true(base) == marked,
                decreases 5 - dir,
            {
                if grid.open_edge([cx, cy], dir) {
                    let nx: usize = if dir == 2 {
                        cx + 1
                    } else if dir == 4 {
                        cx - 1
                    } else {
                        cx
                    };
                    let ny: usize = if dir == 1 {
                        cy + 1
                    } else if dir == 3 {
                        cy - 1
                    } else {
                        cy
                    };
                    if !found[9 * ny + nx] {
                        if ny == g {
                            proof {
                                let k = steps as nat;
                                lemma_edge_symmetric(ed, cx as int, cy as int, dir as int);
                                lemma_walk_first(
                                    ed,
                                    nx as int,
                                    ny as int,
                                    opposite(dir as int),
                                    sx,
                                    sy,
                                    k,
                                );
                                lemma_walk_reverse(ed, nx as int, ny as int, sx, sy, k + 1);
                                lemma_walk_into_row(ed, sx, sy, nx as int, g as int, k + 1);
                                assert forall|m: nat| m < k + 1 implies !reach_row(
                                    ed,
                                    sx,
                                    sy,
                                    g as int,
                                    m,
                                ) by {
                                    lemma_row_not_reached(
                                        ed,
                                        sx,
                                        sy,
                                        g as int,
                                        k,
                                        base,
                                        front@,
                                        m,
                                    );
                                }
                                lemma_count_gap(found@, slot(nx as int, ny as int));
                            }
                            return Some(steps + 1);
                        }
                        proof {
                            lemma_grow(
                                ed,
                                sx,
                                sy,
                                g as int,
                                steps as nat,
                                base,
                                found@,
                                new_front@,
                                cx as int,
                                cy as int,
                                dir as int,
                                [nx, ny],
                            );
                            lemma_explored_mark(
                                ed,
                                found@,
                                front@,
                                i as int,
                                dir as int,
                                slot(nx as int, ny as int),
                            );
                        }
                        found[9 * ny + nx] = true;
                        new_front.push([nx, ny]);
                    }
                }
                dir += 1;
            }
            i += 1;
        }
        proof {
            lemma_next_layer(
                ed,
                sx,
                sy,
                g as int,
                steps as nat,
                base,
                front@,
                found@,
                new_front@,
            );
            lemma_count_bound(found@);
        }
        steps += 1;
        marked = marked + new_front.len();
        front = new_front;
        if front.len() == 0 {
            proof {
                assert(front@ =~= Seq::<[usize; 2]>::empty());
                lemma_row_cut_off(ed, sx, sy, g as int, (steps - 1) as nat, found@);
            }
            return None;
        }
    }
}

} // verus!
