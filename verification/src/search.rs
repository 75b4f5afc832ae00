//! Shortest-path search over the grid's 4-connected graph.
//!
//! `Grid::path_to` runs a best-first search (A* with an admissible integer
//! heuristic over unit edge costs) from a start cell to a goal cell. Its
//! contract is exact in both directions: it returns a path exactly when the
//! goal is reachable from the start through free cells, and any returned
//! path is a valid 4-connected walk over free cells from the start to the
//! goal.

use vstd::prelude::*;

use crate::geom::{abs_i, manhattan, Vec2i};
use crate::grid::Grid;

verus! {

broadcast use vstd::seq_lib::lemma_seq_contains_after_push;

/// A computed sequence of grid cells from a start cell to a goal cell.
pub struct Path {
    pub steps: Vec<Vec2i>,
}

/// No path connects the requested start and goal. Recoverable: the caller
/// simply has no plan this tick.
#[derive(Debug)]
pub struct PathfindingError;

/// One unit move along exactly one axis.
pub open spec fn step_ok(a: Vec2i, b: Vec2i) -> bool {
    ||| (a.x == b.x && abs_i(a.y - b.y) == 1)
    ||| (a.y == b.y && abs_i(a.x - b.x) == 1)
}

/// `c` lies inside a square cell field of side `cells.len()`.
pub open spec fn cell_in_bounds(cells: Seq<Seq<bool>>, c: Vec2i) -> bool {
    0 <= c.x < cells.len() && 0 <= c.y < cells.len()
}

/// `c` is in bounds and does not block movement.
pub open spec fn free_cell(cells: Seq<Seq<bool>>, c: Vec2i) -> bool {
    cell_in_bounds(cells, c) && !cells[c.y as int][c.x as int]
}

/// A walk over free cells that starts at `start` and moves one axis-unit at
/// a time; the endpoint is unconstrained.
pub open spec fn partial_path(cells: Seq<Seq<bool>>, s: Seq<Vec2i>, start: Vec2i) -> bool {
    &&& s.len() >= 1
    &&& s[0] == start
    &&& forall|i: int| 0 <= i < s.len() ==> free_cell(cells, #[trigger] s[i])
    &&& forall|i: int| 0 <= i < s.len() - 1 ==> step_ok(#[trigger] s[i], s[i + 1])
}

/// A valid path: a free-cell walk from `start` that ends at `goal`.
pub open spec fn path_ok(cells: Seq<Seq<bool>>, s: Seq<Vec2i>, start: Vec2i, goal: Vec2i) -> bool {
    partial_path(cells, s, start) && s[s.len() - 1] == goal
}

/// Some valid path connects `start` to `goal`.
pub open spec fn reachable(cells: Seq<Seq<bool>>, start: Vec2i, goal: Vec2i) -> bool {
    exists|s: Seq<Vec2i>| path_ok(cells, s, start, goal)
}

/// Any 4-connected walk needs at least the Manhattan distance in moves:
/// a path of `k + 1` cells makes `k` unit moves, and each move changes the
/// Manhattan distance to the goal by at most one.
pub proof fn lemma_path_min_len(cells: Seq<Seq<bool>>, s: Seq<Vec2i>, start: Vec2i, goal: Vec2i)
    requires
        path_ok(cells, s, start, goal),
    ensures
        s.len() - 1 >= manhattan(start, goal),
    decreases s.len(),
{
    if s.len() == 1 {
        assert(start == goal);
    } else {
        let t = s.subrange(1, s.len() as int);
        assert(forall|i: int| 0 <= i < t.len() ==> t[i] == s[i + 1]);
        assert(path_ok(cells, t, s[1], goal));
        lemma_path_min_len(cells, t, s[1], goal);
        assert(step_ok(s[0], s[1]));
        assert(manhattan(start, goal) <= manhattan(s[1], goal) + 1);
    }
}

/// The free in-bounds cells one axis-unit away from `location`, exactly the
/// valid successors of a search node.
pub fn neuman_neighbours(grid: &Grid, location: &Vec2i) -> (r: Vec<Vec2i>)
    requires
        grid.wf(),
        grid.in_bounds(*location),
    ensures
        forall|i: int|
            0 <= i < r@.len() ==> free_cell(grid.gview(), #[trigger] r@[i]) && step_ok(*location,
            r@[i]),
        forall|c: Vec2i|
            free_cell(grid.gview(), c) && step_ok(*location, c) ==> r@.contains(c),
{
    let x = location.x;
    let y = location.y;
    let n = self_size(grid);
    let mut sucessors: Vec<Vec2i> = Vec::new();
    if x > 0 {
        let left = Vec2i { x: x - 1, y };
        if !grid.occupied(&left) {
            sucessors.push(left);
        }
    }
    if y > 0 {
        let down = Vec2i { x, y: y - 1 };
        if !grid.occupied(&down) {
            sucessors.push(down);
        }
    }
    if x + 1 < n {
        let right = Vec2i { x: x + 1, y };
        if !grid.occupied(&right) {
            sucessors.push(right);
        }
    }
    if y + 1 < n {
        let up = Vec2i { x, y: y + 1 };
        if !grid.occupied(&up) {
            sucessors.push(up);
        }
    }
    proof {
        assert forall|c: Vec2i|
            free_cell(grid.gview(), c) && step_ok(*location, c) implies sucessors@.contains(c) by {
            if c.y == location.y as int && c.x == location.x - 1 {
                assert(sucessors@.contains(c));
            } else if c.y == location.y - 1 && c.x == location.x as int {
                assert(sucessors@.contains(c));
            } else if c.y == location.y as int && c.x == location.x + 1 {
                assert(sucessors@.contains(c));
            } else {
                assert(c.y == location.y + 1 && c.x == location.x as int);
                assert(sucessors@.contains(c));
            }
        }
    }
    sucessors
}

/// The grid side as an `i32`; well-formed grids are at most 4096 cells wide.
fn self_size(grid: &Grid) -> (n: i32)
    requires
        grid.wf(),
    ensures
        n == grid.size(),
{
    grid.points.len() as i32
}

/// How many entries of a visited bitmap are set; drives the search's
/// termination measure.
spec fn cnt(s: Seq<bool>) -> int
    decreases s.len(),
{
    if s.len() == 0 {
        0
    } else {
        cnt(s.drop_last()) + if s[s.len() - 1] {
            1int
        } else {
            0int
        }
    }
}

proof fn lemma_cnt_bounds(s: Seq<bool>)
    ensures
        0 <= cnt(s) <= s.len(),
    decreases s.len(),
{
    if s.len() > 0 {
        lemma_cnt_bounds(s.drop_last());
    }
}

proof fn lemma_cnt_update(s: Seq<bool>, i: int)
    requires
        0 <= i < s.len(),
        !s[i],
    ensures
        cnt(s.update(i, true)) == cnt(s) + 1,
    decreases s.len(),
{
    let t = s.update(i, true);
    if i == s.len() - 1 {
        assert(t.drop_last() =~= s.drop_last());
    } else {
        assert(t.drop_last() =~= s.drop_last().update(i, true));
        lemma_cnt_update(s.drop_last(), i);
        assert(t[t.len() - 1] == s[s.len() - 1]);
    }
}

/// Whether the visited bitmap `v`, for a grid of side `n`, marks cell `c`.
spec fn vis(v: Seq<bool>, n: int, c: Vec2i) -> bool {
    v[c.y * n + c.x]
}

/// Row-major cell indexing is injective and in range on an `n * n` bitmap.
proof fn lemma_cell_index(n: int, a: Vec2i, b: Vec2i)
    requires
        0 <= a.x < n,
        0 <= a.y < n,
        0 <= b.x < n,
        0 <= b.y < n,
    ensures
        0 <= a.y * n + a.x < n * n,
        a.y * n + a.x == b.y * n + b.x ==> a == b,
{
    assert(0 <= a.y * n + a.x < n * n) by (nonlinear_arith)
        requires
            0 <= a.x < n,
            0 <= a.y < n,
    ;
    if a.y * n + a.x == b.y * n + b.x {
        assert(a.y == b.y && a.x == b.x) by (nonlinear_arith)
            requires
                a.y * n + a.x == b.y * n + b.x,
                0 <= a.x < n,
                0 <= a.y < n,
                0 <= b.x < n,
                0 <= b.y < n,
        ;
    }
}

/// Marking one cell changes the bitmap at that cell alone.
proof fn lemma_vis_after_mark(v: Seq<bool>, n: int, c: Vec2i)
    requires
        0 <= c.x < n,
        0 <= c.y < n,
        v.len() == n * n,
    ensures
        vis(v.update(c.y * n + c.x, true), n, c),
        forall|d: Vec2i|
            #![trigger vis(v.update(c.y * n + c.x, true), n, d)]
            0 <= d.x < n && 0 <= d.y < n && d != c ==> vis(v.update(c.y * n + c.x, true), n, d)
                == vis(v, n, d),
{
    lemma_cell_index(n, c, c);
    assert forall|d: Vec2i|
        0 <= d.x < n && 0 <= d.y < n && d != c implies vis(
        v.update(c.y * n + c.x, true),
        n,
        d,
    ) == vis(v, n, d) by {
        lemma_cell_index(n, c, d);
        lemma_cell_index(n, d, c);
    }
}

/// Row-major index of cell `c` in a grid of side `n`.
fn cell_index(n: usize, c: &Vec2i) -> (id: usize)
    requires
        n <= 4096,
        0 <= c.x < n,
        0 <= c.y < n,
    ensures
        id == c.y * (n as int) + c.x,
        id < n * n,
{
    proof {
        lemma_cell_index(n as int, *c, *c);
        assert((n as int) * (n as int) <= 4096 * 4096) by (nonlinear_arith)
            requires
                0 <= n as int <= 4096,
        ;
    }
    (c.y as usize) * n + (c.x as usize)
}

/// An entry of the search frontier: a cell, the free-cell walk that led to
/// it, and the entry's priority (walk length plus heuristic).
struct SearchNode {
    cell: Vec2i,
    steps: Vec<Vec2i>,
    cost: usize,
}

/// A frontier entry is internally consistent: its walk starts at the search
/// start and ends at its cell.
spec fn node_ok(cells: Seq<Seq<bool>>, start: Vec2i, node: SearchNode) -> bool {
    &&& partial_path(cells, node.steps@, start)
    &&& node.steps@[node.steps@.len() - 1] == node.cell
}

/// `c` is the cell of some frontier entry.
spec fn in_open(open: Seq<SearchNode>, c: Vec2i) -> bool {
    exists|i: int| 0 <= i < open.len() && open[i].cell == c
}

/// Away from the frontier, the visited region is closed under single free
/// steps: every visited cell not currently in `open` has all its free
/// neighbours visited too.
spec fn frontier_closed(cells: Seq<Seq<bool>>, v: Seq<bool>, n: int, open: Seq<SearchNode>) -> bool {
    forall|c: Vec2i, d: Vec2i|
        #![trigger vis(v, n, c), step_ok(c, d)]
        free_cell(cells, c) && vis(v, n, c) && !in_open(open, c) && free_cell(cells, d) && step_ok(
            c,
            d,
        ) ==> vis(v, n, d)
}

/// With an empty frontier, the visited region is closed under free steps,
/// so it covers the endpoint of every free-cell walk out of `start`.
proof fn lemma_closed_covers(cells: Seq<Seq<bool>>, v: Seq<bool>, s: Seq<Vec2i>, start: Vec2i)
    requires
        partial_path(cells, s, start),
        v.len() == cells.len() * cells.len(),
        vis(v, cells.len() as int, start),
        frontier_closed(cells, v, cells.len() as int, Seq::<SearchNode>::empty()),
    ensures
        vis(v, cells.len() as int, s[s.len() - 1]),
    decreases s.len(),
{
    let n = cells.len() as int;
    if s.len() > 1 {
        let t = s.drop_last();
        assert(forall|i: int| 0 <= i < t.len() ==> t[i] == s[i]);
        assert(partial_path(cells, t, start));
        lemma_closed_covers(cells, v, t, start);
        let a = s[s.len() - 2];
        let b = s[s.len() - 1];
        assert(vis(v, n, a));
        assert(step_ok(a, b));
        assert(!in_open(Seq::<SearchNode>::empty(), a));
        assert(vis(v, n, b));
    }
}

/// A frontier cell other than the one removed by `swap_remove` is still a
/// frontier cell after the removal and any number of later pushes.
proof fn lemma_open_survives(
    open_pre: Seq<SearchNode>,
    open1: Seq<SearchNode>,
    open2: Seq<SearchNode>,
    best: int,
    c: Vec2i,
)
    requires
        0 <= best < open_pre.len(),
        open1 == open_pre.update(best, open_pre.last()).drop_last(),
        open1.len() <= open2.len(),
        forall|j: int| 0 <= j < open1.len() ==> open2[j] == #[trigger] open1[j],
        in_open(open_pre, c),
        open_pre[best].cell != c,
    ensures
        in_open(open2, c),
{
    let jj = choose|jj: int| 0 <= jj < open_pre.len() && open_pre[jj].cell == c;
    if jj < open_pre.len() - 1 {
        assert(open1[jj].cell == c);
        assert(open2[jj] == open1[jj]);
    } else {
        assert(open1[best].cell == c);
        assert(open2[best] == open1[best]);
    }
}

/// Expanding one frontier node keeps the visited region closed away from
/// the frontier: the expanded cell's free neighbours are all visited now,
/// every other off-frontier visited cell was already closed before.
proof fn lemma_expand_preserves_closed(
    cells: Seq<Seq<bool>>,
    v1: Seq<bool>,
    v2: Seq<bool>,
    n: int,
    open_pre: Seq<SearchNode>,
    open1: Seq<SearchNode>,
    open2: Seq<SearchNode>,
    best: int,
    node_cell: Vec2i,
)
    requires
        0 <= best < open_pre.len(),
        open_pre[best].cell == node_cell,
        open1 == open_pre.update(best, open_pre.last()).drop_last(),
        open1.len() <= open2.len(),
        forall|j: int| 0 <= j < open1.len() ==> open2[j] == #[trigger] open1[j],
        frontier_closed(cells, v1, n, open_pre),
        forall|c: Vec2i|
            #![trigger vis(v1, n, c)]
            cell_in_bounds(cells, c) && vis(v1, n, c) ==> vis(v2, n, c),
        forall|c: Vec2i|
            #![trigger vis(v2, n, c)]
            cell_in_bounds(cells, c) && vis(v2, n, c) ==> vis(v1, n, c) || in_open(open2, c),
        forall|d: Vec2i|
            #![trigger step_ok(node_cell, d)]
            free_cell(cells, d) && step_ok(node_cell, d) ==> vis(v2, n, d),
    ensures
        frontier_closed(cells, v2, n, open2),
{
    assert forall|c: Vec2i, d: Vec2i|
        #![trigger vis(v2, n, c), step_ok(c, d)]
        free_cell(cells, c) && vis(v2, n, c) && !in_open(open2, c) && free_cell(cells, d)
            && step_ok(c, d) implies vis(v2, n, d) by {
        if c == node_cell {
            assert(vis(v2, n, d));
        } else {
            assert(vis(v1, n, c)) by {
                if !vis(v1, n, c) {
                    assert(in_open(open2, c));
                }
            }
            assert(!in_open(open_pre, c)) by {
                if in_open(open_pre, c) {
                    lemma_open_survives(open_pre, open1, open2, best, c);
                }
            }
            assert(vis(v1, n, d));
            assert(vis(v2, n, d));
        }
    }
}

/// If the goal was on the frontier before a non-goal node was expanded, it
/// is on the frontier afterwards, and a goal visited during the expansion
/// was pushed onto the frontier.
proof fn lemma_goal_stays_open(
    cells: Seq<Seq<bool>>,
    v1: Seq<bool>,
    v2: Seq<bool>,
    n: int,
    open_pre: Seq<SearchNode>,
    open1: Seq<SearchNode>,
    open2: Seq<SearchNode>,
    best: int,
    node_cell: Vec2i,
    cg: Vec2i,
)
    requires
        0 <= best < open_pre.len(),
        open_pre[best].cell == node_cell,
        open1 == open_pre.update(best, open_pre.last()).drop_last(),
        open1.len() <= open2.len(),
        forall|j: int| 0 <= j < open1.len() ==> open2[j] == #[trigger] open1[j],
        node_cell != cg,
        cell_in_bounds(cells, cg),
        vis(v1, n, cg) ==> in_open(open_pre, cg),
        forall|c: Vec2i|
            #![trigger vis(v2, n, c)]
            cell_in_bounds(cells, c) && vis(v2, n, c) ==> vis(v1, n, c) || in_open(open2, c),
    ensures
        vis(v2, n, cg) ==> in_open(open2, cg),
{
    if vis(v2, n, cg) && vis(v1, n, cg) {
        lemma_open_survives(open_pre, open1, open2, best, cg);
    }
}

/// A search that has emptied its frontier without visiting the goal has
/// proved the goal unreachable.
proof fn lemma_no_path(cells: Seq<Seq<bool>>, v: Seq<bool>, cs: Vec2i, cg: Vec2i)
    requires
        v.len() == cells.len() * cells.len(),
        frontier_closed(cells, v, cells.len() as int, Seq::<SearchNode>::empty()),
        vis(v, cells.len() as int, cs),
        !vis(v, cells.len() as int, cg),
    ensures
        !reachable(cells, cs, cg),
{
    assert forall|s: Seq<Vec2i>| !path_ok(cells, s, cs, cg) by {
        if path_ok(cells, s, cs, cg) {
            lemma_closed_covers(cells, v, s, cs);
        }
    }
}

/// The state just after seeding the search: only the free start cell is
/// visited, and it is the one frontier entry.
proof fn lemma_initial_state(
    cells: Seq<Seq<bool>>,
    v0: Seq<bool>,
    v: Seq<bool>,
    n: int,
    open: Seq<SearchNode>,
    cs: Vec2i,
    cg: Vec2i,
)
    requires
        n == cells.len(),
        v0.len() == n * n,
        forall|i: int| 0 <= i < v0.len() ==> !(#[trigger] v0[i]),
        cell_in_bounds(cells, cs),
        cell_in_bounds(cells, cg),
        free_cell(cells, cs),
        v == v0.update(cs.y * n + cs.x, true),
        open.len() == 1,
        open[0].cell == cs,
    ensures
        vis(v, n, cs),
        forall|c: Vec2i|
            #![trigger vis(v, n, c)]
            cell_in_bounds(cells, c) && vis(v, n, c) ==> free_cell(cells, c),
        frontier_closed(cells, v, n, open),
        vis(v, n, cg) ==> in_open(open, cg),
{
    lemma_vis_after_mark(v0, n, cs);
    assert forall|c: Vec2i|
        cell_in_bounds(cells, c) && vis(v, n, c) implies c == cs by {
        if c != cs {
            lemma_cell_index(n, c, c);
            assert(vis(v, n, c) == vis(v0, n, c));
            assert(!v0[c.y * n + c.x]);
        }
    }
    assert(in_open(open, cs));
    assert forall|c: Vec2i, d: Vec2i|
        #![trigger vis(v, n, c), step_ok(c, d)]
        free_cell(cells, c) && vis(v, n, c) && !in_open(open, c) && free_cell(cells, d) && step_ok(
            c,
            d,
        ) implies vis(v, n, d) by {
        assert(c == cs);
    }
}

/// An admissible remaining-steps estimate: Manhattan distance over unit
/// edge costs, scaled down by a constant knob so the search prefers nodes
/// close to the goal without over-committing to the estimate.
fn heuristic(a: &Vec2i, b: &Vec2i) -> (h: usize)
    requires
        0 <= a.x < 4096,
        0 <= a.y < 4096,
        0 <= b.x < 4096,
        0 <= b.y < 4096,
    ensures
        h == manhattan(*a, *b) / 3,
{
    let dx = if a.x >= b.x {
        a.x - b.x
    } else {
        b.x - a.x
    };
    let dy = if a.y >= b.y {
        a.y - b.y
    } else {
        b.y - a.y
    };
    ((dx + dy) / 3) as usize
}

impl Grid {
    /// Best-first search for a 4-connected path of free cells from `start`
    /// to `end` (both clamped into the grid). Returns a path exactly when
    /// one exists; a start or goal cell that is occupied, or a goal walled
    /// off from the start, yields `PathfindingError`.
    #[verifier::rlimit(100)]
    pub fn path_to(&self, start: &Vec2i, end: &Vec2i) -> (r: Result<Path, PathfindingError>)
        requires
            self.wf(),
        ensures
            (match r {
                Ok(p) => path_ok(self.gview(), p.steps@, self.clamp_cell_spec(*start),
                self.clamp_cell_spec(*end)),
                Err(e) => true,
            }),
            r is Ok <==> reachable(self.gview(), self.clamp_cell_spec(*start),
            self.clamp_cell_spec(*end)),
    {
        let cs = self.clamp_cell(start);
        let cg = self.clamp_cell(end);
        let ghost cells = self.gview();
        if self.occupied(&cs) || self.occupied(&cg) {
            proof {
                assert(self.clamp_cell_spec(cs) == cs && self.clamp_cell_spec(cg) == cg);
                assert forall|s: Seq<Vec2i>| !path_ok(cells, s, cs, cg) by {
                    if path_ok(cells, s, cs, cg) {
                        assert(free_cell(cells, s[0]));
                        assert(free_cell(cells, s[s.len() - 1]));
                    }
                }
            }
            return Err(PathfindingError);
        }
        let n = self.points.len();
        let ghost nI = n as int;
        proof {
            assert(self.clamp_cell_spec(cs) == cs && self.clamp_cell_spec(cg) == cg);
            assert(free_cell(cells, cs) && free_cell(cells, cg));
            assert(nI * nI <= 4096 * 4096) by (nonlinear_arith)
                requires
                    0 <= nI <= 4096,
            ;
        }
        let n2 = n * n;
        let mut visited: Vec<bool> = Vec::new();
        while visited.len() < n2
            invariant
                visited@.len() <= n2,
                forall|i: int| 0 <= i < visited@.len() ==> !(#[trigger] visited@[i]),
            decreases n2 - visited.len(),
        {
            visited.push(false);
        }
        proof {
            lemma_cnt_bounds(visited@);
        }
        let ci = cell_index(n, &cs);
        let ghost v0 = visited@;
        visited[ci] = true;
        proof {
            lemma_cnt_update(v0, ci as int);
            lemma_cnt_bounds(visited@);
            lemma_vis_after_mark(v0, nI, cs);
        }
        let mut first_steps: Vec<Vec2i> = Vec::new();
        first_steps.push(cs);
        let h0 = heuristic(&cs, &cg);
        let mut open: Vec<SearchNode> = Vec::new();
        open.push(SearchNode { cell: cs, steps: first_steps, cost: h0 });
        proof {
            assert(node_ok(cells, cs, open@[0]));
            lemma_initial_state(cells, v0, visited@, nI, open@, cs, cg);
        }
        while open.len() > 0
            invariant
                self.wf(),
                cells == self.gview(),
                nI == self.size(),
                n as int == nI,
                n2 == nI * nI,
                n <= 4096,
                free_cell(cells, cs),
                free_cell(cells, cg),
                cs == self.clamp_cell_spec(*start),
                cg == self.clamp_cell_spec(*end),
                visited@.len() == n2,
                0 <= cnt(visited@) <= n2,
                forall|i: int| 0 <= i < open@.len() ==> node_ok(cells, cs, #[trigger] open@[i]),
                forall|i: int|
                    0 <= i < open@.len() ==> vis(visited@, nI, (#[trigger] open@[i]).cell),
                vis(visited@, nI, cs),
                forall|c: Vec2i|
                    #![trigger vis(visited@, nI, c)]
                    cell_in_bounds(cells, c) && vis(visited@, nI, c) ==> free_cell(cells, c),
                frontier_closed(cells, visited@, nI, open@),
                vis(visited@, nI, cg) ==> in_open(open@, cg),
            decreases n2 - cnt(visited@), open@.len(),
        {
            let mut best: usize = 0;
            let mut i: usize = 1;
            while i < open.len()
                invariant
                    open@.len() > 0,
                    best < open@.len(),
                    i <= open@.len(),
                decreases open@.len() - i,
            {
                if open[i].cost < open[best].cost {
                    best = i;
                }
                i = i + 1;
            }
            let ghost open_pre = open@;
            let node = open.swap_remove(best);
            let ghost open1 = open@;
            proof {
                assert(node_ok(cells, cs, node));
                assert(forall|j: int|
                    0 <= j < open1.len() ==> node_ok(cells, cs, #[trigger] open1[j]) && vis(
                        visited@,
                        nI,
                        open1[j].cell,
                    ));
            }
            if node.cell == cg {
                proof {
                    assert(path_ok(cells, node.steps@, cs, cg));
                    assert(reachable(cells, cs, cg));
                }
                return Ok(Path { steps: node.steps });
            }
            let neigh = neuman_neighbours(self, &node.cell);
            let ghost vis1 = visited@;
            let mut k: usize = 0;
            while k < neigh.len()
                invariant
                    self.wf(),
                    cells == self.gview(),
                    nI == self.size(),
                    n as int == nI,
                    n2 == nI * nI,
                    n <= 4096,
                    free_cell(cells, cs),
                    free_cell(cells, cg),
                    node_ok(cells, cs, node),
                    node.cell != cg,
                    visited@.len() == n2,
                    0 <= cnt(visited@) <= n2,
                    k <= neigh@.len(),
                    forall|j: int|
                        0 <= j < neigh@.len() ==> free_cell(cells, #[trigger] neigh@[j]) && step_ok(
                            node.cell,
                            neigh@[j],
                        ),
                    forall|j: int| 0 <= j < k ==> vis(visited@, nI, #[trigger] neigh@[j]),
                    forall|c: Vec2i|
                        #![trigger vis(vis1, nI, c)]
                        cell_in_bounds(cells, c) && vis(vis1, nI, c) ==> vis(visited@, nI, c),
                    forall|c: Vec2i|
                        #![trigger vis(visited@, nI, c)]
                        cell_in_bounds(cells, c) && vis(visited@, nI, c) ==> vis(vis1, nI, c)
                            || in_open(open@, c),
                    forall|c: Vec2i|
                        #![trigger vis(visited@, nI, c)]
                        cell_in_bounds(cells, c) && vis(visited@, nI, c) ==> free_cell(cells, c),
                    open1.len() <= open@.len(),
                    forall|j: int| 0 <= j < open1.len() ==> open@[j] == #[trigger] open1[j],
                    forall|j: int| 0 <= j < open@.len() ==> node_ok(cells, cs, #[trigger] open@[j]),
                    forall|j: int|
                        0 <= j < open@.len() ==> vis(visited@, nI, (#[trigger] open@[j]).cell),
                    cnt(visited@) - cnt(vis1) == open@.len() - open1.len(),
                    vis(visited@, nI, cs),
                decreases neigh@.len() - k,
            {
                let c = neigh[k];
                let id = cell_index(n, &c);
                if !visited[id] {
                    let ghost vbefore = visited@;
                    let ghost openb = open@;
                    visited[id] = true;
                    proof {
                        lemma_cnt_update(vbefore, id as int);
                        lemma_cnt_bounds(visited@);
                        lemma_vis_after_mark(vbefore, nI, c);
                    }
                    let mut st = node.steps.clone();
                    proof {
                        assert(st@ =~= node.steps@);
                    }
                    let hc = heuristic(&c, &cg);
                    st.push(c);
                    let cost = if st.len() < usize::MAX - hc {
                        st.len() + hc
                    } else {
                        usize::MAX
                    };
                    let ghost stview = st@;
                    open.push(SearchNode { cell: c, steps: st, cost });
                    proof {
                        let new_node = open@[open@.len() - 1];
                        assert(new_node.cell == c && new_node.steps@ == stview);
                        assert(stview == node.steps@.push(c));
                        assert(stview[0] == node.steps@[0]);
                        assert(forall|j: int|
                            0 <= j < stview.len() - 1 ==> stview[j] == node.steps@[j]);
                        assert(stview[stview.len() - 2] == node.cell);
                        assert(node_ok(cells, cs, new_node));
                        assert(in_open(open@, c));
                        assert forall|d: Vec2i|
                            #![trigger vis(visited@, nI, d)]
                            cell_in_bounds(cells, d) && vis(visited@, nI, d) implies vis(
                            vis1,
                            nI,
                            d,
                        ) || in_open(open@, d) by {
                            if d != c {
                                assert(vis(vbefore, nI, d));
                                if !vis(vis1, nI, d) {
                                    assert(in_open(openb, d));
                                    let j = choose|j: int|
                                        0 <= j < openb.len() && openb[j].cell == d;
                                    assert(open@[j] == openb[j]);
                                    assert(in_open(open@, d));
                                }
                            }
                        }
                    }
                }
                k = k + 1;
            }
            proof {
                assert forall|d: Vec2i|
                    #![trigger step_ok(node.cell, d)]
                    free_cell(cells, d) && step_ok(node.cell, d) implies vis(visited@, nI, d) by {
                    assert(neigh@.contains(d));
                    let j = choose|j: int| 0 <= j < neigh@.len() && neigh@[j] == d;
                    assert(vis(visited@, nI, neigh@[j]));
                }
                lemma_expand_preserves_closed(cells, vis1, visited@, nI, open_pre, open1, open@,
                    best as int, node.cell);
                lemma_goal_stays_open(cells, vis1, visited@, nI, open_pre, open1, open@,
                    best as int, node.cell, cg);
            }
        }
        proof {
            assert(!vis(visited@, nI, cg)) by {
                if vis(visited@, nI, cg) {
                    let jj = choose|jj: int| 0 <= jj < open@.len() && open@[jj].cell == cg;
                }
            }
            assert(open@ =~= Seq::<SearchNode>::empty());
            lemma_no_path(cells, visited@, cs, cg);
        }
        Err(PathfindingError)
    }
}

} // verus!

