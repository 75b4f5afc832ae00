//! The per-tick path follower: walks a computed path point by point and
//! emits a steering command toward the current path cell, advancing its
//! cursor whenever the agent comes within the arrival tolerance of that
//! cell.

use vstd::prelude::*;

use crate::geom::{coord_bounded, dist2, dist_squared, Vec2i};
use crate::grid::Grid;
use crate::stats::{StatType, Stats};

verus! {

/// Per-agent pathfinding intent, owned and mutated by the behaviour layer
/// and read by the core: where to go, how far to chase, and whether path
/// finding is enabled at all.
pub struct AITarget {
    pub follow_range: i32,
    pub attack_range: i32,
    pub destination: Vec2i,
    pub do_path_find: bool,
}

impl AITarget {
    pub fn new(follow_range: i32, attack_range: i32, start_pathfinding: bool) -> (t: AITarget)
        ensures
            t.follow_range == follow_range,
            t.attack_range == attack_range,
            t.destination == (Vec2i { x: 0, y: 0 }),
            t.do_path_find == start_pathfinding,
    {
        AITarget {
            follow_range,
            attack_range,
            destination: Vec2i { x: 0, y: 0 },
            do_path_find: start_pathfinding,
        }
    }
}

/// A computed path: an ordered sequence of grid cells and the cursor of the
/// next cell to walk toward.
pub struct AIPath {
    pub index: usize,
    pub points: Vec<Vec2i>,
}

impl AIPath {
    /// The cursor always rests on a real cell of a non-empty path.
    pub open spec fn wf(&self) -> bool {
        self.index < self.points@.len()
    }

    /// The grid cell the follower is currently walking toward.
    pub fn get_target(&self) -> (c: Vec2i)
        requires
            self.wf(),
        ensures
            c == self.points@[self.index as int],
    {
        self.points[self.index]
    }

    /// The world-space point the follower is currently walking toward.
    pub fn get_target_world(&self, grid: &Grid) -> (w: Vec2i)
        requires
            self.wf(),
            grid.wf(),
        ensures
            w == grid.cell_center(self.points@[self.index as int]),
            -grid.half() <= w.x <= grid.half(),
            -grid.half() <= w.y <= grid.half(),
    {
        grid.grid_to_world_coords(&self.get_target())
    }
}

/// The steering command emitted every tick: either stand still, or move
/// toward a world-space offset at the given speed stat. The embedding layer
/// turns `Toward` into a velocity by normalizing `delta` and scaling it by
/// `speed`; `Halt` is the zero velocity.
#[derive(Clone, Copy, PartialEq, Eq, Structural, Debug)]
pub enum Steering {
    Halt,
    Toward { delta: Vec2i, speed: i32 },
}

/// The agent stands within the arrival tolerance of `cell`: the squared
/// world-space distance to the cell's center is at most one cell width.
pub open spec fn within_tolerance(grid: Grid, cell: Vec2i, position: Vec2i) -> bool {
    dist2(grid.cell_center(cell), position) <= grid.cell_w()
}

/// Where a follow step leaves a cursor standing at `index`: one cell
/// further when the agent has arrived at the current cell and a further
/// cell exists.
pub open spec fn advance_from(grid: Grid, points: Seq<Vec2i>, index: int, position: Vec2i) -> int {
    if within_tolerance(grid, points[index], position) && index + 1 < points.len() {
        index + 1
    } else {
        index
    }
}

/// Where one follow step leaves the path's cursor.
pub open spec fn advance_cursor(ai: AIPath, grid: Grid, position: Vec2i) -> int {
    advance_from(grid, ai.points@, ai.index as int, position)
}

/// The offset the follower steers along after a step: from the agent to the
/// center of the cell under the new cursor.
pub open spec fn steer_delta(grid: Grid, ai: AIPath, position: Vec2i) -> Vec2i {
    Vec2i {
        x: (grid.cell_center(ai.points@[ai.index as int]).x - position.x) as i32,
        y: (grid.cell_center(ai.points@[ai.index as int]).y - position.y) as i32,
    }
}

/// The path is exhausted: the cursor rests on the final cell and the agent
/// stands within tolerance of it. The owner drops the path on this signal.
pub open spec fn path_exhausted(grid: Grid, ai: AIPath, position: Vec2i) -> bool {
    ai.index + 1 == ai.points@.len() && within_tolerance(grid, ai.points@[ai.index as int],
        position)
}

/// One per-tick follow step for one agent. With path finding disabled the
/// agent halts and the path is untouched; otherwise the cursor advances on
/// arrival at the current cell (never past the last) and the command steers
/// toward the cell under the new cursor, scaled by the agent's speed stat.
pub fn follow_step(ai: &mut AIPath, target: &AITarget, stats: &Stats, grid: &Grid, position: Vec2i)
    -> (s: Steering)
    requires
        old(ai).wf(),
        grid.wf(),
        stats.wf(),
        coord_bounded(position),
    ensures
        final(ai).wf(),
        final(ai).points@ == old(ai).points@,
        !target.do_path_find ==> s == Steering::Halt && final(ai).index == old(ai).index,
        target.do_path_find ==> final(ai).index == advance_cursor(*old(ai), *grid, position),
        target.do_path_find ==> s == (Steering::Toward {
            delta: steer_delta(*grid, *final(ai), position),
            speed: stats.stat(StatType::Speed) as i32,
        }),
{
    if !target.do_path_find {
        return Steering::Halt;
    }
    let speed = match stats.get_stat(StatType::Speed) {
        Some(v) => v,
        None => 100,
    };
    let tw = ai.get_target_world(grid);
    let tol = grid.tolerance();
    let len = ai.points.len();
    if dist_squared(&tw, &position) <= tol as i64 && ai.index + 1 < len {
        ai.index = ai.index + 1;
    }
    let goal = ai.get_target_world(grid);
    let dx = goal.x - position.x;
    let dy = goal.y - position.y;
    Steering::Toward { delta: Vec2i { x: dx, y: dy }, speed }
}

/// Whether the follow step has walked the path to its end at the agent's
/// position; observable by the behaviour layer to drop the path.
pub fn is_exhausted(ai: &AIPath, grid: &Grid, position: Vec2i) -> (r: bool)
    requires
        ai.wf(),
        grid.wf(),
        coord_bounded(position),
    ensures
        r == path_exhausted(*grid, *ai, position),
{
    let tw = ai.get_target_world(grid);
    let tol = grid.tolerance();
    let len = ai.points.len();
    ai.index + 1 == len && dist_squared(&tw, &position) <= tol as i64
}

/// A stationary agent settles after at most one cursor advance: when the
/// agent does not stand within tolerance of the cell after the one it has
/// arrived at, a repeated follow step with the same position leaves the
/// cursor where the first step put it.
pub proof fn lemma_follow_idempotent(ai: AIPath, grid: Grid, position: Vec2i)
    requires
        ai.wf(),
        grid.wf(),
        ai.index + 1 < ai.points@.len() ==> !within_tolerance(grid,
            ai.points@[ai.index + 1], position),
    ensures
        advance_from(grid, ai.points@, advance_cursor(ai, grid, position), position)
            == advance_cursor(ai, grid, position),
{
}

} // verus!
