//! The per-tick task layer over the search: an arena of agents keyed by
//! index, each owning at most one in-flight path request or one computed
//! path, never both. Requests snapshot the grid; polling resolves each
//! snapshot search and attaches the resulting path; traversal turns each
//! agent's path into a steering command.

use vstd::prelude::*;

use crate::follow::{
    advance_from, follow_step, steer_delta, AIPath, AITarget, Steering,
};
use crate::geom::{coord_bounded, Vec2i};
use crate::grid::Grid;
use crate::search::{path_ok, reachable};
use crate::stats::{StatType, Stats};

verus! {

/// An in-flight path request: the deep grid snapshot the search runs
/// against, and the start and goal cells. The snapshot keeps the search
/// from observing a grid that mutates mid-flight.
pub struct PathfindingTask {
    pub grid: Grid,
    pub start: Vec2i,
    pub end: Vec2i,
}

impl PathfindingTask {
    pub open spec fn wf(&self) -> bool {
        self.grid.wf()
    }
}

/// One agent of the arena: its externally-owned intent and stats, and at
/// most one of a computed path or an in-flight request.
pub struct Agent {
    pub target: AITarget,
    pub stats: Stats,
    pub path: Option<AIPath>,
    pub task: Option<PathfindingTask>,
}

impl Agent {
    pub open spec fn wf(&self) -> bool {
        &&& (match self.path {
            Some(p) => p.wf(),
            None => true,
        })
        &&& (match self.task {
            Some(t) => t.wf(),
            None => true,
        })
        &&& !(self.path is Some && self.task is Some)
        &&& self.stats.wf()
    }
}

/// All agents, keyed by stable index.
pub struct AgentArena {
    pub agents: Vec<Agent>,
}

impl AgentArena {
    pub open spec fn wf(&self) -> bool {
        forall|i: int| 0 <= i < self.agents@.len() ==> (#[trigger] self.agents@[i]).wf()
    }

    pub fn new() -> (a: AgentArena)
        ensures
            a.wf(),
            a.agents@.len() == 0,
    {
        AgentArena { agents: Vec::new() }
    }

    pub fn len(&self) -> (n: usize)
        ensures
            n == self.agents@.len(),
    {
        self.agents.len()
    }

    /// Registers a new agent with no path and no request; returns its key.
    pub fn add_agent(&mut self, target: AITarget, stats: Stats) -> (id: usize)
        requires
            old(self).wf(),
            stats.wf(),
        ensures
            final(self).wf(),
            id == old(self).agents@.len(),
            final(self).agents@ == old(self).agents@.push(
                (Agent { target, stats, path: None, task: None }),
            ),
    {
        let id = self.agents.len();
        self.agents.push(Agent { target, stats, path: None, task: None });
        id
    }
}

/// Launches a path computation for one agent. Fails fast (attaching
/// nothing) when the goal cell is occupied; otherwise attaches a task that
/// carries a deep snapshot of the grid taken now. At most one request may
/// be outstanding per agent, and never beside a computed path.
pub fn spawn_optimized_pathfinding_task(
    arena: &mut AgentArena,
    target: usize,
    grid: &Grid,
    start: Vec2i,
    end: Vec2i,
)
    requires
        old(arena).wf(),
        grid.wf(),
        target < old(arena).agents@.len(),
        old(arena).agents@[target as int].task is None,
        old(arena).agents@[target as int].path is None,
    ensures
        final(arena).wf(),
        final(arena).agents@.len() == old(arena).agents@.len(),
        forall|i: int|
            0 <= i < old(arena).agents@.len() && i != target ==> final(arena).agents@[i] == old(
                arena,
            ).agents@[i],
        final(arena).agents@[target as int].target == old(arena).agents@[target as int].target,
        final(arena).agents@[target as int].stats == old(arena).agents@[target as int].stats,
        final(arena).agents@[target as int].path is None,
        !grid.free_at(grid.clamp_cell_spec(end)) ==> final(arena).agents@[target as int] == old(
            arena,
        ).agents@[target as int],
        grid.free_at(grid.clamp_cell_spec(end)) <==> final(arena).agents@[target as int].task
            is Some,
        (match final(arena).agents@[target as int].task {
            Some(t) => t.grid.wf() && t.grid.gview() == grid.gview() && t.grid.world()
                == grid.world() && t.start == start && t.end == end,
            None => true,
        }),
{
    if grid.occupied(&end) {
        return ;
    }
    let a = arena.agents.remove(target);
    let task = PathfindingTask { grid: grid.snapshot(), start, end };
    let a2 = Agent { target: a.target, stats: a.stats, path: a.path, task: Some(task) };
    arena.agents.insert(target, a2);
    proof {
        assert(final(arena).agents@ =~= old(arena).agents@.update(target as int, a2));
    }
}

/// The observable effect of polling one agent: its request, if any, is
/// resolved and detached, and a path (cursor reset to the first cell) is
/// attached exactly when the snapshot search connects the request's start
/// to its goal.
pub open spec fn polled(a0: Agent, a1: Agent) -> bool {
    &&& a1.target == a0.target
    &&& a1.stats == a0.stats
    &&& a1.task is None
    &&& (a0.task is None ==> a1 == a0)
    &&& (match a0.task {
        Some(t) => {
            let cs = t.grid.clamp_cell_spec(t.start);
            let cg = t.grid.clamp_cell_spec(t.end);
            &&& (a1.path is Some <==> reachable(t.grid.gview(), cs, cg))
            &&& (match a1.path {
                Some(p) => p.index == 0 && path_ok(t.grid.gview(), p.points@, cs, cg),
                None => true,
            })
        },
        None => true,
    })
}

/// Polls every agent's outstanding request. Runs each request's search
/// against its snapshot, detaches the request, and attaches the computed
/// path on success; an agent whose search found no path is simply left
/// without one. No agent keeps a dangling request past this call.
pub fn apply_pathfinding_to_ai(arena: &mut AgentArena)
    requires
        old(arena).wf(),
    ensures
        final(arena).wf(),
        final(arena).agents@.len() == old(arena).agents@.len(),
        forall|i: int|
            0 <= i < old(arena).agents@.len() ==> polled(old(arena).agents@[i],
            #[trigger] final(arena).agents@[i]),
{
    let n = arena.agents.len();
    let mut i: usize = 0;
    while i < n
        invariant
            arena.wf(),
            n == old(arena).agents@.len(),
            arena.agents@.len() == n,
            i <= n,
            forall|j: int|
                0 <= j < i ==> polled(old(arena).agents@[j], #[trigger] arena.agents@[j]),
            forall|j: int| i <= j < n ==> arena.agents@[j] == old(arena).agents@[j],
        decreases n - i,
    {
        let ghost pre = arena.agents@;
        let a = arena.agents.remove(i);
        if a.task.is_none() {
            arena.agents.insert(i, a);
            proof {
                assert(arena.agents@ =~= pre);
            }
        } else {
            let t = a.task.unwrap();
            let result = t.grid.path_to(&t.start, &t.end);
            let path = match result {
                Ok(p) => Some(AIPath { index: 0, points: p.steps }),
                Err(_) => None,
            };
            let a2 = Agent { target: a.target, stats: a.stats, path, task: None };
            arena.agents.insert(i, a2);
            proof {
                assert(arena.agents@ =~= pre.update(i as int, a2));
            }
        }
        i = i + 1;
    }
}

/// Paths agree as data: same cursor, same cells.
pub open spec fn opt_path_eq(a: Option<AIPath>, b: Option<AIPath>) -> bool {
    match (a, b) {
        (Some(x), Some(y)) => x.index == y.index && x.points@ == y.points@,
        (None, None) => true,
        _ => false,
    }
}

/// The observable effect of one tick of path following on one agent, and
/// the steering command it emits. With path finding disabled the agent
/// halts; with no path and no way to ask for one here, no command is
/// emitted; with a path, the cursor advances on arrival and the command
/// steers toward the cell under the new cursor at the agent's speed stat.
pub open spec fn traversed(
    grid: Grid,
    a0: Agent,
    position: Vec2i,
    a1: Agent,
    s: Option<Steering>,
) -> bool {
    &&& a1.target == a0.target
    &&& a1.stats == a0.stats
    &&& a1.task == a0.task
    &&& (!a0.target.do_path_find ==> s == Some(Steering::Halt) && opt_path_eq(a1.path, a0.path))
    &&& (a0.target.do_path_find ==> (match a0.path {
        None => s is None && a1 == a0,
        Some(p0) => {
            &&& (match a1.path {
                Some(p1) => p1.points@ == p0.points@ && p1.index == advance_from(
                    grid,
                    p0.points@,
                    p0.index as int,
                    position,
                ),
                None => false,
            })
            &&& s == Some(Steering::Toward {
                delta: steer_delta(grid, a1.path.unwrap(), position),
                speed: a0.stats.stat(StatType::Speed) as i32,
            })
        },
    }))
}

/// One tick of path following for every agent, each at its current world
/// position. Returns one steering command slot per agent: `Some` is a
/// velocity command for the movement integrator, `None` leaves the agent's
/// velocity untouched.
pub fn traverse_path(arena: &mut AgentArena, grid: &Grid, positions: &Vec<Vec2i>) -> (out: Vec<
    Option<Steering>,
>)
    requires
        old(arena).wf(),
        grid.wf(),
        positions@.len() == old(arena).agents@.len(),
        forall|i: int| 0 <= i < positions@.len() ==> coord_bounded(#[trigger] positions@[i]),
    ensures
        final(arena).wf(),
        final(arena).agents@.len() == old(arena).agents@.len(),
        out@.len() == old(arena).agents@.len(),
        forall|i: int|
            0 <= i < old(arena).agents@.len() ==> traversed(*grid, old(arena).agents@[i],
            positions@[i], #[trigger] final(arena).agents@[i], out@[i]),
{
    let n = arena.agents.len();
    let mut out: Vec<Option<Steering>> = Vec::new();
    let mut i: usize = 0;
    while i < n
        invariant
            arena.wf(),
            grid.wf(),
            n == old(arena).agents@.len(),
            arena.agents@.len() == n,
            positions@.len() == n,
            forall|k: int| 0 <= k < positions@.len() ==> coord_bounded(#[trigger] positions@[k]),
            i <= n,
            out@.len() == i,
            forall|j: int|
                0 <= j < i ==> traversed(*grid, old(arena).agents@[j], positions@[j],
                #[trigger] arena.agents@[j], out@[j]),
            forall|j: int| i <= j < n ==> arena.agents@[j] == old(arena).agents@[j],
        decreases n - i,
    {
        let ghost pre = arena.agents@;
        let a = arena.agents.remove(i);
        let position = positions[i];
        if a.path.is_none() {
            if a.target.do_path_find {
                out.push(None);
            } else {
                out.push(Some(Steering::Halt));
            }
            arena.agents.insert(i, a);
            proof {
                assert(arena.agents@ =~= pre);
            }
        } else {
            let mut p = a.path.unwrap();
            let s = follow_step(&mut p, &a.target, &a.stats, grid, position);
            out.push(Some(s));
            let a2 = Agent { target: a.target, stats: a.stats, path: Some(p), task: a.task };
            arena.agents.insert(i, a2);
            proof {
                assert(arena.agents@ =~= pre.update(i as int, a2));
            }
        }
        i = i + 1;
    }
    out
}

/// One request pass followed by one poll settles an agent: afterwards no
/// request is outstanding, and when a request had been attached the agent
/// holds a path exactly when the request's goal was reachable on the grid
/// the request snapshotted — an in-flight state never dangles.
pub proof fn lemma_request_poll_settles(grid: Grid, a0: Agent, a1: Agent, a2: Agent)
    requires
        grid.wf(),
        needs_path(a0),
        requested(grid, a0, a1),
        polled(a1, a2),
    ensures
        a2.task is None,
        (match a1.task {
            Some(t) => a2.path is Some <==> reachable(grid.gview(), t.grid.clamp_cell_spec(
                t.start,
            ), t.grid.clamp_cell_spec(t.end)),
            None => true,
        }),
{
    if a1.task is Some {
        let t = a1.task.unwrap();
        assert(t.grid.gview() == grid.gview());
    }
}

/// Whether an agent wants a new plan this tick: path finding on, no path
/// computed, no request in flight.
pub open spec fn needs_path(a: Agent) -> bool {
    a.target.do_path_find && a.path is None && a.task is None
}

/// The observable effect of the request pass on one agent: an agent that
/// needs a plan gets a request attached exactly when the grid holds a free
/// cell to start from and the cell of its destination is free; everything
/// else is untouched.
pub open spec fn requested(grid: Grid, a0: Agent, a1: Agent) -> bool {
    &&& (!needs_path(a0) ==> a1 == a0)
    &&& (needs_path(a0) ==> {
        &&& a1.target == a0.target
        &&& a1.stats == a0.stats
        &&& a1.path is None
        &&& (match a1.task {
            Some(t) => t.grid.wf() && t.grid.gview() == grid.gview() && t.grid.world()
                == grid.world() && grid.free_at(t.start) && t.end == grid.cell_of(
                a0.target.destination,
            ),
            None => true,
        })
        &&& ((exists|f: Vec2i| grid.free_at(f)) && grid.free_at(
            grid.cell_of(a0.target.destination),
        ) <==> a1.task is Some)
    })
}

/// The per-tick request pass: every agent that needs a plan is resolved to
/// a free start cell near its position and, when its destination cell is
/// free, gets a search request on a snapshot of the grid.
pub fn calculate_paths(arena: &mut AgentArena, grid: &Grid, positions: &Vec<Vec2i>)
    requires
        old(arena).wf(),
        grid.wf(),
        positions@.len() == old(arena).agents@.len(),
    ensures
        final(arena).wf(),
        final(arena).agents@.len() == old(arena).agents@.len(),
        forall|i: int|
            0 <= i < old(arena).agents@.len() ==> requested(*grid, old(arena).agents@[i],
            #[trigger] final(arena).agents@[i]),
{
    let n = arena.agents.len();
    let mut i: usize = 0;
    while i < n
        invariant
            arena.wf(),
            grid.wf(),
            n == old(arena).agents@.len(),
            arena.agents@.len() == n,
            positions@.len() == n,
            i <= n,
            forall|j: int|
                0 <= j < i ==> requested(*grid, old(arena).agents@[j],
                #[trigger] arena.agents@[j]),
            forall|j: int| i <= j < n ==> arena.agents@[j] == old(arena).agents@[j],
        decreases n - i,
    {
        let eligible = arena.agents[i].target.do_path_find && arena.agents[i].path.is_none()
            && arena.agents[i].task.is_none();
        if eligible {
            match grid.sample_position(&positions[i], Vec2i::zero()) {
                None => {
                    proof {
                        assert forall|f: Vec2i| !grid.free_at(f) by {}
                    }
                },
                Some((sx, sy)) => {
                    let dest = arena.agents[i].target.destination;
                    let (ex, ey) = grid.index_from_position(&dest);
                    let start = Vec2i::new(sx as i32, sy as i32);
                    let end = Vec2i::new(ex as i32, ey as i32);
                    proof {
                        assert(grid.clamp_cell_spec(end) == end);
                        assert(end == grid.cell_of(dest));
                        assert(grid.free_at(start));
                    }
                    spawn_optimized_pathfinding_task(arena, i, grid, start, end);
                },
            }
        }
        i = i + 1;
    }
}

} // verus!
