//! Grid-based pathfinding for a tick-driven 2D world: a discretized occupancy
//! grid with world/grid coordinate transforms, an A*-style shortest-path
//! search over the grid's 4-connected graph, a task layer that resolves
//! path requests against grid snapshots, and a per-tick path follower that
//! turns a computed path into steering commands.

pub mod geom;
pub mod grid;
pub mod search;
pub mod stats;
pub mod follow;
pub mod agents;
pub mod builder;
