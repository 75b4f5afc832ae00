//! Populates the grid from static world geometry, once, at world build
//! time: each declared obstacle footprint is rasterized into the occupancy
//! map, and the world's border is sealed so searches never walk off the
//! map.

use vstd::prelude::*;

use crate::geom::{remap_i32, remap_spec, Vec2i};
use crate::grid::Grid;

verus! {

/// The declared footprint of a static obstacle, in world units: a circle of
/// the given radius, or an axis-aligned square of the given half-extent.
#[derive(Clone, Debug)]
pub enum WallType {
    Circle(i32),
    Rect(i32),
}

/// A static obstacle of the map.
pub struct Wall {
    pub wall_type: WallType,
}

/// Cell `(x, y)` lies within `r` cells of center `(cx, cy)`.
pub open spec fn in_disc(cx: int, cy: int, r: int, x: int, y: int) -> bool {
    (x - cx) * (x - cx) + (y - cy) * (y - cy) <= r * r
}

/// A point of a disc lies within its radius along each axis.
proof fn lemma_in_disc_bounds(cx: int, cy: int, r: int, x: int, y: int)
    requires
        in_disc(cx, cy, r, x, y),
        r >= 0,
    ensures
        cx - r <= x <= cx + r,
        cy - r <= y <= cy + r,
{
    assert(cx - r <= x <= cx + r && cy - r <= y <= cy + r) by (nonlinear_arith)
        requires
            (x - cx) * (x - cx) + (y - cy) * (y - cy) <= r * r,
            r >= 0,
    ;
}

/// Marks every cell within `radius` grid units of `center` as occupied;
/// every other cell keeps its state. A disc reaching past the grid edge is
/// clipped, not rejected, so obstacles partially off-grid still occlude
/// their in-grid part.
pub fn fill_circle(grid: &mut Grid, center: (usize, usize), radius: usize)
    requires
        old(grid).wf(),
        center.0 < old(grid).size(),
        center.1 < old(grid).size(),
        radius <= 4096,
    ensures
        final(grid).wf(),
        final(grid).size() == old(grid).size(),
        final(grid).world() == old(grid).world(),
        forall|x: int, y: int|
            0 <= x < old(grid).size() && 0 <= y < old(grid).size() ==> final(grid).occ(x, y) == (
            old(grid).occ(x, y) || in_disc(center.0 as int, center.1 as int, radius as int, x, y)),
{
    let (n, _) = grid.dimensions();
    let cx = center.0;
    let cy = center.1;
    let y0 = if cy >= radius {
        cy - radius
    } else {
        0
    };
    let y1 = if cy + radius <= n - 1 {
        cy + radius
    } else {
        n - 1
    };
    let x0 = if cx >= radius {
        cx - radius
    } else {
        0
    };
    let x1 = if cx + radius <= n - 1 {
        cx + radius
    } else {
        n - 1
    };
    let mut y = y0;
    while y <= y1
        invariant
            grid.wf(),
            grid.size() == old(grid).size(),
            grid.world() == old(grid).world(),
            n == grid.size(),
            cx == center.0,
            cy == center.1,
            cx < n,
            cy < n,
            radius <= 4096,
            y0 == if cy >= radius { cy - radius } else { 0 },
            y1 == if cy + radius <= n - 1 { (cy + radius) as int } else { (n - 1) as int },
            x0 == if cx >= radius { cx - radius } else { 0 },
            x1 == if cx + radius <= n - 1 { (cx + radius) as int } else { (n - 1) as int },
            y0 <= y,
            y <= y1 + 1,
            forall|i: int, j: int|
                0 <= i < n && 0 <= j < n ==> grid.occ(i, j) == (old(grid).occ(i, j) || (in_disc(
                    cx as int,
                    cy as int,
                    radius as int,
                    i,
                    j,
                ) && y0 <= j < y && x0 <= i <= x1)),
        decreases y1 + 1 - y,
    {
        let mut x = x0;
        while x <= x1
            invariant
                grid.wf(),
                grid.size() == old(grid).size(),
                grid.world() == old(grid).world(),
                n == grid.size(),
                cx == center.0,
                cy == center.1,
                cx < n,
                cy < n,
                radius <= 4096,
                y0 <= y <= y1,
                y1 < n,
                x1 < n,
                x0 == if cx >= radius { cx - radius } else { 0 },
                x1 == if cx + radius <= n - 1 { (cx + radius) as int } else { (n - 1) as int },
                x0 <= x,
                x <= x1 + 1,
                forall|i: int, j: int|
                    0 <= i < n && 0 <= j < n ==> grid.occ(i, j) == (old(grid).occ(i, j) || (
                    in_disc(cx as int, cy as int, radius as int, i, j) && ((y0 <= j < y && x0 <= i
                        <= x1) || (j == y && x0 <= i < x)))),
            decreases x1 + 1 - x,
        {
            let dx: i64 = x as i64 - cx as i64;
            let dy: i64 = y as i64 - cy as i64;
            proof {
                assert(0 <= dx * dx < 0x8000_0000 && 0 <= dy * dy < 0x8000_0000 && 0 <= (
                radius as i64) * (radius as i64) < 0x8000_0000) by (nonlinear_arith)
                    requires
                        -4096 <= dx <= 4096,
                        -4096 <= dy <= 4096,
                        0 <= radius <= 4096,
                ;
            }
            if dx * dx + dy * dy <= (radius as i64) * (radius as i64) {
                grid.set_point(x, y, true);
            }
            x = x + 1;
        }
        y = y + 1;
    }
    proof {
        assert forall|x: int, y_: int|
            0 <= x < n && 0 <= y_ < n implies final(grid).occ(x, y_) == (old(grid).occ(x, y_)
            || in_disc(cx as int, cy as int, radius as int, x, y_)) by {
            if in_disc(cx as int, cy as int, radius as int, x, y_) {
                lemma_in_disc_bounds(cx as int, cy as int, radius as int, x, y_);
            }
        }
    }
}

/// Cell `(x, y)` lies on the outermost ring of a grid of side `n`.
pub open spec fn on_border(n: int, x: int, y: int) -> bool {
    x == 0 || y == 0 || x == n - 1 || y == n - 1
}

/// The grid-space footprint of one wall standing at world position `pos`:
/// circles cover the disc of their remapped radius around their cell;
/// square walls are declared by the map but have no rasterization.
pub open spec fn wall_covers(grid: Grid, pos: Vec2i, wall: WallType, x: int, y: int) -> bool {
    match wall {
        WallType::Circle(radius) => in_disc(grid.w2g(pos.x as int), grid.w2g(pos.y as int),
            remap_spec(radius as int, 0, grid.world(), 0, grid.size()), x, y),
        WallType::Rect(_) => false,
    }
}

/// Rasterizes the static walls into the grid, then seals the border. A cell
/// ends occupied exactly when it was occupied before, lies on the border,
/// or falls under some wall's footprint.
pub fn build_map_collision(grid: &mut Grid, walls: &Vec<(Vec2i, WallType)>)
    requires
        old(grid).wf(),
        forall|k: int|
            0 <= k < walls@.len() ==> (match (#[trigger] walls@[k]).1 {
                WallType::Circle(r) => 0 <= r <= old(grid).world(),
                WallType::Rect(r) => true,
            }),
    ensures
        final(grid).wf(),
        final(grid).size() == old(grid).size(),
        final(grid).world() == old(grid).world(),
        forall|x: int, y: int|
            0 <= x < old(grid).size() && 0 <= y < old(grid).size() ==> final(grid).occ(x, y) == (
            old(grid).occ(x, y) || on_border(old(grid).size(), x, y) || (exists|k: int|
                0 <= k < walls@.len() && wall_covers(*old(grid), walls@[k].0, walls@[k].1, x, y))),
{
    let (n, _) = grid.dimensions();
    let mut k: usize = 0;
    while k < walls.len()
        invariant
            grid.wf(),
            grid.size() == old(grid).size(),
            grid.world() == old(grid).world(),
            n == grid.size(),
            k <= walls@.len(),
            forall|j: int|
                0 <= j < walls@.len() ==> (match (#[trigger] walls@[j]).1 {
                    WallType::Circle(r) => 0 <= r <= old(grid).world(),
                    WallType::Rect(r) => true,
                }),
            forall|x: int, y: int|
                0 <= x < n && 0 <= y < n ==> grid.occ(x, y) == (old(grid).occ(x, y) || (exists|
                    j: int,
                |
                    0 <= j < k && wall_covers(*old(grid), walls@[j].0, walls@[j].1, x, y))),
        decreases walls@.len() - k,
    {
        let ghost gpre = *grid;
        let pos = walls[k].0;
        match walls[k].1 {
            WallType::Circle(radius) => {
                let center = grid.index_from_position(&pos);
                let w = grid.world_size;
                let u_radius = remap_i32(radius, 0, w, 0, grid.points.len() as i32);
                fill_circle(grid, center, u_radius as usize);
                proof {
                    assert forall|x: int, y: int|
                        0 <= x < n && 0 <= y < n implies grid.occ(x, y) == (old(grid).occ(x, y)
                        || (exists|j: int|
                        0 <= j < k + 1 && wall_covers(*old(grid), walls@[j].0, walls@[j].1, x,
                        y))) by {
                        if grid.occ(x, y) {
                            if gpre.occ(x, y) {
                                if !old(grid).occ(x, y) {
                                    let j = choose|j: int|
                                        0 <= j < k && wall_covers(*old(grid), walls@[j].0,
                                        walls@[j].1, x, y);
                                    assert(0 <= j < k + 1 && wall_covers(*old(grid), walls@[j].0,
                                    walls@[j].1, x, y));
                                }
                            } else {
                                assert(wall_covers(*old(grid), walls@[k as int].0,
                                walls@[k as int].1, x, y));
                            }
                        } else {
                            assert(!wall_covers(*old(grid), walls@[k as int].0, walls@[k as int].1,
                            x, y));
                            assert forall|j: int|
                                !(0 <= j < k + 1 && wall_covers(*old(grid), walls@[j].0,
                                walls@[j].1, x, y)) by {}
                        }
                    }
                }
            },
            WallType::Rect(_) => {
                // square footprints are declared by the map but never rasterized
                proof {
                    assert forall|x: int, y: int|
                        0 <= x < n && 0 <= y < n implies grid.occ(x, y) == (old(grid).occ(x, y)
                        || (exists|j: int|
                        0 <= j < k + 1 && wall_covers(*old(grid), walls@[j].0, walls@[j].1, x,
                        y))) by {
                        if grid.occ(x, y) && !old(grid).occ(x, y) {
                            let j = choose|j: int|
                                0 <= j < k && wall_covers(*old(grid), walls@[j].0, walls@[j].1, x,
                                y);
                            assert(0 <= j < k + 1 && wall_covers(*old(grid), walls@[j].0,
                            walls@[j].1, x, y));
                        }
                    }
                }
            },
        }
        k = k + 1;
    }
    let ghost gwalls = *grid;
    let mut i: usize = 0;
    while i < n
        invariant
            grid.wf(),
            grid.size() == gwalls.size(),
            grid.world() == gwalls.world(),
            n == grid.size(),
            i <= n,
            forall|x: int, y: int|
                0 <= x < n && 0 <= y < n ==> grid.occ(x, y) == (gwalls.occ(x, y) || (x == 0 && y
                    < i) || (y == 0 && x < i) || (x == n - 1 && y < i) || (y == n - 1 && x < i)),
        decreases n - i,
    {
        grid.set_point(i, 0, true);
        grid.set_point(0, i, true);
        grid.set_point(n - 1, i, true);
        grid.set_point(i, n - 1, true);
        i = i + 1;
    }
}

} // verus!
