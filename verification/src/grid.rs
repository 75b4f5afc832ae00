//! The occupancy grid: a square boolean map over a discretized world, with
//! clamped transforms between continuous world coordinates and grid indices.
//!
//! World space is centered at the origin and spans `world_size` units per
//! axis; the grid divides it into `size * size` square cells of
//! `world_size / size` world units each. Every coordinate-accepting
//! operation clamps out-of-range input to the nearest valid cell instead of
//! failing, because callers routinely derive indices from physics positions
//! that are marginally out of range.

use vstd::prelude::*;

use crate::geom::{abs_i, clampi, dist2, dist_squared, lemma_dist2_nonneg, Vec2i};

verus! {

pub struct Grid {
    pub points: Vec<Vec<bool>>,
    pub world_size: i32,
}

/// Occupancy of a square cell field, indexed `[y][x]`.
pub open spec fn cells_of(points: Seq<Vec<bool>>) -> Seq<Seq<bool>> {
    Seq::new(points.len(), |y: int| points[y]@)
}

impl Grid {
    /// The abstract occupancy map: row `y`, column `x`.
    pub open spec fn gview(&self) -> Seq<Seq<bool>> {
        cells_of(self.points@)
    }

    /// Side length of the grid, in cells.
    pub open spec fn size(&self) -> int {
        self.points@.len() as int
    }

    /// Side length of the world, in world units.
    pub open spec fn world(&self) -> int {
        self.world_size as int
    }

    /// Width of one grid cell, in world units.
    pub open spec fn cell_w(&self) -> int {
        self.world() / self.size()
    }

    /// Half the world side: world coordinates span `[-half(), half()]`.
    pub open spec fn half(&self) -> int {
        self.world() / 2
    }

    /// Well-formed grid: square and fully allocated, with a positive even
    /// world side that is a whole multiple of the grid side. The numeric
    /// caps keep every coordinate computation inside machine integers.
    pub open spec fn wf(&self) -> bool {
        &&& 2 <= self.points@.len() <= 4096
        &&& forall|y: int|
            0 <= y < self.points@.len() ==> (#[trigger] self.points@[y])@.len()
                == self.points@.len()
        &&& 4 <= self.world_size <= 0x1000_0000
        &&& self.world_size % 2 == 0
        &&& self.world() % self.size() == 0
        &&& self.size() <= self.world()
    }

    /// Occupancy of the cell at column `x`, row `y` (meaningful in bounds).
    pub open spec fn occ(&self, x: int, y: int) -> bool {
        self.gview()[y][x]
    }

    /// `c` is a valid cell index of this grid.
    pub open spec fn in_bounds(&self, c: Vec2i) -> bool {
        0 <= c.x < self.size() && 0 <= c.y < self.size()
    }

    /// An in-bounds cell that does not block movement.
    pub open spec fn free_at(&self, c: Vec2i) -> bool {
        self.in_bounds(c) && !self.occ(c.x as int, c.y as int)
    }

    /// Grid-space clamp of an arbitrary cell coordinate.
    pub open spec fn clamp_cell_spec(&self, c: Vec2i) -> Vec2i {
        Vec2i {
            x: clampi(c.x as int, 0, self.size() - 1) as i32,
            y: clampi(c.y as int, 0, self.size() - 1) as i32,
        }
    }

    /// World coordinate to grid index, one axis: shift into `[0, world]`,
    /// clamp, and divide by the cell width; the last cell absorbs the far
    /// world edge.
    pub open spec fn w2g(&self, v: int) -> int {
        clampi(clampi(v + self.half(), 0, self.world()) / self.cell_w(), 0, self.size() - 1)
    }

    /// Grid index to world coordinate, one axis: the center of the cell,
    /// after clamping the index into range.
    pub open spec fn g2w(&self, g: int) -> int {
        -self.half() + clampi(g, 0, self.size() - 1) * self.cell_w() + self.cell_w() / 2
    }

    /// The world-space center of the (clamped) cell `c`.
    pub open spec fn cell_center(&self, c: Vec2i) -> Vec2i {
        Vec2i { x: self.g2w(c.x as int) as i32, y: self.g2w(c.y as int) as i32 }
    }

    /// Builds an all-free grid of `grid_size * grid_size` cells over a world
    /// of side `world_size`. The bounds on the arguments are the machine
    /// limits under which every later coordinate computation stays exact.
    pub fn new(grid_size: usize, world_size: i32) -> (g: Grid)
        requires
            2 <= grid_size <= 4096,
            4 <= world_size <= 0x1000_0000,
            world_size % 2 == 0,
            world_size as int % grid_size as int == 0,
            grid_size as int <= world_size as int,
        ensures
            g.wf(),
            g.size() == grid_size,
            g.world() == world_size,
            forall|x: int, y: int|
                0 <= x < grid_size && 0 <= y < grid_size ==> !g.occ(x, y),
    {
        let mut points: Vec<Vec<bool>> = Vec::new();
        while points.len() < grid_size
            invariant
                points@.len() <= grid_size,
                forall|y: int|
                    0 <= y < points@.len() ==> (#[trigger] points@[y])@.len() == grid_size,
                forall|y: int, x: int|
                    0 <= y < points@.len() && 0 <= x < grid_size ==> !(#[trigger] points@[y]@[x]),
            decreases grid_size - points.len(),
        {
            let mut row: Vec<bool> = Vec::new();
            while row.len() < grid_size
                invariant
                    row@.len() <= grid_size,
                    forall|x: int| 0 <= x < row@.len() ==> !(#[trigger] row@[x]),
                decreases grid_size - row.len(),
            {
                row.push(false);
            }
            points.push(row);
        }
        Grid { points, world_size }
    }

    /// A deep copy of the grid, as handed to a background search so that the
    /// search never observes a grid that mutates mid-flight.
    pub fn snapshot(&self) -> (g: Grid)
        requires
            self.wf(),
        ensures
            g.wf(),
            g.gview() == self.gview(),
            g.size() == self.size(),
            g.world() == self.world(),
    {
        let n = self.points.len();
        let mut points: Vec<Vec<bool>> = Vec::new();
        while points.len() < n
            invariant
                self.wf(),
                n == self.size(),
                points@.len() <= n,
                forall|y: int| 0 <= y < points@.len() ==> #[trigger] points@[y]@ == self.points@[y]@,
            decreases n - points.len(),
        {
            let y = points.len();
            let src_row = &self.points[y];
            let mut row: Vec<bool> = Vec::new();
            while row.len() < src_row.len()
                invariant
                    row@.len() <= src_row@.len(),
                    forall|x: int| 0 <= x < row@.len() ==> row@[x] == src_row@[x],
                decreases src_row.len() - row.len(),
            {
                row.push(src_row[row.len()]);
            }
            proof {
                assert(row@ =~= src_row@);
            }
            points.push(row);
        }
        let g = Grid { points, world_size: self.world_size };
        proof {
            assert(g.gview() =~~= self.gview());
        }
        g
    }

    /// `(rows, columns)` of the occupancy map; the grid is always square.
    pub fn dimensions(&self) -> (d: (usize, usize))
        requires
            self.wf(),
        ensures
            d.0 == self.size(),
            d.1 == self.size(),
    {
        (self.points.len(), self.points[0].len())
    }

    /// Clamp one grid-axis coordinate into `[0, size - 1]`.
    fn clamp_axis(&self, v: i32) -> (c: usize)
        requires
            self.wf(),
        ensures
            c == clampi(v as int, 0, self.size() - 1),
    {
        let n = self.points.len();
        if v < 0 {
            0
        } else if v as usize >= n {
            n - 1
        } else {
            v as usize
        }
    }

    /// The grid-space clamp of `c` as an executable operation.
    pub fn clamp_cell(&self, c: &Vec2i) -> (r: Vec2i)
        requires
            self.wf(),
        ensures
            r == self.clamp_cell_spec(*c),
            self.in_bounds(r),
    {
        Vec2i { x: self.clamp_axis(c.x) as i32, y: self.clamp_axis(c.y) as i32 }
    }

    /// Whether the cell at the (clamped) grid coordinate blocks movement.
    /// Out-of-range indices are clamped to the nearest valid cell, never an
    /// error.
    pub fn occupied(&self, point: &Vec2i) -> (r: bool)
        requires
            self.wf(),
        ensures
            r == self.occ(clampi(point.x as int, 0, self.size() - 1),
                clampi(point.y as int, 0, self.size() - 1)),
            r == !self.free_at(self.clamp_cell_spec(*point)),
    {
        let cx = self.clamp_axis(point.x);
        let cy = self.clamp_axis(point.y);
        self.points[cy][cx]
    }

    /// Marks the (clamped) cell `(x, y)` as occupied or free. Out-of-range
    /// indices write to the nearest valid cell, never panic.
    pub fn set_point(&mut self, x: usize, y: usize, value: bool)
        requires
            old(self).wf(),
        ensures
            final(self).wf(),
            final(self).size() == old(self).size(),
            final(self).world() == old(self).world(),
            forall|i: int, j: int|
                0 <= i < old(self).size() && 0 <= j < old(self).size() ==> final(self).occ(i, j)
                    == if i == clampi(x as int, 0, old(self).size() - 1) && j == clampi(
                    y as int,
                    0,
                    old(self).size() - 1,
                ) {
                    value
                } else {
                    old(self).occ(i, j)
                },
    {
        let n = self.points.len();
        let cx = if x >= n {
            n - 1
        } else {
            x
        };
        let cy = if y >= n {
            n - 1
        } else {
            y
        };
        self.points[cy][cx] = value;
        proof {
            assert(forall|j: int|
                0 <= j < final(self).points@.len() ==> (#[trigger] final(self).points@[j])@.len()
                    == final(self).points@.len());
        }
    }

    /// World position to grid index, one axis.
    fn w2g_axis(&self, v: i32) -> (g: usize)
        requires
            self.wf(),
        ensures
            g == self.w2g(v as int),
    {
        let half = self.world_size / 2;
        let w64: i64 = self.world_size as i64;
        let shifted: i64 = v as i64 + half as i64;
        let u: i64 = if shifted < 0 {
            0
        } else if shifted > w64 {
            w64
        } else {
            shifted
        };
        let n = self.points.len();
        let cw: i64 = (self.world_size / (n as i32)) as i64;
        proof {
            assert(self.world() / self.size() >= 1 && self.world() / self.size()
                <= self.world()) by (nonlinear_arith)
                requires
                    2 <= self.size() <= self.world(),
                    self.world() >= 4,
            ;
            assert(u / cw <= w64 / cw) by (nonlinear_arith)
                requires
                    0 <= u <= w64,
                    cw >= 1,
            ;
            assert(w64 / cw == self.size()) by (nonlinear_arith)
                requires
                    cw == self.world() / self.size(),
                    self.world() % self.size() == 0,
                    2 <= self.size(),
                    w64 == self.world(),
                    self.world() >= 4,
            ;
        }
        let q = (u / cw) as usize;
        if q >= n {
            n - 1
        } else {
            q
        }
    }

    /// Grid index to world coordinate, one axis.
    fn g2w_axis(&self, g: i32) -> (v: i32)
        requires
            self.wf(),
        ensures
            v == self.g2w(g as int),
            -self.half() <= v <= self.half(),
    {
        let half = self.world_size / 2;
        let n = self.points.len();
        let cw = self.world_size / (n as i32);
        let gc = self.clamp_axis(g);
        proof {
            vstd::arithmetic::div_mod::lemma_fundamental_div_mod(self.world(), self.size());
            let s = self.size();
            let w = self.world();
            let cwi = w / s;
            assert(cwi * s == w);
            assert(cwi >= 1 && 0 <= clampi(g as int, 0, s - 1) * cwi <= w - cwi)
                by (nonlinear_arith)
                requires
                    cwi * s == w,
                    2 <= s <= w,
                    w >= 4,
                    0 <= clampi(g as int, 0, s - 1) <= s - 1,
            ;
            assert(w / 2 + w / 2 == w);
        }
        -half + (gc as i32) * cw + cw / 2
    }

    /// World position to grid indices `(x, y)`, clamped into range.
    pub fn index_from_position(&self, pos: &Vec2i) -> (r: (usize, usize))
        requires
            self.wf(),
        ensures
            r.0 == self.w2g(pos.x as int),
            r.1 == self.w2g(pos.y as int),
            r.0 < self.size(),
            r.1 < self.size(),
    {
        (self.w2g_axis(pos.x), self.w2g_axis(pos.y))
    }

    /// The world-space center of the (clamped) grid cell `pos`.
    pub fn grid_to_world_coords(&self, pos: &Vec2i) -> (r: Vec2i)
        requires
            self.wf(),
        ensures
            r == self.cell_center(*pos),
            -self.half() <= r.x <= self.half(),
            -self.half() <= r.y <= self.half(),
    {
        Vec2i { x: self.g2w_axis(pos.x), y: self.g2w_axis(pos.y) }
    }

    /// The cell the world position `pos` falls into.
    pub open spec fn cell_of(&self, pos: Vec2i) -> Vec2i {
        Vec2i { x: self.w2g(pos.x as int) as i32, y: self.w2g(pos.y as int) as i32 }
    }

    /// A free cell to path from, for an agent standing at world position
    /// `pos`. The agent's own cell when it is free; otherwise the nearest
    /// free cell in the grid (by squared cell distance, ties leaning toward
    /// the direction of travel `dir`); `None` only when every cell of the
    /// grid is occupied.
    pub fn sample_position(&self, pos: &Vec2i, dir: Vec2i) -> (r: Option<(usize, usize)>)
        requires
            self.wf(),
        ensures
            (match r {
                Some(c) => {
                    &&& c.0 < self.size()
                    &&& c.1 < self.size()
                    &&& !self.occ(c.0 as int, c.1 as int)
                    &&& forall|f: Vec2i|
                        self.free_at(f) ==> dist2(
                            Vec2i { x: c.0 as i32, y: c.1 as i32 },
                            self.cell_of(*pos),
                        ) <= dist2(f, self.cell_of(*pos))
                    &&& !self.occ(self.cell_of(*pos).x as int, self.cell_of(*pos).y as int)
                        ==> c == ((self.cell_of(*pos).x as usize, self.cell_of(*pos).y as usize))
                },
                None => forall|x: int, y: int|
                    0 <= x < self.size() && 0 <= y < self.size() ==> self.occ(x, y),
            }),
    {
        let (sx, sy) = self.index_from_position(pos);
        let sc = Vec2i { x: sx as i32, y: sy as i32 };
        if !self.occupied(&sc) {
            proof {
                assert forall|f: Vec2i|
                    self.free_at(f) implies dist2(sc, self.cell_of(*pos)) <= dist2(
                    f,
                    self.cell_of(*pos),
                ) by {
                    lemma_dist2_nonneg(sc, self.cell_of(*pos));
                    lemma_dist2_nonneg(f, self.cell_of(*pos));
                }
            }
            return Some((sx, sy));
        }
        let n = self.points.len();
        let mut found = false;
        let mut bx: usize = 0;
        let mut by: usize = 0;
        let mut bd: i64 = 0;
        let mut bdot: i64 = 0;
        let mut y: usize = 0;
        while y < n
            invariant
                self.wf(),
                n == self.size(),
                sc == self.cell_of(*pos),
                0 <= sc.x < n,
                0 <= sc.y < n,
                y <= n,
                found ==> bx < n && by < n && !self.occ(bx as int, by as int) && bd == dist2(
                    Vec2i { x: bx as i32, y: by as i32 },
                    sc,
                ),
                found ==> forall|f: Vec2i|
                    self.free_at(f) && f.y < y ==> bd <= dist2(f, sc),
                !found ==> forall|i: int, j: int|
                    0 <= i < n && 0 <= j < y ==> self.occ(i, j),
            decreases n - y,
        {
            let mut x: usize = 0;
            while x < n
                invariant
                    self.wf(),
                    n == self.size(),
                    sc == self.cell_of(*pos),
                    0 <= sc.x < n,
                    0 <= sc.y < n,
                    y < n,
                    x <= n,
                    found ==> bx < n && by < n && !self.occ(bx as int, by as int) && bd == dist2(
                        Vec2i { x: bx as i32, y: by as i32 },
                        sc,
                    ),
                    found ==> forall|f: Vec2i|
                        self.free_at(f) && (f.y < y || (f.y == y && f.x < x)) ==> bd <= dist2(
                            f,
                            sc,
                        ),
                    !found ==> forall|i: int, j: int|
                        0 <= i < n && 0 <= j < y ==> self.occ(i, j),
                    !found ==> forall|i: int| 0 <= i < x ==> self.occ(i, y as int),
                decreases n - x,
            {
                if !self.points[y][x] {
                    let c = Vec2i { x: x as i32, y: y as i32 };
                    let d = dist_squared(&c, &sc);
                    proof {
                        let px = (c.x - sc.x) * (dir.x as int);
                        let py = (c.y - sc.y) * (dir.y as int);
                        assert(-0x1000_0000_0000 <= px <= 0x1000_0000_0000 && -0x1000_0000_0000
                            <= py <= 0x1000_0000_0000) by (nonlinear_arith)
                            requires
                                px == (c.x - sc.x) * (dir.x as int),
                                py == (c.y - sc.y) * (dir.y as int),
                                -4096 <= c.x - sc.x <= 4096,
                                -4096 <= c.y - sc.y <= 4096,
                                -0x8000_0000 <= dir.x as int <= 0x8000_0000,
                                -0x8000_0000 <= dir.y as int <= 0x8000_0000,
                        ;
                    }
                    let ddot: i64 = (c.x as i64 - sc.x as i64) * (dir.x as i64) + (c.y as i64
                        - sc.y as i64) * (dir.y as i64);
                    if !found || d < bd || (d == bd && ddot > bdot) {
                        found = true;
                        bx = x;
                        by = y;
                        bd = d;
                        bdot = ddot;
                    }
                }
                x = x + 1;
            }
            y = y + 1;
        }
        if found {
            Some((bx, by))
        } else {
            None
        }
    }

    /// The arrival tolerance the follower compares squared distances
    /// against: one grid cell's world-space width.
    pub fn tolerance(&self) -> (t: i32)
        requires
            self.wf(),
        ensures
            t == self.cell_w(),
    {
        self.world_size / (self.points.len() as i32)
    }
}

/// One axis of the coordinate round trip: mapping a world coordinate to its
/// grid cell and back to that cell's center moves it by at most one cell
/// width.
proof fn lemma_axis_round_trip(g: Grid, v: int)
    requires
        g.wf(),
        -g.half() <= v <= g.half(),
    ensures
        abs_i(g.g2w(g.w2g(v)) - v) <= g.cell_w(),
{
    let w = g.world();
    let s = g.size();
    let cw = g.cell_w();
    vstd::arithmetic::div_mod::lemma_fundamental_div_mod(w, s);
    assert(cw * s == w);
    assert(cw >= 1) by (nonlinear_arith)
        requires
            cw * s == w,
            2 <= s <= w,
            w >= 4,
    ;
    let u = v + w / 2;
    assert(w / 2 + w / 2 == w);
    assert(0 <= u <= w);
    assert(clampi(u, 0, w) == u);
    let q0 = u / cw;
    vstd::arithmetic::div_mod::lemma_fundamental_div_mod(u, cw);
    vstd::arithmetic::div_mod::lemma_mod_division_less_than_divisor(u, cw);
    let rem = u % cw;
    assert(u == cw * q0 + rem && 0 <= rem < cw);
    assert(0 <= q0 <= s) by (nonlinear_arith)
        requires
            u == cw * q0 + rem,
            0 <= rem < cw,
            0 <= u <= w,
            cw * s == w,
            cw >= 1,
            s >= 2,
    ;
    if q0 <= s - 1 {
        assert(g.w2g(v) == q0);
        assert(g.g2w(q0) == -w / 2 + q0 * cw + cw / 2);
        assert(g.g2w(q0) - v == cw / 2 - rem) by (nonlinear_arith)
            requires
                u == cw * q0 + rem,
                u == v + w / 2,
                g.g2w(q0) == -w / 2 + q0 * cw + cw / 2,
                w / 2 + w / 2 == w,
        ;
        assert(0 <= cw / 2 <= cw);
    } else {
        assert(q0 == s);
        assert(u == w) by (nonlinear_arith)
            requires
                u == cw * q0 + rem,
                0 <= rem < cw,
                q0 == s,
                cw * s == w,
                u <= w,
        ;
        assert(g.w2g(v) == s - 1);
        assert(g.g2w(s - 1) == -w / 2 + (s - 1) * cw + cw / 2);
        assert(g.g2w(s - 1) - v == cw / 2 - cw) by (nonlinear_arith)
            requires
                g.g2w(s - 1) == -w / 2 + (s - 1) * cw + cw / 2,
                cw * s == w,
                v == w / 2,
                w / 2 + w / 2 == w,
        ;
    }
}

/// Coordinate round trip: for any world point within world bounds, going to
/// grid indices and back to world coordinates moves the point by at most one
/// grid cell width per axis.
pub proof fn lemma_world_grid_round_trip(g: Grid, p: Vec2i)
    requires
        g.wf(),
        -g.half() <= p.x as int <= g.half(),
        -g.half() <= p.y as int <= g.half(),
    ensures
        abs_i(g.g2w(g.w2g(p.x as int)) - p.x as int) <= g.cell_w(),
        abs_i(g.g2w(g.w2g(p.y as int)) - p.y as int) <= g.cell_w(),
{
    lemma_axis_round_trip(g, p.x as int);
    lemma_axis_round_trip(g, p.y as int);
}

/// The opposite round trip is exact: an in-bounds grid index maps to a world
/// point that maps back to the same grid index.
pub proof fn lemma_grid_world_round_trip(g: Grid, c: int)
    requires
        g.wf(),
        0 <= c < g.size(),
    ensures
        g.w2g(g.g2w(c)) == c,
{
    let w = g.world();
    let s = g.size();
    let cw = g.cell_w();
    vstd::arithmetic::div_mod::lemma_fundamental_div_mod(w, s);
    assert(cw * s == w);
    assert(cw >= 1) by (nonlinear_arith)
        requires
            cw * s == w,
            2 <= s <= w,
            w >= 4,
    ;
    let v = g.g2w(c);
    assert(v == -w / 2 + c * cw + cw / 2);
    let u = v + w / 2;
    assert(w / 2 + w / 2 == w);
    assert(u == c * cw + cw / 2);
    assert(0 <= u < w) by (nonlinear_arith)
        requires
            u == c * cw + cw / 2,
            0 <= c < s,
            cw * s == w,
            1 <= cw,
            0 <= cw / 2 < cw,
    ;
    assert(clampi(u, 0, w) == u);
    assert(u / cw == c) by (nonlinear_arith)
        requires
            u == c * cw + cw / 2,
            0 <= cw / 2 < cw,
            1 <= cw,
            0 <= c,
    ;
}

impl Default for Grid {
    /// The configuration the game ships with: a 512-cell grid over a
    /// 1024-unit world.
    fn default() -> (g: Grid)
        ensures
            g.wf(),
            g.size() == 512,
            g.world() == 1024,
            forall|x: int, y: int| 0 <= x < 512 && 0 <= y < 512 ==> !g.occ(x, y),
    {
        Grid::new(512, 1024)
    }
}

} // verus!
