//! Integer plane geometry: the vector type shared by world-space positions
//! and grid cell indices, distances, and the affine remap helper.

use vstd::prelude::*;

verus! {

/// A two-dimensional integer vector, used both for world-space positions and
/// for grid cell indices.
#[derive(Clone, Copy, PartialEq, Eq, Structural, Hash, Debug)]
pub struct Vec2i {
    pub x: i32,
    pub y: i32,
}

impl Vec2i {
    pub fn new(x: i32, y: i32) -> (v: Vec2i)
        ensures
            v.x == x,
            v.y == y,
    {
        Vec2i { x, y }
    }

    pub fn zero() -> (v: Vec2i)
        ensures
            v.x == 0,
            v.y == 0,
    {
        Vec2i { x: 0, y: 0 }
    }
}

/// Absolute value of a mathematical integer.
pub open spec fn abs_i(v: int) -> int {
    if v < 0 {
        -v
    } else {
        v
    }
}

/// Clamp an integer into the closed interval `[lo, hi]`.
pub open spec fn clampi(v: int, lo: int, hi: int) -> int {
    if v < lo {
        lo
    } else if v > hi {
        hi
    } else {
        v
    }
}

/// Squared Euclidean distance between two points.
pub open spec fn dist2(a: Vec2i, b: Vec2i) -> int {
    (a.x - b.x) * (a.x - b.x) + (a.y - b.y) * (a.y - b.y)
}

/// Manhattan distance between two points.
pub open spec fn manhattan(a: Vec2i, b: Vec2i) -> int {
    abs_i(a.x - b.x) + abs_i(a.y - b.y)
}

/// A squared distance is never negative, and zero exactly between a point
/// and itself.
pub proof fn lemma_dist2_nonneg(a: Vec2i, b: Vec2i)
    ensures
        dist2(a, b) >= 0,
        dist2(a, a) == 0,
        a == b ==> dist2(a, b) == 0,
{
    assert((a.x - b.x) * (a.x - b.x) >= 0 && (a.y - b.y) * (a.y - b.y) >= 0) by (nonlinear_arith);
}

/// Coordinates small enough that squared distances fit in `i64`.
pub open spec fn coord_bounded(p: Vec2i) -> bool {
    -0x4000_0000 < p.x < 0x4000_0000 && -0x4000_0000 < p.y < 0x4000_0000
}

/// Squared Euclidean distance, computed exactly in 64-bit arithmetic.
pub fn dist_squared(a: &Vec2i, b: &Vec2i) -> (d: i64)
    requires
        coord_bounded(*a),
        coord_bounded(*b),
    ensures
        d == dist2(*a, *b),
{
    let dx: i64 = a.x as i64 - b.x as i64;
    let dy: i64 = a.y as i64 - b.y as i64;
    proof {
        assert(0 <= dx * dx < 0x4000_0000_0000_0000 && 0 <= dy * dy < 0x4000_0000_0000_0000)
            by (nonlinear_arith)
            requires
                -0x8000_0000_i64 < dx < 0x8000_0000_i64,
                -0x8000_0000_i64 < dy < 0x8000_0000_i64,
        ;
    }
    dx * dx + dy * dy
}

/// The exact value computed by `remap_i32`: an affine remap of `current`
/// from the interval `[old_min, old_max]` onto `[new_min, new_max]`, with
/// rounding by half of the source interval.
pub open spec fn remap_spec(
    current: int,
    old_min: int,
    old_max: int,
    new_min: int,
    new_max: int,
) -> int {
    new_min + ((current - old_min) * (new_max - new_min) + (old_max - old_min) / 2) / (old_max
        - old_min)
}

/// Remap `current` from `[old_min, old_max]` onto `[new_min, new_max]` by a
/// rounded affine map. The result always lies in `[new_min, new_max]`.
pub fn remap_i32(current: i32, old_min: i32, old_max: i32, new_min: i32, new_max: i32) -> (r: i32)
    requires
        -0x4000_0000 < old_min < 0x4000_0000,
        -0x4000_0000 < old_max < 0x4000_0000,
        -0x4000_0000 < new_min < 0x4000_0000,
        -0x4000_0000 < new_max < 0x4000_0000,
        old_min < old_max,
        new_min <= new_max,
        old_min <= current <= old_max,
    ensures
        r == remap_spec(current as int, old_min as int, old_max as int, new_min as int,
            new_max as int),
        new_min <= r <= new_max,
{
    let span: i64 = old_max as i64 - old_min as i64;
    let offset: i64 = current as i64 - old_min as i64;
    let width: i64 = new_max as i64 - new_min as i64;
    proof {
        assert(0 <= offset * width <= span * width && span * width < 0x4000_0000_0000_0000_i64)
            by (nonlinear_arith)
            requires
                0 <= offset <= span,
                0 <= width,
                span < 0x8000_0000_i64,
                width < 0x8000_0000_i64,
        ;
    }
    let num: i64 = offset * width + span / 2;
    let q: i64 = num / span;
    proof {
        let o = offset as int;
        let w = width as int;
        let s = span as int;
        assert(0 <= (o * w + s / 2) / s <= w) by (nonlinear_arith)
            requires
                0 <= o * w <= s * w,
                0 < s,
                0 <= w,
        ;
    }
    new_min + q as i32
}

} // verus!
