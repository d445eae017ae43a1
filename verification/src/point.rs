//! Planar points on an integer lattice and rounding of coordinates to a grid.
//!
//! Coordinates are whole millimetres in a projected (metric) reference frame.
//! Working on a lattice keeps every operation exact: two points are the same
//! location precisely when their coordinates are equal.

use vstd::prelude::*;
use vstd::arithmetic::div_mod::lemma_fundamental_div_mod;
use vstd::arithmetic::div_mod::lemma_mod_multiples_basic;

verus! {

/// Lattice units in one metre.
pub const UNITS_PER_METER: i64 = 1000;

/// Grid size, in lattice units, of the coarse ten-metre grid.
pub const GRID_10_METERS: i64 = 10000;

/// Grid size, in lattice units, of the fine one-metre grid.
pub const GRID_1_METER: i64 = 1000;

/// A planar position, in millimetres.
#[derive(Clone, Copy, Debug, PartialEq, Eq, Hash, Structural)]
pub struct Point {
    pub x: i64,
    pub y: i64,
}

/// Absolute value of an integer.
pub open spec fn magnitude(v: int) -> int {
    if v < 0 {
        -v
    } else {
        v
    }
}

/// Whether `v` is a whole multiple of `grid`.
pub open spec fn on_grid(v: int, grid: int) -> bool {
    v % grid == 0
}

/// The multiple of `grid` nearest to `v`; a value halfway between two
/// multiples goes to the one farther from zero.
pub open spec fn nearest_multiple(v: int, grid: int) -> int
    recommends
        grid > 0,
{
    let a = magnitude(v);
    let r = a % grid;
    let m = if 2 * r >= grid {
        a - r + grid
    } else {
        a - r
    };
    if v < 0 {
        -m
    } else {
        m
    }
}

/// A coordinate rounded to the grid: the nearest multiple of `grid`, or, where
/// that multiple does not fit in 64 bits, the multiple next to it towards zero.
pub open spec fn rounded(v: int, grid: int) -> int
    recommends
        grid > 0,
{
    let n = nearest_multiple(v, grid);
    if n > i64::MAX {
        n - grid
    } else if n < i64::MIN {
        n + grid
    } else {
        n
    }
}

/// A point with both coordinates rounded to the grid.
pub open spec fn rounded_point(p: Point, grid: int) -> Point
    recommends
        grid > 0,
{
    Point { x: rounded(p.x as int, grid) as i64, y: rounded(p.y as int, grid) as i64 }
}

/// Whether both coordinates of `p` are multiples of `grid`.
pub open spec fn point_on_grid(p: Point, grid: int) -> bool {
    on_grid(p.x as int, grid) && on_grid(p.y as int, grid)
}

/// Whether `p` and `q` lie at least one grid step apart along some axis.
pub open spec fn separated(p: Point, q: Point, grid: int) -> bool {
    magnitude(p.x - q.x) >= grid || magnitude(p.y - q.y) >= grid
}

/// The nearest multiple is a multiple of the grid and lies within half a grid
/// step of the value.
pub proof fn lemma_nearest_multiple(v: int, grid: int)
    requires
        grid > 0,
    ensures
        on_grid(nearest_multiple(v, grid), grid),
        2 * magnitude(nearest_multiple(v, grid) - v) <= grid,
        on_grid(nearest_multiple(v, grid) - grid, grid),
        on_grid(nearest_multiple(v, grid) + grid, grid),
{
    let a = magnitude(v);
    let q = a / grid;
    let r = a % grid;
    lemma_fundamental_div_mod(a, grid);
    assert(a - r == q * grid) by (nonlinear_arith)
        requires
            a == grid * q + r,
    ;
    let n = nearest_multiple(v, grid);
    let k: int = if 2 * r >= grid {
        q + 1
    } else {
        q
    };
    let s: int = if v < 0 {
        -k
    } else {
        k
    };
    assert(n == s * grid) by (nonlinear_arith)
        requires
            a - r == q * grid,
            k == if 2 * r >= grid {
                q + 1
            } else {
                q
            },
            s == if v < 0 {
                -k
            } else {
                k
            },
            n == if v < 0 {
                -(if 2 * r >= grid {
                    a - r + grid
                } else {
                    a - r
                })
            } else {
                if 2 * r >= grid {
                    a - r + grid
                } else {
                    a - r
                }
            },
    ;
    lemma_mod_multiples_basic(s, grid);
    assert(n - grid == (s - 1) * grid) by (nonlinear_arith)
        requires
            n == s * grid,
    ;
    lemma_mod_multiples_basic(s - 1, grid);
    assert(n + grid == (s + 1) * grid) by (nonlinear_arith)
        requires
            n == s * grid,
    ;
    lemma_mod_multiples_basic(s + 1, grid);
}

/// A rounded coordinate is a multiple of the grid that fits in 64 bits.
pub proof fn lemma_rounded_on_grid(v: int, grid: int)
    requires
        0 < grid <= i64::MAX,
        i64::MIN <= v <= i64::MAX,
    ensures
        on_grid(rounded(v, grid), grid),
        i64::MIN <= rounded(v, grid) <= i64::MAX,
        i64::MIN <= nearest_multiple(v, grid) <= i64::MAX ==> rounded(v, grid)
            == nearest_multiple(v, grid),
        magnitude(rounded(v, grid) - v) < grid,
{
    lemma_nearest_multiple(v, grid);
}

/// Rounding leaves a multiple of the grid where it is.
pub proof fn lemma_rounded_fixes_grid_values(v: int, grid: int)
    requires
        0 < grid,
        i64::MIN <= v <= i64::MAX,
        on_grid(v, grid),
    ensures
        rounded(v, grid) == v,
{
    let a = magnitude(v);
    if v < 0 {
        let q = v / grid;
        lemma_fundamental_div_mod(v, grid);
        assert(a == (-q) * grid) by (nonlinear_arith)
            requires
                v == grid * q + 0,
                a == -v,
        ;
        lemma_mod_multiples_basic(-q, grid);
    }
    assert(a % grid == 0);
}

/// Two different multiples of the grid are at least one grid step apart.
pub proof fn lemma_grid_values_apart(a: int, b: int, grid: int)
    requires
        grid > 0,
        on_grid(a, grid),
        on_grid(b, grid),
        a != b,
    ensures
        magnitude(a - b) >= grid,
{
    lemma_fundamental_div_mod(a, grid);
    lemma_fundamental_div_mod(b, grid);
    let qa = a / grid;
    let qb = b / grid;
    assert(magnitude(a - b) >= grid) by (nonlinear_arith)
        requires
            grid > 0,
            a == grid * qa,
            b == grid * qb,
            a != b,
            magnitude(a - b) == if a - b < 0 {
                -(a - b)
            } else {
                a - b
            },
    ;
}

/// Two different points on the grid are separated by a grid step along an axis.
pub proof fn lemma_grid_points_separated(p: Point, q: Point, grid: int)
    requires
        grid > 0,
        point_on_grid(p, grid),
        point_on_grid(q, grid),
        p != q,
    ensures
        separated(p, q, grid),
{
    if p.x != q.x {
        lemma_grid_values_apart(p.x as int, q.x as int, grid);
    } else {
        lemma_grid_values_apart(p.y as int, q.y as int, grid);
    }
}

/// Rounding a point puts it on the grid, and a point on the grid stays put.
pub proof fn lemma_rounded_point(p: Point, grid: int)
    requires
        0 < grid <= i64::MAX,
    ensures
        point_on_grid(rounded_point(p, grid), grid),
        point_on_grid(p, grid) ==> rounded_point(p, grid) == p,
        rounded_point(rounded_point(p, grid), grid) == rounded_point(p, grid),
{
    lemma_rounded_on_grid(p.x as int, grid);
    lemma_rounded_on_grid(p.y as int, grid);
    if point_on_grid(p, grid) {
        lemma_rounded_fixes_grid_values(p.x as int, grid);
        lemma_rounded_fixes_grid_values(p.y as int, grid);
    }
    let r = rounded_point(p, grid);
    lemma_rounded_fixes_grid_values(r.x as int, grid);
    lemma_rounded_fixes_grid_values(r.y as int, grid);
}

/// Rounds one coordinate to the nearest multiple of `grid`, halves away from
/// zero. Where that multiple would not fit in 64 bits the result is the
/// neighbouring multiple on the side of zero, so the result is always on the
/// grid.
pub fn round_coordinate(v: i64, grid: i64) -> (r: i64)
    requires
        grid > 0,
    ensures
        r as int == rounded(v as int, grid as int),
{
    let g: u128 = grid as u128;
    let a: u128 = if v < 0 {
        (-(v as i128)) as u128
    } else {
        v as u128
    };
    let rem: u128 = a % g;
    proof {
        lemma_fundamental_div_mod(a as int, g as int);
        assert(rem <= a) by (nonlinear_arith)
            requires
                a as int == (g as int) * ((a as int) / (g as int)) + rem as int,
                (a as int) / (g as int) >= 0,
                g > 0,
        ;
    }
    let below: u128 = a - rem;
    let m: u128 = if 2 * rem >= g {
        below + g
    } else {
        below
    };
    proof {
        assert(a as int == magnitude(v as int));
        lemma_nearest_multiple(v as int, grid as int);
    }
    if v < 0 {
        let limit: u128 = 0x8000_0000_0000_0000;
        let kept: u128 = if m > limit {
            m - g
        } else {
            m
        };
        (-(kept as i128)) as i64
    } else {
        let limit: u128 = 0x7fff_ffff_ffff_ffff;
        let kept: u128 = if m > limit {
            m - g
        } else {
            m
        };
        kept as i64
    }
}

impl Point {
    /// A point from its two coordinates in millimetres.
    pub fn new(x: i64, y: i64) -> (p: Point)
        ensures
            p == (Point { x, y }),
    {
        Point { x, y }
    }

    /// The horizontal coordinate, in millimetres.
    pub fn x(&self) -> (v: i64)
        ensures
            v == self.x,
    {
        self.x
    }

    /// The vertical coordinate, in millimetres.
    pub fn y(&self) -> (v: i64)
        ensures
            v == self.y,
    {
        self.y
    }
}

/// Rounds both coordinates of a point to the grid.
pub fn round_to_grid(point: Point, grid: i64) -> (r: Point)
    requires
        grid > 0,
    ensures
        r == rounded_point(point, grid as int),
        point_on_grid(r, grid as int),
{
    proof {
        lemma_rounded_point(point, grid as int);
    }
    Point { x: round_coordinate(point.x, grid), y: round_coordinate(point.y, grid) }
}

/// Rounds a point to the ten-metre grid.
pub fn round_to_10_meters(point: Point) -> (r: Point)
    ensures
        r == rounded_point(point, GRID_10_METERS as int),
        point_on_grid(r, GRID_10_METERS as int),
{
    round_to_grid(point, GRID_10_METERS)
}

/// Rounds a point to the one-metre grid.
pub fn round_to_1_meter(point: Point) -> (r: Point)
    ensures
        r == rounded_point(point, GRID_1_METER as int),
        point_on_grid(r, GRID_1_METER as int),
{
    round_to_grid(point, GRID_1_METER)
}

} // verus!
