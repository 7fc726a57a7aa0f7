//! Plane geometry over fixed-point coordinates: points, velocity vectors,
//! and the integer Euclidean distance used by the line derivation.

use vstd::prelude::*;

verus! {

/// A position in world space, in fixed-point units.
#[derive(Clone, Copy, Debug, PartialEq, Eq, Structural, Hash)]
pub struct Point {
    pub x: i32,
    pub y: i32,
}

/// A velocity, in fixed-point units per time unit.
#[derive(Clone, Copy, Debug, PartialEq, Eq, Structural, Hash)]
pub struct Vec2 {
    pub x: i32,
    pub y: i32,
}

/// The squared Euclidean distance between two points.
pub open spec fn dist_sq(p: Point, q: Point) -> int {
    (p.x - q.x) * (p.x - q.x) + (p.y - q.y) * (p.y - q.y)
}

/// The integer square root: the largest `r` with `r * r <= n`.
pub open spec fn floor_sqrt(n: nat) -> nat
    decreases n,
{
    if n == 0 {
        0
    } else {
        let r = floor_sqrt((n - 1) as nat);
        if (r + 1) * (r + 1) <= n {
            r + 1
        } else {
            r
        }
    }
}

/// The distance between two points, rounded down to a whole number of units.
pub open spec fn dist(p: Point, q: Point) -> int {
    floor_sqrt(dist_sq(p, q) as nat) as int
}

/// `floor_sqrt(n)` is bracketed by the two neighbouring squares.
pub proof fn lemma_floor_sqrt_bounds(n: nat)
    ensures
        floor_sqrt(n) * floor_sqrt(n) <= n,
        n < (floor_sqrt(n) + 1) * (floor_sqrt(n) + 1),
    decreases n,
{
    if n == 0 {
        assert(floor_sqrt(0) == 0);
        assert(n < (floor_sqrt(n) + 1) * (floor_sqrt(n) + 1)) by (nonlinear_arith)
            requires n == 0, floor_sqrt(n) == 0
        ;
    } else {
        let r = floor_sqrt((n - 1) as nat);
        lemma_floor_sqrt_bounds((n - 1) as nat);
        if (r + 1) * (r + 1) <= n {
            assert(floor_sqrt(n) == r + 1);
            assert(n < (r + 1 + 1) * (r + 1 + 1)) by (nonlinear_arith)
                requires n <= (r + 1) * (r + 1), r >= 0
            ;
            assert(floor_sqrt(n) * floor_sqrt(n) <= n);
            assert(n < (floor_sqrt(n) + 1) * (floor_sqrt(n) + 1));
        } else {
            assert(floor_sqrt(n) == r);
            assert(floor_sqrt(n) * floor_sqrt(n) <= n);
            assert(n < (floor_sqrt(n) + 1) * (floor_sqrt(n) + 1));
        }
    }
}

/// Any `r` bracketed by the two neighbouring squares of `n` is `floor_sqrt(n)`.
pub proof fn lemma_floor_sqrt_unique(n: nat, r: nat)
    requires
        r * r <= n,
        n < (r + 1) * (r + 1),
    ensures
        r == floor_sqrt(n),
{
    let f = floor_sqrt(n);
    lemma_floor_sqrt_bounds(n);
    if r < f {
        assert((r + 1) * (r + 1) <= f * f) by (nonlinear_arith)
            requires r + 1 <= f
        ;
    }
    if f < r {
        assert((f + 1) * (f + 1) <= r * r) by (nonlinear_arith)
            requires f + 1 <= r
        ;
    }
}

/// Computes the integer square root of `n` by bisection.
fn isqrt(n: u128) -> (r: u64)
    requires
        n < 0x40000000000000000000000000000000,
    ensures
        r as nat == floor_sqrt(n as nat),
{
    let mut lo: u128 = 0;
    let mut hi: u128 = 0x8000000000000000;
    assert(hi * hi > n) by (nonlinear_arith)
        requires hi == 0x8000000000000000u128, n < 0x40000000000000000000000000000000u128
    ;
    while lo + 1 < hi
        invariant
            lo < hi,
            hi <= 0x8000000000000000,
            lo * lo <= n,
            n < hi * hi,
        decreases hi - lo,
    {
        let mid = lo + (hi - lo) / 2;
        assert(lo < mid < hi);
        assert(mid * mid < 0x40000000000000000000000000000000) by (nonlinear_arith)
            requires 0 <= mid < 0x8000000000000000u128
        ;
        if mid * mid <= n {
            lo = mid;
        } else {
            hi = mid;
        }
    }
    proof {
        lemma_floor_sqrt_unique(n as nat, lo as nat);
    }
    lo as u64
}

/// The Euclidean distance between two points, rounded down.
pub fn distance(p: &Point, q: &Point) -> (d: i64)
    ensures
        d == dist(*p, *q),
        0 <= d,
{
    let dx: i128 = (p.x as i128) - (q.x as i128);
    let dy: i128 = (p.y as i128) - (q.y as i128);
    assert(-0x100000000 < dx < 0x100000000 && -0x100000000 < dy < 0x100000000);
    assert(0 <= dx * dx < 0x10000000000000000 && 0 <= dy * dy < 0x10000000000000000)
        by (nonlinear_arith)
        requires -0x100000000 < dx < 0x100000000, -0x100000000 < dy < 0x100000000
    ;
    let sq: u128 = ((dx * dx) as u128) + ((dy * dy) as u128);
    let r = isqrt(sq);
    proof {
        lemma_floor_sqrt_bounds(sq as nat);
        assert(floor_sqrt(sq as nat) < 0x200000000) by (nonlinear_arith)
            requires
                sq < 0x20000000000000000u128,
                floor_sqrt(sq as nat) * floor_sqrt(sq as nat) <= sq,
        ;
    }
    r as i64
}

} // verus!
