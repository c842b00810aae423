//! Integer screen geometry: points, Euclidean distance (rounded down) and
//! linear interpolation along a segment.
//!
//! Coordinates are whole screen units. Keeping them within
//! [`COORD_LIMIT`] lets every intermediate product of the distance and
//! interpolation computations fit in the machine integers used below.

use vstd::prelude::*;
use vstd::arithmetic::div_mod::{lemma_div_is_ordered, lemma_multiply_divide_le};
use vstd::arithmetic::mul::{lemma_mul_inequality, lemma_mul_is_commutative, lemma_mul_nonnegative};

verus! {

/// Largest coordinate magnitude the geometry accepts.
pub const COORD_LIMIT: i64 = 1_000_000_000;

/// A position in whole screen units.
#[derive(Clone, Copy, Debug, PartialEq, Eq, Structural)]
pub struct Point {
    pub x: i64,
    pub y: i64,
}

impl Point {
    /// Both coordinates are within [`COORD_LIMIT`] in magnitude.
    pub open spec fn in_bounds(self) -> bool {
        -COORD_LIMIT <= self.x <= COORD_LIMIT && -COORD_LIMIT <= self.y <= COORD_LIMIT
    }
}

/// The square of an integer.
pub open spec fn sq(x: int) -> int {
    x * x
}

/// The integer square root, rounded down: the largest `r` with `r * r <= n`.
pub open spec fn sqrt_floor(n: int) -> int
    decreases n,
{
    if n <= 0 {
        0
    } else {
        let p: int = sqrt_floor(n - 1);
        if (p + 1) * (p + 1) <= n {
            p + 1
        } else {
            p
        }
    }
}

/// `sqrt_floor(n)` is the floor of the square root: it is nonnegative, its
/// square is at most `n`, and the next square is beyond `n`.
pub proof fn lemma_sqrt_floor_bounds(n: int)
    requires
        n >= 0,
    ensures
        0 <= sqrt_floor(n),
        sq(sqrt_floor(n)) <= n,
        n < sq(sqrt_floor(n) + 1),
    decreases n,
{
    if n == 0 {
        assert(sqrt_floor(0) == 0);
    } else {
        lemma_sqrt_floor_bounds(n - 1);
        let p: int = sqrt_floor(n - 1);
        if (p + 1) * (p + 1) <= n {
            assert(sqrt_floor(n) == p + 1);
            assert(n < sq(p + 2)) by (nonlinear_arith)
                requires
                    0 <= p,
                    n - 1 < sq(p + 1),
            ;
        } else {
            assert(sqrt_floor(n) == p);
        }
    }
}

/// Any `r` that satisfies the two square bounds is `sqrt_floor(n)`.
pub proof fn lemma_sqrt_floor_unique(n: int, r: int)
    requires
        n >= 0,
        r >= 0,
        sq(r) <= n,
        n < sq(r + 1),
    ensures
        r == sqrt_floor(n),
{
    lemma_sqrt_floor_bounds(n);
    let s: int = sqrt_floor(n);
    if r < s {
        assert(sq(r + 1) <= sq(s)) by (nonlinear_arith)
            requires
                0 <= r + 1 <= s,
        ;
    }
    if s < r {
        assert(sq(s + 1) <= sq(r)) by (nonlinear_arith)
            requires
                0 <= s + 1 <= r,
        ;
    }
}

/// The integer square root of `n`, rounded down, by bisection.
pub fn isqrt(n: u64) -> (r: u64)
    ensures
        r == sqrt_floor(n as int),
        r < 0x1_0000_0000,
{
    let mut lo: u64 = 0;
    let mut hi: u64 = 0x1_0000_0000;
    while lo + 1 < hi
        invariant
            lo < hi <= 0x1_0000_0000,
            sq(lo as int) <= n as int,
            (n as int) < sq(hi as int),
        decreases hi - lo,
    {
        let mid: u64 = lo + (hi - lo) / 2;
        assert(mid * mid <= u64::MAX) by (nonlinear_arith)
            requires
                mid <= 0xffff_ffffu64,
        ;
        if mid * mid <= n {
            lo = mid;
        } else {
            hi = mid;
        }
    }
    proof {
        lemma_sqrt_floor_unique(n as int, lo as int);
    }
    lo
}

/// The squared Euclidean distance between two points.
pub open spec fn sq_dist(a: Point, b: Point) -> int {
    sq(b.x - a.x) + sq(b.y - a.y)
}

/// The Euclidean distance between two points, rounded down to a whole unit.
pub open spec fn dist_spec(a: Point, b: Point) -> int {
    sqrt_floor(sq_dist(a, b))
}

/// The Euclidean distance between two in-bounds points, rounded down.
pub fn euclidean_dist(a: Point, b: Point) -> (d: u64)
    requires
        a.in_bounds(),
        b.in_bounds(),
    ensures
        d == dist_spec(a, b),
        d < 0x1_0000_0000,
{
    let dx: i64 = b.x - a.x;
    let dy: i64 = b.y - a.y;
    assert(0 <= dx * dx <= 0x3782dace9d900000i64 && 0 <= dy * dy <= 0x3782dace9d900000i64)
        by (nonlinear_arith)
        requires
            -2_000_000_000 <= dx <= 2_000_000_000,
            -2_000_000_000 <= dy <= 2_000_000_000,
    ;
    let dd: u64 = (dx * dx + dy * dy) as u64;
    isqrt(dd)
}

/// The point a fraction `num / den` of the way from `a` to `b`, with the
/// advance along the segment rounded down to a whole unit.
pub open spec fn lerp_spec(a: int, b: int, num: int, den: int) -> int {
    if b >= a {
        a + ((b - a) * num) / den
    } else {
        a - ((a - b) * num) / den
    }
}

/// The advance `(diff * num) / den` never overshoots `diff` when the
/// fraction is at most one.
proof fn lemma_advance_le_diff(diff: int, num: int, den: int)
    requires
        0 <= diff,
        0 <= num <= den,
        1 <= den,
    ensures
        0 <= (diff * num) / den <= diff,
{
    lemma_mul_nonnegative(diff, num);
    lemma_div_is_ordered(0, diff * num, den);
    lemma_mul_inequality(num, den, diff);
    lemma_mul_is_commutative(num, diff);
    lemma_mul_is_commutative(den, diff);
    assert(diff * num <= den * diff);
    lemma_multiply_divide_le(diff * num, den, diff);
}

/// Linear interpolation of one coordinate: the value a fraction
/// `num / den` of the way from `a` to `b`. The result always lies
/// between `a` and `b`.
pub fn lerp_coord(a: i64, b: i64, num: usize, den: usize) -> (r: i64)
    requires
        1 <= den,
        num <= den,
    ensures
        r == lerp_spec(a as int, b as int, num as int, den as int),
        a <= b ==> a <= r <= b,
        b <= a ==> b <= r <= a,
{
    if b >= a {
        let diff: u128 = (b as i128 - a as i128) as u128;
        proof {
            lemma_advance_le_diff(diff as int, num as int, den as int);
            assert(diff * (num as u128) <= u128::MAX) by (nonlinear_arith)
                requires
                    diff < 0x1_0000_0000_0000_0000u128,
                    (num as u128) < 0x1_0000_0000_0000_0000u128,
            ;
        }
        let adv: u128 = diff * (num as u128) / (den as u128);
        (a as i128 + adv as i128) as i64
    } else {
        let diff: u128 = (a as i128 - b as i128) as u128;
        proof {
            lemma_advance_le_diff(diff as int, num as int, den as int);
            assert(diff * (num as u128) <= u128::MAX) by (nonlinear_arith)
                requires
                    diff < 0x1_0000_0000_0000_0000u128,
                    (num as u128) < 0x1_0000_0000_0000_0000u128,
            ;
        }
        let adv: u128 = diff * (num as u128) / (den as u128);
        (a as i128 - adv as i128) as i64
    }
}

/// The point a fraction `num / den` of the way from `a` to `b`.
pub open spec fn lerp_point_spec(a: Point, b: Point, num: int, den: int) -> Point {
    Point { x: lerp_spec(a.x as int, b.x as int, num, den) as i64, y: lerp_spec(
        a.y as int,
        b.y as int,
        num,
        den,
    ) as i64 }
}

/// The point a fraction `num / den` of the way from `a` to `b`, one
/// coordinate at a time.
pub fn lerp_point(a: Point, b: Point, num: usize, den: usize) -> (p: Point)
    requires
        1 <= den,
        num <= den,
    ensures
        p == lerp_point_spec(a, b, num as int, den as int),
{
    Point { x: lerp_coord(a.x, b.x, num, den), y: lerp_coord(a.y, b.y, num, den) }
}

} // verus!
