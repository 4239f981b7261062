//! Cities and the distance metric.
//!
//! A [`City`] is an immutable 2D coordinate pair. Coordinates are fixed-point
//! integers (thousandths of a unit). The distance between two cities is the
//! Euclidean distance `sqrt(dx^2 + dy^2)` rounded down to an integer, so the
//! metric is a pure function on integers and every tour cost is exact.

use vstd::prelude::*;

verus! {

/// Largest coordinate magnitude the library accepts. Together with
/// [`crate::tour::MAX_CITIES`] it keeps every squared distance inside `i64`
/// and every tour cost inside `u64`.
pub const COORD_LIMIT: i64 = 1_000_000_000;

/// Largest value the distance metric can return for in-bounds cities:
/// the floor of `sqrt(2) * 2 * COORD_LIMIT`.
pub const DIST_MAX: u64 = 2_828_427_124;

/// An immutable 2D coordinate, identified elsewhere by its index in the
/// input sequence.
#[derive(Clone, Copy, PartialEq, Eq, Structural, Debug)]
pub struct City {
    pub x: i64,
    pub y: i64,
}

/// Both coordinates lie within [`COORD_LIMIT`].
pub open spec fn city_in_bounds(c: City) -> bool {
    &&& -COORD_LIMIT <= c.x <= COORD_LIMIT
    &&& -COORD_LIMIT <= c.y <= COORD_LIMIT
}

/// `r` is the square root of `n`, rounded down.
pub open spec fn is_sqrt_floor(n: int, r: int) -> bool {
    &&& 0 <= r
    &&& r * r <= n
    &&& n < (r + 1) * (r + 1)
}

/// The square root of `n`, rounded down (meaningful for `n >= 0`;
/// see [`lemma_sqrt_floor_exists`]).
pub open spec fn sqrt_floor(n: int) -> int {
    choose|r: int| is_sqrt_floor(n, r)
}

/// The squared Euclidean distance between two cities.
pub open spec fn dist2(a: City, b: City) -> int {
    (a.x - b.x) * (a.x - b.x) + (a.y - b.y) * (a.y - b.y)
}

/// The distance metric: Euclidean distance rounded down to an integer.
pub open spec fn dist(a: City, b: City) -> int {
    sqrt_floor(dist2(a, b))
}

/// Every non-negative integer has a rounded-down square root.
pub proof fn lemma_sqrt_floor_exists(n: int)
    requires
        n >= 0,
    ensures
        is_sqrt_floor(n, sqrt_floor(n)),
    decreases n,
{
    if n == 0 {
        assert(is_sqrt_floor(0, 0));
    } else {
        lemma_sqrt_floor_exists(n - 1);
        let r = sqrt_floor(n - 1);
        if (r + 1) * (r + 1) <= n {
            assert((r + 1) * (r + 1) == n);
            assert(n < (r + 2) * (r + 2)) by (nonlinear_arith)
                requires
                    r >= 0,
                    (r + 1) * (r + 1) == n,
            ;
            assert(is_sqrt_floor(n, r + 1));
        } else {
            assert(is_sqrt_floor(n, r));
        }
    }
}

/// The rounded-down square root is unique.
pub proof fn lemma_sqrt_floor_unique(n: int, r1: int, r2: int)
    by (nonlinear_arith)
    requires
        0 <= r1,
        r1 * r1 <= n,
        n < (r1 + 1) * (r1 + 1),
        0 <= r2,
        r2 * r2 <= n,
        n < (r2 + 1) * (r2 + 1),
    ensures
        r1 == r2,
{
}

/// Squared distances are never negative.
pub proof fn lemma_dist2_nonneg(a: City, b: City)
    by (nonlinear_arith)
    ensures
        dist2(a, b) >= 0,
{
}

/// The distance metric is never negative, and satisfies its defining
/// square-root property.
pub proof fn lemma_dist_nonneg(a: City, b: City)
    ensures
        0 <= dist(a, b),
        is_sqrt_floor(dist2(a, b), dist(a, b)),
{
    lemma_dist2_nonneg(a, b);
    lemma_sqrt_floor_exists(dist2(a, b));
}

/// The distance metric is symmetric: `dist(a, b) == dist(b, a)`.
pub proof fn lemma_distance_symmetric(a: City, b: City)
    ensures
        dist(a, b) == dist(b, a),
{
    assert(dist2(a, b) == dist2(b, a)) by (nonlinear_arith);
}

/// The distance from a city to itself is zero.
pub proof fn lemma_distance_self_zero(a: City)
    ensures
        dist(a, a) == 0,
{
    assert(dist2(a, a) == 0);
    lemma_dist_nonneg(a, a);
    lemma_sqrt_floor_unique(0, dist(a, a), 0);
}

/// For in-bounds cities the distance metric never exceeds [`DIST_MAX`].
pub proof fn lemma_dist_bound(a: City, b: City)
    requires
        city_in_bounds(a),
        city_in_bounds(b),
    ensures
        0 <= dist(a, b) <= DIST_MAX,
{
    lemma_dist_nonneg(a, b);
    assert(dist2(a, b) <= 8_000_000_000_000_000_000) by (nonlinear_arith)
        requires
            -COORD_LIMIT <= a.x <= COORD_LIMIT,
            -COORD_LIMIT <= a.y <= COORD_LIMIT,
            -COORD_LIMIT <= b.x <= COORD_LIMIT,
            -COORD_LIMIT <= b.y <= COORD_LIMIT,
    ;
    assert(dist(a, b) <= DIST_MAX as int) by (nonlinear_arith)
        requires
            0 <= dist(a, b),
            dist(a, b) * dist(a, b) <= dist2(a, b),
            dist2(a, b) <= 8_000_000_000_000_000_000,
    ;
}

/// The square root of `n`, rounded down, by binary search.
pub fn isqrt(n: u64) -> (r: u64)
    ensures
        r as int == sqrt_floor(n as int),
        is_sqrt_floor(n as int, r as int),
{
    proof {
        lemma_sqrt_floor_exists(n as int);
    }
    let mut lo: u64 = 0;
    let mut hi: u64 = 4_294_967_296;
    assert(n < 4_294_967_296 * 4_294_967_296);
    while lo + 1 < hi
        invariant
            lo < hi <= 4_294_967_296,
            (lo as int) * (lo as int) <= n as int,
            (n as int) < (hi as int) * (hi as int),
        decreases hi - lo,
    {
        let mid = lo + (hi - lo) / 2;
        assert((mid as int) * (mid as int) < 18446744073709551616) by (nonlinear_arith)
            requires
                mid <= 4_294_967_295,
        ;
        if mid * mid <= n {
            lo = mid;
        } else {
            hi = mid;
        }
    }
    proof {
        assert(is_sqrt_floor(n as int, lo as int));
        lemma_sqrt_floor_unique(n as int, lo as int, sqrt_floor(n as int));
    }
    lo
}

/// The distance between two cities: Euclidean distance rounded down.
pub fn calculate_distance(a: &City, b: &City) -> (r: u64)
    requires
        city_in_bounds(*a),
        city_in_bounds(*b),
    ensures
        r as int == dist(*a, *b),
        r <= DIST_MAX,
{
    let dx: i64 = a.x - b.x;
    let dy: i64 = a.y - b.y;
    assert(0 <= dx * dx <= 4_000_000_000_000_000_000 && 0 <= dy * dy
        <= 4_000_000_000_000_000_000) by (nonlinear_arith)
        requires
            -2_000_000_000 <= dx <= 2_000_000_000,
            -2_000_000_000 <= dy <= 2_000_000_000,
    ;
    let d2: u64 = (dx * dx + dy * dy) as u64;
    let r = isqrt(d2);
    proof {
        lemma_dist_bound(*a, *b);
        lemma_sqrt_floor_unique(d2 as int, r as int, dist(*a, *b));
    }
    r
}

} // verus!
