//! Tours and their cost.
//!
//! A tour is a permutation of the city indices `0 .. N-1`, read cyclically:
//! after the last city the tour returns to the first. Its cost is the sum of
//! the distance metric over every edge of the cycle.

use vstd::prelude::*;
use vstd::set_lib::{lemma_int_range, set_int_range};
use crate::geometry::{
    City, DIST_MAX, calculate_distance, city_in_bounds, dist, lemma_dist_nonneg,
};

verus! {

/// Largest number of cities the library accepts. Together with
/// [`crate::geometry::COORD_LIMIT`] it keeps every tour cost inside `u64`.
pub const MAX_CITIES: usize = 1_000_000;

/// `t` is a tour over `n` cities: a permutation of the indices `0 .. n-1`.
pub open spec fn is_tour(t: Seq<usize>, n: nat) -> bool {
    &&& t.len() == n
    &&& forall|i: int| 0 <= i < n ==> (#[trigger] t[i]) < n
    &&& forall|i: int, j: int| 0 <= i < n && 0 <= j < n && i != j ==> t[i] != t[j]
}

/// The identity tour: cities in input order.
pub open spec fn identity_tour(n: nat) -> Seq<usize> {
    Seq::new(n, |i: int| i as usize)
}

/// The position that follows `i` on a cyclic tour of length `n`.
pub open spec fn next_pos(i: int, n: int) -> int {
    if i + 1 == n {
        0
    } else {
        i + 1
    }
}

/// The cost of the edge leaving position `i` of the tour.
pub open spec fn edge_cost(t: Seq<usize>, c: Seq<City>, i: int) -> int {
    dist(c[t[i] as int], c[t[next_pos(i, t.len() as int)] as int])
}

/// The sum of the edge costs at positions `lo <= i < hi`.
pub open spec fn edges_sum(t: Seq<usize>, c: Seq<City>, lo: int, hi: int) -> int
    decreases hi - lo,
{
    if lo >= hi {
        0
    } else {
        edge_cost(t, c, lo) + edges_sum(t, c, lo + 1, hi)
    }
}

/// The total cost of the cyclic tour `t` over the city table `c`: the sum of
/// the distances between consecutive cities, plus the distance from the last
/// city back to the first.
pub open spec fn tour_cost(t: Seq<usize>, c: Seq<City>) -> int {
    edges_sum(t, c, 0, t.len() as int)
}

/// `t` rotated left by `k` positions: the same cycle, started `k` cities in.
pub open spec fn rotate(t: Seq<usize>, k: int) -> Seq<usize> {
    t.subrange(k, t.len() as int) + t.subrange(0, k)
}

proof fn lemma_edges_sum_extend(t: Seq<usize>, c: Seq<City>, lo: int, hi: int)
    requires
        lo <= hi,
    ensures
        edges_sum(t, c, lo, hi + 1) == edges_sum(t, c, lo, hi) + edge_cost(t, c, hi),
    decreases hi - lo,
{
    if lo < hi {
        lemma_edges_sum_extend(t, c, lo + 1, hi);
    } else {
        assert(edges_sum(t, c, hi + 1, hi + 1) == 0);
    }
}

proof fn lemma_edges_sum_nonneg(t: Seq<usize>, c: Seq<City>, lo: int, hi: int)
    ensures
        edges_sum(t, c, lo, hi) >= 0,
    decreases hi - lo,
{
    if lo < hi {
        lemma_dist_nonneg(c[t[lo] as int], c[t[next_pos(lo, t.len() as int)] as int]);
        lemma_edges_sum_nonneg(t, c, lo + 1, hi);
    }
}

proof fn lemma_edges_sum_shift(t1: Seq<usize>, t2: Seq<usize>, c: Seq<City>, lo: int, hi: int)
    requires
        lo <= hi,
        forall|i: int| lo <= i < hi ==> #[trigger] edge_cost(t1, c, i) == edge_cost(t2, c, i + 1),
    ensures
        edges_sum(t1, c, lo, hi) == edges_sum(t2, c, lo + 1, hi + 1),
    decreases hi - lo,
{
    if lo < hi {
        lemma_edges_sum_shift(t1, t2, c, lo + 1, hi);
    }
}

/// A tour's cost is never negative.
pub proof fn lemma_tour_cost_nonneg(t: Seq<usize>, c: Seq<City>)
    ensures
        tour_cost(t, c) >= 0,
{
    lemma_edges_sum_nonneg(t, c, 0, t.len() as int);
}

proof fn lemma_tour_cost_rotate_one(t: Seq<usize>, c: Seq<City>)
    requires
        t.len() >= 1,
    ensures
        tour_cost(rotate(t, 1), c) == tour_cost(t, c),
{
    let n = t.len() as int;
    let t1 = rotate(t, 1);
    if n == 1 {
        assert(t1 =~= t);
    } else {
        assert(forall|j: int| 0 <= j < n - 1 ==> t1[j] == t[j + 1]);
        assert(t1[n - 1] == t[0]);
        assert forall|i: int| 0 <= i < n - 1 implies #[trigger] edge_cost(t1, c, i)
            == edge_cost(t, c, i + 1) by {
            if i + 1 == n - 1 {
                assert(next_pos(i, n) == n - 1);
                assert(next_pos(i + 1, n) == 0);
            } else {
                assert(next_pos(i, n) == i + 1);
                assert(next_pos(i + 1, n) == i + 2);
            }
        }
        lemma_edges_sum_shift(t1, t, c, 0, n - 1);
        lemma_edges_sum_extend(t1, c, 0, n - 1);
        assert(edge_cost(t1, c, n - 1) == edge_cost(t, c, 0));
    }
}

/// Cyclic rotation does not change a tour's cost: the total distance depends
/// only on the cycle, not on which city the sequence starts at.
pub proof fn lemma_tour_cost_rotation(t: Seq<usize>, c: Seq<City>, k: int)
    requires
        0 <= k <= t.len(),
    ensures
        tour_cost(rotate(t, k), c) == tour_cost(t, c),
    decreases k,
{
    if k == 0 {
        assert(rotate(t, 0) =~= t);
    } else {
        lemma_tour_cost_rotation(t, c, k - 1);
        assert(rotate(t, k) =~= rotate(rotate(t, k - 1), 1));
        lemma_tour_cost_rotate_one(rotate(t, k - 1), c);
    }
}

/// A tour visits every city: each index below `n` appears somewhere in the
/// sequence (and, the entries being distinct, exactly once).
pub proof fn lemma_tour_visits_all(t: Seq<usize>, n: nat)
    requires
        is_tour(t, n),
    ensures
        forall|v: usize| v < n ==> #[trigger] t.contains(v),
{
    let ti = t.map(|i: int, v: usize| v as int);
    assert(forall|i: int| 0 <= i < n ==> ti[i] == (#[trigger] t[i]) as int);
    assert(ti.no_duplicates());
    ti.unique_seq_to_set();
    assert forall|v: usize| v < n implies #[trigger] t.contains(v) by {
        if !t.contains(v) {
            let range = set_int_range(0, n as int);
            lemma_int_range(0, n as int);
            assert(ti.to_set().subset_of(range)) by {
                assert forall|x: int| ti.to_set().contains(x) implies range.contains(x) by {
                    let k = choose|k: int| 0 <= k < ti.len() && ti[k] == x;
                    assert(t[k] < n);
                }
            }
            assert(!ti.to_set().contains(v as int)) by {
                if ti.to_set().contains(v as int) {
                    let k = choose|k: int| 0 <= k < ti.len() && ti[k] == v as int;
                    assert(t[k] == v);
                    assert(t.contains(v));
                }
            }
            ti.to_set().lemma_subset_not_in_lt(range, v as int);
            assert(false);
        }
    }
}

/// The identity tour over `n` cities.
pub fn initial_tour(n: usize) -> (t: Vec<usize>)
    ensures
        t@ == identity_tour(n as nat),
        is_tour(t@, n as nat),
{
    let mut t: Vec<usize> = Vec::new();
    let mut i: usize = 0;
    while i < n
        invariant
            i <= n,
            t@.len() == i,
            forall|k: int| 0 <= k < i ==> (#[trigger] t@[k]) as int == k,
        decreases n - i,
    {
        t.push(i);
        i = i + 1;
    }
    proof {
        assert(t@ =~= identity_tour(n as nat));
    }
    t
}

/// The total distance of a cyclic route over the city table.
pub fn total_distance(route: &Vec<usize>, cities: &Vec<City>) -> (r: u64)
    requires
        1 <= route@.len() <= MAX_CITIES,
        forall|i: int| 0 <= i < route@.len() ==> (#[trigger] route@[i]) < cities@.len(),
        forall|i: int| 0 <= i < cities@.len() ==> city_in_bounds(#[trigger] cities@[i]),
    ensures
        r as int == tour_cost(route@, cities@),
{
    let n = route.len();
    let mut total: u64 = 0;
    let mut i: usize = 0;
    while i < n
        invariant
            i <= n,
            n == route@.len(),
            1 <= n <= MAX_CITIES,
            forall|k: int| 0 <= k < route@.len() ==> (#[trigger] route@[k]) < cities@.len(),
            forall|k: int| 0 <= k < cities@.len() ==> city_in_bounds(#[trigger] cities@[k]),
            total as int == edges_sum(route@, cities@, 0, i as int),
            total as int <= (i as int) * (DIST_MAX as int),
        decreases n - i,
    {
        let from = route[i];
        let to = if i + 1 == n {
            route[0]
        } else {
            route[i + 1]
        };
        let d = calculate_distance(&cities[from], &cities[to]);
        proof {
            assert(edge_cost(route@, cities@, i as int) == d as int);
            lemma_edges_sum_extend(route@, cities@, 0, i as int);
            assert((i as int + 1) * (DIST_MAX as int) == (i as int) * (DIST_MAX as int)
                + DIST_MAX as int) by (nonlinear_arith);
            assert((i as int + 1) * (DIST_MAX as int) <= (MAX_CITIES as int) * (
            DIST_MAX as int)) by (nonlinear_arith)
                requires
                    i as int + 1 <= MAX_CITIES as int,
            ;
        }
        total = total + d;
        i = i + 1;
    }
    total
}

} // verus!
