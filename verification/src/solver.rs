//! The simulated-annealing solver.
//!
//! [`AnnealingSolver::solve`] starts from the identity tour and repeatedly
//! swaps two random positions (position 0 is kept as the cycle's anchor, a
//! policy the cost's rotation invariance makes harmless). An improving or
//! equal-cost move is always accepted; a worsening move is accepted or
//! rejected by the injected [`Sampler`], which is meant to apply the
//! Metropolis criterion. The temperature decays geometrically until it
//! reaches one unit, which bounds the number of iterations independently of
//! the input.

use vstd::prelude::*;
use vstd::arithmetic::div_mod::{lemma_fundamental_div_mod, lemma_mod_bound};
use crate::geometry::{City, city_in_bounds};
use crate::tour::{MAX_CITIES, identity_tour, initial_tour, is_tour, total_distance, tour_cost};

verus! {

/// Fixed-point scale: lengths and temperatures count thousandths of a unit,
/// so a temperature of one unit is `SCALE`.
pub const SCALE: u64 = 1000;

/// Default initial temperature: ten thousand units, in thousandths.
pub const DEFAULT_INITIAL_TEMPERATURE: u64 = 10_000_000;

/// Default cooling rate, as the fraction 995 / 1000.
pub const DEFAULT_COOLING_NUMERATOR: u64 = 995;

/// Denominator of the default cooling rate.
pub const DEFAULT_COOLING_DENOMINATOR: u64 = 1000;

/// Largest initial temperature and cooling denominator the solver accepts;
/// it keeps the temperature decay inside `u64`.
pub const SCHEDULE_LIMIT: u64 = 4_294_967_295;

/// Why the solver refused to run.
#[derive(Clone, Copy, PartialEq, Eq, Structural, Debug)]
pub enum SolveError {
    /// Fewer than two cities were supplied.
    InvalidInput,
    /// The annealing schedule was rejected at construction.
    InvalidConfiguration,
}

/// The randomness the solver consumes, supplied by the caller so that runs
/// can be seeded and reproduced.
///
/// The solver is correct for every implementation: its guarantees (the result
/// is a permutation, its cost is exact, and it never exceeds the identity
/// tour's cost) do not depend on the draws. The intended distributions are:
///
/// * `next_index(bound)` returns a uniform draw from `0 .. bound`;
/// * `accept_worse(delta, temperature)` returns true with probability
///   `exp(-delta / temperature)`, the Metropolis criterion (`delta` and
///   `temperature` share one fixed-point scale, so the ratio is scale-free).
pub trait Sampler {
    /// A draw from `0 .. bound`.
    fn next_index(&mut self, bound: usize) -> usize;

    /// Whether to accept a move that worsens the cost by `delta` at the
    /// given temperature.
    fn accept_worse(&mut self, delta: u64, temperature: u64) -> bool;
}

/// The annealing schedule is usable: the temperature is positive, the
/// cooling fraction is strictly between zero and one, and both stay small
/// enough that the decay arithmetic fits in `u64`.
pub open spec fn valid_config(
    initial_temperature: u64,
    cooling_numerator: u64,
    cooling_denominator: u64,
) -> bool {
    &&& 1 <= initial_temperature <= SCHEDULE_LIMIT
    &&& 0 < cooling_numerator < cooling_denominator <= SCHEDULE_LIMIT
}

/// A simulated-annealing solver with a validated schedule.
pub struct AnnealingSolver {
    initial_temperature: u64,
    cooling_numerator: u64,
    cooling_denominator: u64,
}

impl AnnealingSolver {
    /// The schedule held by this solver was validated at construction.
    pub closed spec fn wf(&self) -> bool {
        valid_config(self.initial_temperature, self.cooling_numerator, self.cooling_denominator)
    }

    /// The schedule this solver runs: initial temperature, cooling
    /// numerator, cooling denominator.
    pub closed spec fn schedule(&self) -> (u64, u64, u64) {
        (self.initial_temperature, self.cooling_numerator, self.cooling_denominator)
    }

    /// A solver with the given schedule: initial temperature in thousandths
    /// of a unit, cooling rate as the fraction `numerator / denominator`.
    /// A schedule outside [`valid_config`] is rejected.
    pub fn new(
        initial_temperature: u64,
        cooling_numerator: u64,
        cooling_denominator: u64,
    ) -> (r: Result<Self, SolveError>)
        ensures
            valid_config(initial_temperature, cooling_numerator, cooling_denominator)
                ==> (r matches Ok(s) && s.wf() && s.schedule() == (
            initial_temperature,
            cooling_numerator,
            cooling_denominator,
            )),
            !valid_config(initial_temperature, cooling_numerator, cooling_denominator)
                ==> (r matches Err(e) && e == SolveError::InvalidConfiguration),
    {
        if 1 <= initial_temperature && initial_temperature <= SCHEDULE_LIMIT
            && 0 < cooling_numerator && cooling_numerator < cooling_denominator
            && cooling_denominator <= SCHEDULE_LIMIT {
            Ok(AnnealingSolver { initial_temperature, cooling_numerator, cooling_denominator })
        } else {
            Err(SolveError::InvalidConfiguration)
        }
    }

    /// A solver with the default schedule: initial temperature of ten
    /// thousand units, cooling rate 0.995.
    pub fn with_default_schedule() -> (s: Self)
        ensures
            s.wf(),
            s.schedule() == (
                DEFAULT_INITIAL_TEMPERATURE,
                DEFAULT_COOLING_NUMERATOR,
                DEFAULT_COOLING_DENOMINATOR,
            ),
    {
        AnnealingSolver {
            initial_temperature: DEFAULT_INITIAL_TEMPERATURE,
            cooling_numerator: DEFAULT_COOLING_NUMERATOR,
            cooling_denominator: DEFAULT_COOLING_DENOMINATOR,
        }
    }
}

/// A swap position drawn from `1 .. n`: position 0 stays the cycle's anchor.
/// A sampler draw outside its bound falls back to position 1, which keeps
/// the solver total for every `Sampler` implementation.
fn pick_position<S: Sampler>(sampler: &mut S, n: usize) -> (p: usize)
    requires
        n >= 2,
    ensures
        1 <= p < n,
{
    let raw = sampler.next_index(n - 1);
    if raw < n - 1 {
        raw + 1
    } else {
        1
    }
}

/// Swaps the entries at positions `i` and `j`.
fn swap_positions(t: &mut Vec<usize>, i: usize, j: usize)
    requires
        i < old(t)@.len(),
        j < old(t)@.len(),
    ensures
        final(t)@ == old(t)@.update(i as int, old(t)@[j as int]).update(
            j as int,
            old(t)@[i as int],
        ),
{
    let vi = t[i];
    let vj = t[j];
    t.set(i, vj);
    t.set(j, vi);
}

/// Copies a route.
fn copy_tour(t: &Vec<usize>) -> (r: Vec<usize>)
    ensures
        r@ == t@,
{
    let mut r: Vec<usize> = Vec::new();
    let mut i: usize = 0;
    while i < t.len()
        invariant
            i <= t@.len(),
            r@ == t@.subrange(0, i as int),
        decreases t@.len() - i,
    {
        r.push(t[i]);
        i = i + 1;
        proof {
            assert(r@ =~= t@.subrange(0, i as int));
        }
    }
    proof {
        assert(r@ =~= t@);
    }
    r
}

/// Swapping two in-range positions of a tour leaves a tour: the entries are
/// permuted, so they remain distinct indices below `n`.
proof fn lemma_swap_preserves_tour(t: Seq<usize>, n: nat, i: int, j: int)
    requires
        is_tour(t, n),
        0 <= i < n,
        0 <= j < n,
    ensures
        is_tour(t.update(i, t[j]).update(j, t[i]), n),
{
    let t2 = t.update(i, t[j]).update(j, t[i]);
    assert(forall|k: int|
        0 <= k < n ==> (#[trigger] t2[k]) == if k == j {
            t[i]
        } else if k == i {
            t[j]
        } else {
            t[k]
        });
}

/// One geometric decay step strictly shrinks a positive temperature and
/// keeps it non-negative.
proof fn lemma_decay_shrinks(t: int, num: int, den: int)
    requires
        1 <= t,
        0 < num < den,
    ensures
        0 <= (t * num) / den < t,
{
    let x = t * num;
    assert(0 < x) by (nonlinear_arith)
        requires
            x == t * num,
            t >= 1,
            num > 0,
    ;
    lemma_fundamental_div_mod(x, den);
    lemma_mod_bound(x, den);
    assert(x / den < t) by (nonlinear_arith)
        requires
            den * (x / den) + (x % den) == x,
            x % den >= 0,
            x == t * num,
            num < den,
            den > 0,
            t >= 1,
    ;
    assert(x / den >= 0) by (nonlinear_arith)
        requires
            den * (x / den) + (x % den) == x,
            x % den < den,
            x > 0,
            den > 0,
    ;
}

impl AnnealingSolver {
    /// Approximates a shortest cyclic tour of `cities` by simulated
    /// annealing, driven by the injected `sampler`.
    ///
    /// With fewer than two cities there is no tour and the solver fails with
    /// [`SolveError::InvalidInput`] before entering the loop. Otherwise it
    /// returns the best tour seen and that tour's exact cost, which never
    /// exceeds the cost of the identity tour it started from.
    pub fn solve<S: Sampler>(&self, cities: &Vec<City>, sampler: &mut S) -> (r: Result<
        (Vec<usize>, u64),
        SolveError,
    >)
        requires
            self.wf(),
            cities@.len() <= MAX_CITIES,
            forall|i: int| 0 <= i < cities@.len() ==> city_in_bounds(#[trigger] cities@[i]),
        ensures
            r is Ok <==> cities@.len() >= 2,
            r matches Err(e) ==> e == SolveError::InvalidInput,
            r matches Ok(p) ==> is_tour(p.0@, cities@.len())
                && p.1 as int == tour_cost(p.0@, cities@)
                && p.1 as int <= tour_cost(identity_tour(cities@.len()), cities@),
    {
        let n = cities.len();
        if n < 2 {
            return Err(SolveError::InvalidInput);
        }
        let mut current = initial_tour(n);
        let mut current_cost = total_distance(&current, cities);
        let mut best = copy_tour(&current);
        let mut best_cost = current_cost;
        let ghost init_cost = tour_cost(identity_tour(n as nat), cities@);
        let mut temperature = self.initial_temperature;
        while temperature > SCALE
            invariant
                self.wf(),
                n == cities@.len(),
                2 <= n <= MAX_CITIES,
                forall|k: int| 0 <= k < cities@.len() ==> city_in_bounds(#[trigger] cities@[k]),
                is_tour(current@, n as nat),
                is_tour(best@, n as nat),
                current_cost as int == tour_cost(current@, cities@),
                best_cost as int == tour_cost(best@, cities@),
                best_cost <= current_cost,
                best_cost as int <= init_cost,
                init_cost == tour_cost(identity_tour(n as nat), cities@),
                temperature <= SCHEDULE_LIMIT,
            decreases temperature,
        {
            let i = pick_position(sampler, n);
            let j = pick_position(sampler, n);
            let ghost before = current@;
            swap_positions(&mut current, i, j);
            proof {
                lemma_swap_preserves_tour(before, n as nat, i as int, j as int);
            }
            let new_cost = total_distance(&current, cities);
            let accept = if new_cost <= current_cost {
                true
            } else {
                sampler.accept_worse(new_cost - current_cost, temperature)
            };
            if accept {
                current_cost = new_cost;
            } else {
                swap_positions(&mut current, i, j);
                proof {
                    assert(current@ =~= before);
                }
            }
            if current_cost < best_cost {
                best = copy_tour(&current);
                best_cost = current_cost;
            }
            proof {
                lemma_decay_shrinks(
                    temperature as int,
                    self.cooling_numerator as int,
                    self.cooling_denominator as int,
                );
                assert(temperature * self.cooling_numerator <= 18446744073709551615) by (
                nonlinear_arith)
                    requires
                        temperature <= 4_294_967_295,
                        self.cooling_numerator <= 4_294_967_295,
                ;
            }
            temperature = temperature * self.cooling_numerator / self.cooling_denominator;
        }
        Ok((best, best_cost))
    }
}

} // verus!
