use rand::{Rng, SeedableRng};
use traveling_salesman::geometry::City;
use traveling_salesman::solver::{AnnealingSolver, Sampler, SolveError};
use traveling_salesman::tour::total_distance;

fn city(x: i64, y: i64) -> City {
    City { x, y }
}

/// A small seeded linear-congruential generator, so that runs are
/// reproducible without any outside crate.
struct LcgSampler {
    state: u64,
}

impl LcgSampler {
    fn new(seed: u64) -> Self {
        LcgSampler { state: seed }
    }

    fn next_u64(&mut self) -> u64 {
        self.state = self
            .state
            .wrapping_mul(6364136223846793005)
            .wrapping_add(1442695040888963407);
        self.state
    }
}

impl Sampler for LcgSampler {
    fn next_index(&mut self, bound: usize) -> usize {
        if bound == 0 {
            0
        } else {
            (self.next_u64() % bound as u64) as usize
        }
    }

    fn accept_worse(&mut self, delta: u64, temperature: u64) -> bool {
        let prob = (-(delta as f64) / (temperature as f64)).exp();
        let uniform = (self.next_u64() >> 11) as f64 / (1u64 << 53) as f64;
        uniform < prob
    }
}

/// A sampler backed by rand's seedable generator.
struct StdRngSampler {
    rng: rand::rngs::StdRng,
}

impl Sampler for StdRngSampler {
    fn next_index(&mut self, bound: usize) -> usize {
        if bound == 0 {
            0
        } else {
            self.rng.gen_range(0..bound)
        }
    }

    fn accept_worse(&mut self, delta: u64, temperature: u64) -> bool {
        let prob = (-(delta as f64) / (temperature as f64)).exp();
        self.rng.gen::<f64>() < prob
    }
}

fn assert_visits_each_once(tour: &[usize], n: usize) {
    assert_eq!(tour.len(), n);
    let mut seen = vec![false; n];
    for &c in tour {
        assert!(c < n);
        assert!(!seen[c]);
        seen[c] = true;
    }
}

#[test]
fn solve_rejects_zero_cities() {
    let solver = AnnealingSolver::with_default_schedule();
    let mut sampler = LcgSampler::new(1);
    let cities: Vec<City> = Vec::new();
    assert!(matches!(
        solver.solve(&cities, &mut sampler),
        Err(SolveError::InvalidInput)
    ));
}

#[test]
fn solve_rejects_one_city() {
    let solver = AnnealingSolver::with_default_schedule();
    let mut sampler = LcgSampler::new(1);
    let cities = vec![city(10, 10)];
    assert!(matches!(
        solver.solve(&cities, &mut sampler),
        Err(SolveError::InvalidInput)
    ));
}

#[test]
fn config_rejects_zero_temperature() {
    assert!(matches!(
        AnnealingSolver::new(0, 995, 1000),
        Err(SolveError::InvalidConfiguration)
    ));
}

#[test]
fn config_rejects_cooling_rate_of_one_or_more() {
    assert!(matches!(
        AnnealingSolver::new(10_000_000, 1000, 1000),
        Err(SolveError::InvalidConfiguration)
    ));
    assert!(matches!(
        AnnealingSolver::new(10_000_000, 1001, 1000),
        Err(SolveError::InvalidConfiguration)
    ));
    assert!(matches!(
        AnnealingSolver::new(10_000_000, 0, 1000),
        Err(SolveError::InvalidConfiguration)
    ));
}

#[test]
fn config_accepts_default_schedule() {
    assert!(AnnealingSolver::new(10_000_000, 995, 1000).is_ok());
}

#[test]
fn solve_two_cities_exact() {
    // With two cities every tour is the same cycle: the round trip over the
    // 3-4-5 edge costs exactly 10.0.
    let solver = AnnealingSolver::with_default_schedule();
    let mut sampler = LcgSampler::new(7);
    let cities = vec![city(0, 0), city(3000, 4000)];
    let (tour, cost) = solver.solve(&cities, &mut sampler).unwrap();
    assert_eq!(cost, 10000);
    assert_visits_each_once(&tour, 2);
}

#[test]
fn solve_unit_square() {
    // The unit square in perimeter order: the optimum is the perimeter, 4.0,
    // and the best tour can never regress past the identity start.
    let solver = AnnealingSolver::with_default_schedule();
    let mut sampler = LcgSampler::new(3);
    let cities = vec![city(0, 0), city(0, 1000), city(1000, 1000), city(1000, 0)];
    let (tour, cost) = solver.solve(&cities, &mut sampler).unwrap();
    assert_eq!(cost, 4000);
    assert_visits_each_once(&tour, 4);
}

#[test]
fn solve_unit_square_shuffled_start() {
    // The same square with its corners supplied out of order: the identity
    // tour crosses the diagonals, and annealing finds the perimeter.
    let solver = AnnealingSolver::with_default_schedule();
    let mut sampler = LcgSampler::new(3);
    let cities = vec![city(0, 0), city(1000, 1000), city(0, 1000), city(1000, 0)];
    let (tour, cost) = solver.solve(&cities, &mut sampler).unwrap();
    assert_eq!(cost, 4000);
    assert_visits_each_once(&tour, 4);
}

#[test]
fn solve_never_worse_than_identity() {
    let solver = AnnealingSolver::with_default_schedule();
    let mut sampler = LcgSampler::new(99);
    let cities = vec![
        city(0, 0),
        city(9000, 2000),
        city(-4000, 7000),
        city(3000, -8000),
        city(-6000, -1000),
        city(2000, 2000),
        city(7000, 7000),
    ];
    let identity: Vec<usize> = (0..cities.len()).collect();
    let identity_cost = total_distance(&identity, &cities);
    let (tour, cost) = solver.solve(&cities, &mut sampler).unwrap();
    assert!(cost <= identity_cost);
    assert_eq!(cost, total_distance(&tour, &cities));
    assert_visits_each_once(&tour, cities.len());
}

#[test]
fn solve_reproducible_fixed_seed() {
    let solver = AnnealingSolver::with_default_schedule();
    let cities = vec![
        city(0, 0),
        city(9000, 2000),
        city(-4000, 7000),
        city(3000, -8000),
        city(-6000, -1000),
        city(2000, 2000),
    ];
    let mut first = LcgSampler::new(42);
    let mut second = LcgSampler::new(42);
    let a = solver.solve(&cities, &mut first).unwrap();
    let b = solver.solve(&cities, &mut second).unwrap();
    assert_eq!(a.0, b.0);
    assert_eq!(a.1, b.1);
}

#[test]
fn solve_reproducible_seeded_std_rng() {
    let solver = AnnealingSolver::with_default_schedule();
    let cities = vec![
        city(0, 0),
        city(9000, 2000),
        city(-4000, 7000),
        city(3000, -8000),
        city(-6000, -1000),
        city(2000, 2000),
    ];
    let mut first = StdRngSampler { rng: rand::rngs::StdRng::seed_from_u64(7) };
    let mut second = StdRngSampler { rng: rand::rngs::StdRng::seed_from_u64(7) };
    let a = solver.solve(&cities, &mut first).unwrap();
    let b = solver.solve(&cities, &mut second).unwrap();
    assert_eq!(a.0, b.0);
    assert_eq!(a.1, b.1);
}

#[test]
fn solve_full_instance() {
    // The 48-point instance the library ships as its example input, in
    // thousandths of a unit.
    let raw: [[i64; 2]; 48] = [
        [6734, 1453], [2233, 10], [5530, 1424], [401, 841],
        [3082, 1644], [7608, 4458], [7573, 3716], [7265, 1268],
        [6898, 1885], [1112, 2049], [5468, 2606], [5989, 2873],
        [4706, 2674], [4612, 2035], [6347, 2683], [6107, 669],
        [7611, 5184], [7462, 3590], [7732, 4723], [5900, 3561],
        [4483, 3369], [6101, 1110], [5199, 2182], [1633, 2809],
        [4307, 2322], [675, 1006], [7555, 4819], [7541, 3981],
        [3177, 756], [7352, 4506], [7545, 2801], [3245, 3305],
        [6426, 3173], [4608, 1198], [23, 2216], [7248, 3779],
        [7762, 4595], [7392, 2244], [3484, 2829], [6271, 2135],
        [4985, 140], [1916, 1569], [7280, 4899], [7509, 3239],
        [10, 2676], [6807, 2993], [5185, 3258], [3023, 1942],
    ];
    let cities: Vec<City> = raw.iter().map(|p| city(p[0] * 1000, p[1] * 1000)).collect();
    let identity: Vec<usize> = (0..cities.len()).collect();
    let identity_cost = total_distance(&identity, &cities);
    let solver = AnnealingSolver::with_default_schedule();
    let mut sampler = LcgSampler::new(2024);
    let (tour, cost) = solver.solve(&cities, &mut sampler).unwrap();
    assert_visits_each_once(&tour, 48);
    assert_eq!(cost, total_distance(&tour, &cities));
    assert!(cost <= identity_cost);
}
