//! Approximate solver for the Euclidean traveling salesman problem,
//! based on simulated annealing.
//!
//! All lengths are fixed-point numbers: coordinates, distances and
//! temperatures are integers counted in thousandths of a unit (see
//! [`solver::SCALE`]). The distance between two cities is the Euclidean
//! distance rounded down to the nearest fixed-point step, which keeps the
//! whole search in integer arithmetic.

pub mod geometry;
pub mod solver;
pub mod tour;
