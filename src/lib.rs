//! A generic evolutionary-computation engine: chromosomes scored by a caller's fitness
//! function evolve through selection, crossover, mutation and reinsertion until a
//! termination condition holds.
pub mod algorithm;
pub mod chromosome;
pub mod crossover;
pub mod generation;
pub mod mutation;
pub mod problem;
pub mod random;
pub mod reinsertion;
pub mod selection;
pub mod termination;
pub mod tracking;
pub mod utility;

pub use algorithm::Algorithm;
pub use crossover::Crossover;
pub use mutation::Mutation;
pub use problem::{Permutation, Problem, UniformProblem};
pub use reinsertion::Reinsertion;
pub use selection::Selection;
pub use termination::Termination;
