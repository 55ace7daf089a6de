pub mod bits;
pub mod board;
pub mod commands;
pub mod figure;
pub mod heuristic;
pub mod simulator;
pub mod solver;

pub use solver::Solver;

