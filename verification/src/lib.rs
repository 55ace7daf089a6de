pub mod engine;
pub mod games;
