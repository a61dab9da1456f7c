//! Reshaping of per-time-step temperature readings into one series per core.

pub mod input;
pub mod laws;
pub mod model;
pub mod preprocess;
