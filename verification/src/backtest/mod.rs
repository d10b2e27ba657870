//! Backtests: configuration, ticks to be played, signals and what they do.

pub mod capital;
pub mod data_index;
pub mod engine;
pub mod multi;
pub mod paper;
pub mod play;
pub mod signal;
