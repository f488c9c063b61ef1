//! Comparing two profiles: deltas, thresholds and the terminal summary.

pub mod schema;
pub mod engine;
pub mod threshold;
pub mod style;
pub mod output;
