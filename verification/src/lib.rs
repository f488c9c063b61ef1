//! Verified core of a gas-profile comparison tool for Arbitrum Stylus
//! transactions: diffing two profiles, checking regression thresholds,
//! rendering the terminal summary and assembling the HTML viewer.

pub mod text;
pub mod percent;
pub mod double;
pub mod strmap;
pub mod order;
pub mod parser;
pub mod diff;
pub mod output;
pub mod paths;
pub mod commands;
pub mod cli;
