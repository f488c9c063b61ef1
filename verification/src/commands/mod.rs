//! The decisions of the command-line commands.

pub mod diff;
