//! Profile data as captured from a transaction trace.

pub mod schema;
