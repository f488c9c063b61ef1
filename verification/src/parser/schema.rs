//! The profile of one transaction: total gas, HostIO usage and hot paths.

use vstd::prelude::*;
use crate::strmap::StrMap;

verus! {

/// Where the gas of a hot path was spent.
#[derive(Clone, Copy, Debug, PartialEq, Eq)]
pub enum GasCategory {
    UserCode,
    HostIo,
    Storage,
    Other,
}

/// Summary of the HostIO calls of a transaction.
#[derive(Clone, Debug)]
pub struct HostIoSummary {
    pub total_calls: u64,
    /// Number of calls per HostIO type.
    pub by_type: StrMap<u64>,
    pub total_hostio_gas: u64,
}

/// One execution stack and the gas spent in it.
#[derive(Clone, Debug)]
pub struct HotPath {
    /// Frames separated by `;`.
    pub stack: String,
    pub gas: u64,
    /// Share of the total gas, in hundredths of a percent.
    pub percentage: u64,
    pub category: GasCategory,
    pub source_hint: Option<String>,
}

/// A captured transaction profile.
#[derive(Clone, Debug)]
pub struct Profile {
    pub version: String,
    pub transaction_hash: String,
    pub total_gas: u64,
    pub hostio_summary: HostIoSummary,
    pub hot_paths: Vec<HotPath>,
    /// Folded execution stacks, when the capture kept them.
    pub all_stacks: Option<Vec<String>>,
    pub generated_at: String,
}

} // verus!
