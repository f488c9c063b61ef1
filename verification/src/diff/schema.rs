//! The diff report: deltas between two profiles, threshold violations,
//! the overall verdict and optimisation insights.

use vstd::prelude::*;
use crate::percent::Percentage;
use crate::strmap::StrMap;

verus! {

/// Identity of a compared profile.
#[derive(Debug)]
pub struct ProfileMetadata {
    pub transaction_hash: String,
    pub total_gas: u64,
    pub generated_at: String,
}

/// Change of the total gas.
#[derive(Clone, Copy, Debug, PartialEq, Eq)]
pub struct GasDelta {
    pub baseline: u64,
    pub target: u64,
    pub absolute_change: i64,
    pub percent_change: Percentage,
}

/// Change of the call count of one HostIO type.
#[derive(Clone, Copy, Debug, PartialEq, Eq)]
pub struct HostIoTypeChange {
    pub baseline: u64,
    pub target: u64,
    pub delta: i64,
}

/// Change of the HostIO calls.
#[derive(Debug)]
pub struct HostIoDelta {
    pub baseline_total_calls: u64,
    pub target_total_calls: u64,
    pub total_calls_change: i64,
    pub total_calls_percent_change: Percentage,
    pub by_type_changes: StrMap<HostIoTypeChange>,
}

impl Default for HostIoDelta {
    fn default() -> (d: Self)
        ensures
            d.baseline_total_calls == 0,
            d.target_total_calls == 0,
            d.total_calls_change == 0,
            d.total_calls_percent_change == (Percentage { change: 0, base: 0 }),
            d.by_type_changes.entries().len() == 0,
    {
        HostIoDelta {
            baseline_total_calls: 0,
            target_total_calls: 0,
            total_calls_change: 0,
            total_calls_percent_change: Percentage { change: 0, base: 0 },
            by_type_changes: StrMap::new(),
        }
    }
}

/// Gas of one execution stack present in both profiles.
#[derive(Debug)]
pub struct HotPathComparison {
    pub stack: String,
    /// Baseline gas, in ink.
    pub baseline_gas: u64,
    /// Target gas, in ink.
    pub target_gas: u64,
    pub gas_change: i64,
    pub percent_change: Percentage,
}

/// Changes of the hot paths.
#[derive(Debug)]
pub struct HotPathsDelta {
    /// Stacks present in both profiles, in baseline order.
    pub common_paths: Vec<HotPathComparison>,
    /// Stacks only the target has.
    pub new_paths: Vec<String>,
    /// Stacks only the baseline has.
    pub removed_paths: Vec<String>,
}

impl Default for HotPathsDelta {
    fn default() -> (d: Self)
        ensures
            d.common_paths@.len() == 0,
            d.new_paths@.len() == 0,
            d.removed_paths@.len() == 0,
    {
        HotPathsDelta { common_paths: Vec::new(), new_paths: Vec::new(), removed_paths: Vec::new() }
    }
}

/// All deltas of a comparison.
#[derive(Debug)]
pub struct Deltas {
    pub gas: GasDelta,
    pub hostio: HostIoDelta,
    pub hot_paths: HotPathsDelta,
}

/// A threshold that the target exceeded.
#[derive(Debug)]
pub struct ThresholdViolation {
    /// Name of the exceeded limit.
    pub metric: String,
    /// The limit; hundredths of a percent for percentage limits.
    pub threshold: i64,
    /// The observed value, in the unit of `threshold`.
    pub actual: i64,
    /// `"error"` or `"warning"`.
    pub severity: String,
}

/// What a violation says, with its strings as character sequences.
pub struct ViolationView {
    pub metric: Seq<char>,
    pub threshold: int,
    pub actual: int,
    pub severity: Seq<char>,
}

impl View for ThresholdViolation {
    type V = ViolationView;

    open spec fn view(&self) -> ViolationView {
        ViolationView {
            metric: self.metric@,
            threshold: self.threshold as int,
            actual: self.actual as int,
            severity: self.severity@,
        }
    }
}

impl ThresholdViolation {
    /// A copy of the violation.
    pub fn duplicate(&self) -> (r: Self)
        ensures
            r@ == self@,
    {
        ThresholdViolation {
            metric: self.metric.clone(),
            threshold: self.threshold,
            actual: self.actual,
            severity: self.severity.clone(),
        }
    }
}

impl Default for ThresholdViolation {
    fn default() -> (v: Self)
        ensures
            v@.metric.len() == 0,
            v@.severity.len() == 0,
            v.threshold == 0,
            v.actual == 0,
    {
        ThresholdViolation {
            metric: String::new(),
            threshold: 0,
            actual: 0,
            severity: String::new(),
        }
    }
}

/// Overall verdict of a comparison.
#[derive(Debug)]
pub struct DiffSummary {
    /// `"PASSED"`, `"WARNING"` or `"FAILED"`.
    pub status: String,
    pub violation_count: usize,
    pub has_regressions: bool,
    pub warning: Option<String>,
}

/// How urgent an insight is.
#[derive(Clone, Copy, Debug, PartialEq, Eq)]
pub enum InsightSeverity {
    High,
    Medium,
    Low,
    Info,
}

/// A qualitative optimisation hint.
#[derive(Debug)]
pub struct Insight {
    pub category: String,
    pub description: String,
    pub severity: InsightSeverity,
}

/// Result of comparing a baseline profile with a target profile.
#[derive(Debug)]
pub struct DiffReport {
    pub diff_version: String,
    pub generated_at: String,
    pub baseline: ProfileMetadata,
    pub target: ProfileMetadata,
    pub deltas: Deltas,
    pub threshold_violations: Vec<ThresholdViolation>,
    pub summary: DiffSummary,
    pub insights: Vec<Insight>,
}

} // verus!
