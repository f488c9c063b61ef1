//! The diff command: which thresholds apply, how command-line limits
//! override them, where the viewer goes, and whether the command fails.

use vstd::prelude::*;
use crate::diff::schema::{DiffReport, ThresholdViolation};
use crate::diff::threshold::{
    all_violations, check_thresholds, has_error, status_of, views, GasThresholds, HostIOThresholds,
    HotPathThresholds, ThresholdConfig,
};
use crate::paths::{path_with_extension, with_extension};

verus! {

broadcast use vstd::string::group_string_axioms;

/// Arguments of the diff command. Percentages are in hundredths of a percent.
#[derive(Debug)]
pub struct DiffArgs {
    pub baseline: String,
    pub target: String,
    pub threshold_file: Option<String>,
    pub threshold_percent: Option<i64>,
    pub summary: bool,
    pub output: Option<String>,
    pub output_svg: Option<String>,
    pub gas_threshold: Option<i64>,
    pub hostio_threshold: Option<i64>,
    pub view: bool,
}

/// Where the thresholds come from.
#[derive(Debug)]
pub enum ThresholdSource {
    /// The file named on the command line.
    File(String),
    /// `thresholds.toml` in the working directory.
    AutoFile,
    /// No file: no thresholds.
    Defaults,
}

/// The threshold file named on the command line wins; otherwise
/// `thresholds.toml` is used when it exists; otherwise there are none.
pub fn threshold_source(threshold_file: &Option<String>, auto_file_exists: bool) -> (s: ThresholdSource)
    ensures
        match threshold_file {
            Some(f) => s matches ThresholdSource::File(g) && g@ == f@,
            None => if auto_file_exists { s is AutoFile } else { s is Defaults },
        },
{
    match threshold_file {
        Some(f) => ThresholdSource::File(f.clone()),
        None => if auto_file_exists { ThresholdSource::AutoFile } else { ThresholdSource::Defaults },
    }
}

/// Gas limits of only a percentage.
pub open spec fn gas_percent_only(p: Option<i64>) -> GasThresholds {
    GasThresholds { max_increase_percent: p, max_increase_absolute: None }
}

/// HostIO limits of only a percentage of the total calls.
pub open spec fn hostio_percent_only(p: Option<i64>) -> HostIOThresholds {
    HostIOThresholds { max_total_calls_increase_percent: p, limits: None }
}

/// The global percentage, when given, replaces every limit by itself.
pub open spec fn with_global(c: ThresholdConfig, global: Option<i64>) -> ThresholdConfig {
    match global {
        Some(p) => ThresholdConfig {
            gas: gas_percent_only(Some(p)),
            hostio: hostio_percent_only(Some(p)),
            hot_paths: Some(HotPathThresholds { warn_individual_increase_percent: Some(p) }),
        },
        None => c,
    }
}

/// The gas percentage, when given, replaces the gas limits; without a global
/// or HostIO percentage, the HostIO and hot-path limits are dropped.
pub open spec fn with_gas(c: ThresholdConfig, global: Option<i64>, gas: Option<i64>, hostio: Option<i64>) -> ThresholdConfig {
    if gas is Some {
        if global is None && hostio is None {
            ThresholdConfig {
                gas: gas_percent_only(gas),
                hostio: hostio_percent_only(None),
                hot_paths: None,
            }
        } else {
            ThresholdConfig { gas: gas_percent_only(gas), ..c }
        }
    } else {
        c
    }
}

/// The HostIO percentage, when given, replaces the HostIO limits; without a
/// global or gas percentage, the gas and hot-path limits are dropped.
pub open spec fn with_hostio(c: ThresholdConfig, global: Option<i64>, gas: Option<i64>, hostio: Option<i64>) -> ThresholdConfig {
    if hostio is Some {
        if global is None && gas is None {
            ThresholdConfig {
                gas: gas_percent_only(None),
                hostio: hostio_percent_only(hostio),
                hot_paths: None,
            }
        } else {
            ThresholdConfig { hostio: hostio_percent_only(hostio), ..c }
        }
    } else {
        c
    }
}

/// The thresholds after the command-line percentages.
pub open spec fn overridden(c: ThresholdConfig, global: Option<i64>, gas: Option<i64>, hostio: Option<i64>) -> ThresholdConfig {
    with_hostio(with_gas(with_global(c, global), global, gas, hostio), global, gas, hostio)
}

/// Applies the command-line percentages to the loaded thresholds: a global
/// percentage applies to gas, HostIO calls and hot paths; a gas or HostIO
/// percentage takes precedence for its metric and, without the others,
/// focuses the check on that metric alone.
pub fn apply_threshold_overrides(
    thresholds: ThresholdConfig,
    threshold_percent: Option<i64>,
    gas_threshold: Option<i64>,
    hostio_threshold: Option<i64>,
) -> (c: ThresholdConfig)
    ensures
        c == overridden(thresholds, threshold_percent, gas_threshold, hostio_threshold),
{
    let mut t = thresholds;
    if let Some(percent) = threshold_percent {
        t.gas.max_increase_percent = Some(percent);
        t.gas.max_increase_absolute = None;
        t.hostio.max_total_calls_increase_percent = Some(percent);
        t.hostio.limits = None;
        t.hot_paths = Some(HotPathThresholds { warn_individual_increase_percent: Some(percent) });
    }
    let has_global = threshold_percent.is_some();
    let has_gas = gas_threshold.is_some();
    let has_hostio = hostio_threshold.is_some();
    if has_gas {
        t.gas.max_increase_percent = gas_threshold;
        t.gas.max_increase_absolute = None;
        if !has_global && !has_hostio {
            t.hostio = HostIOThresholds::default();
            t.hot_paths = None;
        }
    }
    if has_hostio {
        t.hostio.max_total_calls_increase_percent = hostio_threshold;
        t.hostio.limits = None;
        if !has_global && !has_gas {
            t.gas = GasThresholds::default();
            t.hot_paths = None;
        }
    }
    t
}

/// Applies the command-line percentages and checks the report against the
/// resulting thresholds, recording violations and verdict in the report.
pub fn evaluate_thresholds(
    report: &mut DiffReport,
    loaded: ThresholdConfig,
    args: &DiffArgs,
) -> (v: Vec<ThresholdViolation>)
    ensures
        views(v@) == all_violations(
            *old(report),
            overridden(loaded, args.threshold_percent, args.gas_threshold, args.hostio_threshold),
        ),
        views(final(report).threshold_violations@) == views(v@),
        final(report).summary.status@ == status_of(views(v@)),
        final(report).summary.violation_count == v@.len(),
        final(report).summary.has_regressions == has_error(views(v@)),
        final(report).summary.warning == old(report).summary.warning,
        final(report).deltas == old(report).deltas,
        final(report).baseline == old(report).baseline,
        final(report).target == old(report).target,
        final(report).diff_version == old(report).diff_version,
        final(report).generated_at == old(report).generated_at,
        final(report).insights == old(report).insights,
{
    let config = apply_threshold_overrides(loaded, args.threshold_percent, args.gas_threshold, args.hostio_threshold);
    check_thresholds(report, &config)
}

/// Where the interactive viewer is written: next to the report when one is
/// written, else next to the target profile, with the extension `html`.
pub fn viewer_path(args: &DiffArgs) -> (p: String)
    ensures
        p@ == with_extension(
            match args.output {
                Some(o) => o@,
                None => with_extension(args.target@, "diff.html"@),
            },
            "html"@,
        ),
{
    match &args.output {
        Some(o) => path_with_extension(o.as_str(), "html"),
        None => {
            let d = path_with_extension(args.target.as_str(), "diff.html");
            path_with_extension(d.as_str(), "html")
        },
    }
}

/// The diff command fails when a regression exceeded a threshold.
#[derive(Debug, PartialEq, Eq)]
pub enum DiffOutcome {
    Passed,
    RegressionDetected,
}

/// The command's outcome: a regression when the report's verdict is `FAILED`.
pub fn diff_outcome(report: &DiffReport) -> (o: DiffOutcome)
    ensures
        (o == DiffOutcome::RegressionDetected) <==> report.summary.status@ == "FAILED"@,
{
    let failed = "FAILED".to_string();
    if report.summary.status == failed {
        DiffOutcome::RegressionDetected
    } else {
        DiffOutcome::Passed
    }
}

/// How the command-line percentages combine: a global percentage alone
/// applies to gas, HostIO calls and hot paths; a gas or HostIO percentage
/// alone checks only its metric; a metric's own percentage always applies
/// to it, whatever else is given; gas and HostIO percentages together, with
/// no global one, both apply and leave the hot-path limit as loaded; with
/// none, the loaded thresholds stand.
pub proof fn lemma_threshold_modes(c: ThresholdConfig, global: Option<i64>, gas: Option<i64>, hostio: Option<i64>)
    ensures
        global is None && gas is None && hostio is None ==> overridden(c, global, gas, hostio) == c,
        global is Some && gas is None && hostio is None ==> overridden(c, global, gas, hostio)
            == (ThresholdConfig {
                gas: gas_percent_only(global),
                hostio: hostio_percent_only(global),
                hot_paths: Some(HotPathThresholds { warn_individual_increase_percent: global }),
            }),
        global is None && gas is Some && hostio is None ==> overridden(c, global, gas, hostio)
            == (ThresholdConfig { gas: gas_percent_only(gas), hostio: hostio_percent_only(None), hot_paths: None }),
        global is None && gas is None && hostio is Some ==> overridden(c, global, gas, hostio)
            == (ThresholdConfig { gas: gas_percent_only(None), hostio: hostio_percent_only(hostio), hot_paths: None }),
        gas is Some ==> overridden(c, global, gas, hostio).gas == gas_percent_only(gas),
        hostio is Some ==> overridden(c, global, gas, hostio).hostio == hostio_percent_only(hostio),
        global is None && gas is Some && hostio is Some ==> overridden(c, global, gas, hostio)
            == (ThresholdConfig { gas: gas_percent_only(gas), hostio: hostio_percent_only(hostio), hot_paths: c.hot_paths }),
{
}

} // verus!
