//! Regression thresholds and the verdict they give.
//!
//! Percentage limits are in hundredths of a percent: a limit of `1000`
//! allows an increase of at most 10%.

use vstd::prelude::*;
use crate::diff::schema::{
    DiffReport, DiffSummary, GasDelta, HostIoDelta, HotPathComparison, ThresholdViolation,
    ViolationView,
};
use crate::percent::{exceeds, signed_hundredths, Percentage};
use crate::strmap::{find_index, lemma_find_index, lookup, StrMap};

verus! {

broadcast use vstd::string::group_string_axioms;

/// Limits on the total gas.
#[derive(Debug)]
pub struct GasThresholds {
    /// Largest allowed increase, in hundredths of a percent.
    pub max_increase_percent: Option<i64>,
    /// Largest allowed increase in gas units.
    pub max_increase_absolute: Option<u64>,
}

impl Default for GasThresholds {
    fn default() -> (g: Self)
        ensures
            g.max_increase_percent is None,
            g.max_increase_absolute is None,
    {
        GasThresholds { max_increase_percent: None, max_increase_absolute: None }
    }
}

/// Limits on HostIO calls.
#[derive(Debug)]
pub struct HostIOThresholds {
    /// Largest allowed increase of the total calls, in hundredths of a percent.
    pub max_total_calls_increase_percent: Option<i64>,
    /// Largest allowed increase of the calls of each named HostIO type.
    pub limits: Option<StrMap<u64>>,
}

impl Default for HostIOThresholds {
    fn default() -> (h: Self)
        ensures
            h.max_total_calls_increase_percent is None,
            h.limits is None,
    {
        HostIOThresholds { max_total_calls_increase_percent: None, limits: None }
    }
}

/// Limits on individual hot paths.
#[derive(Clone, Copy, Debug)]
pub struct HotPathThresholds {
    /// Increase of one stack's gas above which a warning is raised, in
    /// hundredths of a percent.
    pub warn_individual_increase_percent: Option<i64>,
}

/// All thresholds of a comparison.
#[derive(Debug)]
pub struct ThresholdConfig {
    pub gas: GasThresholds,
    pub hostio: HostIOThresholds,
    pub hot_paths: Option<HotPathThresholds>,
}

impl Default for ThresholdConfig {
    fn default() -> (c: Self)
        ensures
            c.gas.max_increase_percent is None,
            c.gas.max_increase_absolute is None,
            c.hostio.max_total_calls_increase_percent is None,
            c.hostio.limits is None,
            c.hot_paths is None,
    {
        ThresholdConfig {
            gas: GasThresholds::default(),
            hostio: HostIOThresholds::default(),
            hot_paths: None,
        }
    }
}

/// The views of a list of violations.
pub open spec fn views(v: Seq<ThresholdViolation>) -> Seq<ViolationView> {
    v.map_values(|x: ThresholdViolation| x@)
}

/// An error-level violation.
pub open spec fn error_at(metric: Seq<char>, threshold: int, actual: int) -> ViolationView {
    ViolationView { metric, threshold, actual, severity: "error"@ }
}

/// `n` saturated to the `i64` range.
pub open spec fn saturate(n: u64) -> int {
    if n > i64::MAX { i64::MAX as int } else { n as int }
}

/// Violations of the gas limits.
pub open spec fn gas_violations(d: GasDelta, g: GasThresholds) -> Seq<ViolationView> {
    let by_percent = match g.max_increase_percent {
        Some(p) => if d.percent_change.exceeds(p as int) {
            seq![error_at("gas.max_increase_percent"@, p as int, d.percent_change.signed_hundredths())]
        } else {
            seq![]
        },
        None => seq![],
    };
    let by_amount = match g.max_increase_absolute {
        Some(a) => if d.absolute_change > a {
            seq![error_at("gas.max_increase_absolute"@, saturate(a), d.absolute_change as int)]
        } else {
            seq![]
        },
        None => seq![],
    };
    by_percent + by_amount
}

/// Violations of the per-type limits, in the order of the limits.
pub open spec fn type_limit_violations(
    limits: Seq<(Seq<char>, u64)>,
    h: HostIoDelta,
) -> Seq<ViolationView>
    decreases limits.len(),
{
    if limits.len() == 0 {
        seq![]
    } else {
        let prev = type_limit_violations(limits.drop_last(), h);
        let (k, limit) = limits.last();
        match lookup(h.by_type_changes.entries(), k) {
            Some(c) => if c.delta > limit {
                prev.push(error_at("hostio.limits."@ + k, saturate(limit), c.delta as int))
            } else {
                prev
            },
            None => prev,
        }
    }
}

/// Violations of the HostIO limits.
pub open spec fn hostio_violations(h: HostIoDelta, t: HostIOThresholds) -> Seq<ViolationView> {
    let by_percent = match t.max_total_calls_increase_percent {
        Some(p) => if h.total_calls_percent_change.exceeds(p as int) {
            seq![error_at(
                "hostio.max_total_calls_increase_percent"@,
                p as int,
                h.total_calls_percent_change.signed_hundredths(),
            )]
        } else {
            seq![]
        },
        None => seq![],
    };
    let by_type = match t.limits {
        Some(l) => type_limit_violations(l.entries(), h),
        None => seq![],
    };
    by_percent + by_type
}

/// Warnings for hot paths whose gas grew more than `limit`, in path order.
pub open spec fn hot_path_warnings(paths: Seq<HotPathComparison>, limit: i64) -> Seq<ViolationView>
    decreases paths.len(),
{
    if paths.len() == 0 {
        seq![]
    } else {
        let prev = hot_path_warnings(paths.drop_last(), limit);
        let p = paths.last();
        if p.percent_change.exceeds(limit as int) {
            prev.push(ViolationView {
                metric: "hot_paths."@ + p.stack@,
                threshold: limit as int,
                actual: p.percent_change.signed_hundredths(),
                severity: "warning"@,
            })
        } else {
            prev
        }
    }
}

/// Violations of the hot-path limit, if one is set.
pub open spec fn hot_path_violations(
    paths: Seq<HotPathComparison>,
    t: Option<HotPathThresholds>,
) -> Seq<ViolationView> {
    match t {
        Some(HotPathThresholds { warn_individual_increase_percent: Some(p) }) => hot_path_warnings(paths, p),
        _ => seq![],
    }
}

/// Every violation of a report's deltas: gas, then HostIO, then hot paths.
pub open spec fn all_violations(r: DiffReport, c: ThresholdConfig) -> Seq<ViolationView> {
    gas_violations(r.deltas.gas, c.gas) + hostio_violations(r.deltas.hostio, c.hostio)
        + hot_path_violations(r.deltas.hot_paths.common_paths@, c.hot_paths)
}

/// Some violation is an error.
pub open spec fn has_error(v: Seq<ViolationView>) -> bool {
    exists|i: int| 0 <= i < v.len() && #[trigger] v[i].severity == "error"@
}

/// Verdict for a list of violations.
pub open spec fn status_of(v: Seq<ViolationView>) -> Seq<char> {
    if has_error(v) {
        "FAILED"@
    } else if v.len() > 0 {
        "WARNING"@
    } else {
        "PASSED"@
    }
}

fn violation(metric: String, threshold: i64, actual: i64, severity: &str) -> (v: ThresholdViolation)
    ensures
        v@ == (ViolationView {
            metric: metric@,
            threshold: threshold as int,
            actual: actual as int,
            severity: severity@,
        }),
{
    ThresholdViolation { metric, threshold, actual, severity: severity.to_string() }
}

fn saturate_exec(n: u64) -> (r: i64)
    ensures
        r as int == saturate(n),
{
    if n > i64::MAX as u64 { i64::MAX } else { n as i64 }
}

/// Appends a violation for each exceeded gas limit.
pub fn check_gas_thresholds(
    delta: &GasDelta,
    thresholds: &GasThresholds,
    violations: &mut Vec<ThresholdViolation>,
)
    ensures
        views(final(violations)@) == views(old(violations)@) + gas_violations(*delta, *thresholds),
{
    let ghost start = views(violations@);
    if let Some(p) = thresholds.max_increase_percent {
        if exceeds(delta.percent_change, p) {
            violations.push(violation(
                "gas.max_increase_percent".to_string(),
                p,
                signed_hundredths(delta.percent_change),
                "error",
            ));
        }
    }
    let ghost mid = views(violations@);
    assert(mid =~= start + match thresholds.max_increase_percent {
        Some(p) => if delta.percent_change.exceeds(p as int) {
            seq![error_at("gas.max_increase_percent"@, p as int, delta.percent_change.signed_hundredths())]
        } else {
            seq![]
        },
        None => seq![],
    });
    if let Some(a) = thresholds.max_increase_absolute {
        if delta.absolute_change >= 0 && (delta.absolute_change as u64) > a {
            violations.push(violation(
                "gas.max_increase_absolute".to_string(),
                saturate_exec(a),
                delta.absolute_change,
                "error",
            ));
        }
    }
    assert(views(violations@) =~= start + gas_violations(*delta, *thresholds));
}

/// Appends a violation for each exceeded HostIO limit.
pub fn check_hostio_thresholds(
    delta: &HostIoDelta,
    thresholds: &HostIOThresholds,
    violations: &mut Vec<ThresholdViolation>,
)
    ensures
        views(final(violations)@) == views(old(violations)@) + hostio_violations(*delta, *thresholds),
{
    let ghost start = views(violations@);
    if let Some(p) = thresholds.max_total_calls_increase_percent {
        if exceeds(delta.total_calls_percent_change, p) {
            violations.push(violation(
                "hostio.max_total_calls_increase_percent".to_string(),
                p,
                signed_hundredths(delta.total_calls_percent_change),
                "error",
            ));
        }
    }
    let ghost mid = views(violations@);
    let ghost by_percent = match thresholds.max_total_calls_increase_percent {
        Some(p) => if delta.total_calls_percent_change.exceeds(p as int) {
            seq![error_at(
                "hostio.max_total_calls_increase_percent"@,
                p as int,
                delta.total_calls_percent_change.signed_hundredths(),
            )]
        } else {
            seq![]
        },
        None => seq![],
    };
    assert(mid =~= start + by_percent);
    match &thresholds.limits {
        Some(limits) => {
            let ghost le = limits.entries();
            let n = limits.len();
            let mut i: usize = 0;
            while i < n
                invariant
                    n == le.len(),
                    le == limits.entries(),
                    i <= n,
                    views(violations@) == mid + type_limit_violations(le.take(i as int), *delta),
                decreases n - i,
            {
                let k = limits.key_at(i);
                let limit = *limits.value_at(i);
                assert(le.take(i + 1).drop_last() =~= le.take(i as int));
                assert(le.take(i + 1).last() == (k@, limit));
                let ghost before = views(violations@);
                match delta.by_type_changes.get(k.as_str()) {
                    Some(c) => {
                        if c.delta >= 0 && (c.delta as u64) > limit {
                            let mut metric = "hostio.limits.".to_string();
                            metric.append(k.as_str());
                            violations.push(violation(metric, saturate_exec(limit), c.delta, "error"));
                            assert(views(violations@) =~= before.push(
                                error_at("hostio.limits."@ + k@, saturate(limit), c.delta as int),
                            ));
                        }
                    },
                    None => {},
                }
                i = i + 1;
            }
            assert(le.take(n as int) =~= le);
        },
        None => {},
    }
    assert(views(violations@) =~= start + hostio_violations(*delta, *thresholds));
}

/// Appends a warning for each hot path whose gas grew more than the limit.
pub fn check_hot_path_thresholds(
    paths: &Vec<HotPathComparison>,
    thresholds: &Option<HotPathThresholds>,
    violations: &mut Vec<ThresholdViolation>,
)
    ensures
        views(final(violations)@) == views(old(violations)@) + hot_path_violations(paths@, *thresholds),
{
    let ghost start = views(violations@);
    match thresholds {
        Some(HotPathThresholds { warn_individual_increase_percent: Some(p) }) => {
            let p = *p;
            let mut i: usize = 0;
            while i < paths.len()
                invariant
                    i <= paths@.len(),
                    views(violations@) == start + hot_path_warnings(paths@.take(i as int), p),
                decreases paths@.len() - i,
            {
                let hp = &paths[i];
                assert(paths@.take(i + 1).drop_last() =~= paths@.take(i as int));
                assert(paths@.take(i + 1).last() == *hp);
                let ghost before = views(violations@);
                if exceeds(hp.percent_change, p) {
                    let mut metric = "hot_paths.".to_string();
                    metric.append(hp.stack.as_str());
                    violations.push(violation(metric, p, signed_hundredths(hp.percent_change), "warning"));
                    assert(views(violations@) =~= before.push(ViolationView {
                        metric: "hot_paths."@ + hp.stack@,
                        threshold: p as int,
                        actual: hp.percent_change.signed_hundredths(),
                        severity: "warning"@,
                    }));
                }
                i = i + 1;
            }
            assert(paths@.take(paths@.len() as int) =~= paths@);
        },
        _ => {
            assert(views(violations@) =~= start + hot_path_violations(paths@, *thresholds));
        },
    }
}

/// The verdict for a list of violations: failed on any error, a warning on
/// any other violation, passed when there is none.
pub fn create_summary(violations: &Vec<ThresholdViolation>) -> (s: DiffSummary)
    ensures
        s.status@ == status_of(views(violations@)),
        s.violation_count == violations@.len(),
        s.has_regressions == has_error(views(violations@)),
        s.warning is None,
{
    let ghost vs = views(violations@);
    let error = "error".to_string();
    let mut found = false;
    let mut i: usize = 0;
    while i < violations.len()
        invariant
            i <= violations@.len(),
            vs == views(violations@),
            error@ == "error"@,
            found == exists|j: int| 0 <= j < i && #[trigger] vs[j].severity == "error"@,
        decreases violations@.len() - i,
    {
        assert(vs[i as int].severity == violations@[i as int].severity@);
        if violations[i].severity == error {
            found = true;
        }
        i = i + 1;
    }
    let status = if found {
        "FAILED".to_string()
    } else if violations.len() > 0 {
        "WARNING".to_string()
    } else {
        "PASSED".to_string()
    };
    DiffSummary { status, violation_count: violations.len(), has_regressions: found, warning: None }
}

/// A copy of a list of violations.
fn duplicate_all(v: &Vec<ThresholdViolation>) -> (r: Vec<ThresholdViolation>)
    ensures
        views(r@) == views(v@),
{
    let mut r: Vec<ThresholdViolation> = Vec::new();
    let mut i: usize = 0;
    while i < v.len()
        invariant
            i <= v@.len(),
            views(r@) == views(v@.take(i as int)),
        decreases v@.len() - i,
    {
        let ghost before = r@;
        let d = v[i].duplicate();
        r.push(d);
        assert(v@.take(i + 1) =~= v@.take(i as int).push(v@[i as int]));
        assert(views(r@) =~= views(before).push(d@));
        assert(views(v@.take(i + 1)) =~= views(v@.take(i as int)).push(v@[i as int]@));
        i = i + 1;
    }
    assert(v@.take(v@.len() as int) =~= v@);
    r
}

/// Checks a report against the thresholds, records the violations and the
/// verdict in the report (keeping its warning), and returns the violations.
pub fn check_thresholds(report: &mut DiffReport, config: &ThresholdConfig) -> (v: Vec<ThresholdViolation>)
    ensures
        views(v@) == all_violations(*old(report), *config),
        views(final(report).threshold_violations@) == views(v@),
        final(report).summary.status@ == status_of(views(v@)),
        final(report).summary.violation_count == v@.len(),
        final(report).summary.has_regressions == has_error(views(v@)),
        final(report).summary.warning == old(report).summary.warning,
        final(report).deltas == old(report).deltas,
        final(report).baseline == old(report).baseline,
        final(report).target == old(report).target,
        final(report).diff_version == old(report).diff_version,
        final(report).generated_at == old(report).generated_at,
        final(report).insights == old(report).insights,
{
    let mut v: Vec<ThresholdViolation> = Vec::new();
    check_gas_thresholds(&report.deltas.gas, &config.gas, &mut v);
    check_hostio_thresholds(&report.deltas.hostio, &config.hostio, &mut v);
    check_hot_path_thresholds(&report.deltas.hot_paths.common_paths, &config.hot_paths, &mut v);
    assert(views(v@) =~= all_violations(*report, *config));
    let mut summary = create_summary(&v);
    summary.warning = report.summary.warning.clone();
    report.summary = summary;
    report.threshold_violations = duplicate_all(&v);
    v
}

/// The verdict fails exactly when some violation is an error, passes
/// exactly when there is no violation, and warns otherwise.
pub proof fn lemma_verdict(v: Seq<ViolationView>)
    ensures
        status_of(v) == "FAILED"@ <==> has_error(v),
        status_of(v) == "PASSED"@ <==> v.len() == 0,
        status_of(v) == "WARNING"@ <==> v.len() > 0 && !has_error(v),
{
    reveal_strlit("FAILED");
    reveal_strlit("PASSED");
    reveal_strlit("WARNING");
    assert("FAILED"@[0] != "PASSED"@[0]);
    assert("FAILED"@[0] != "WARNING"@[0]);
    assert("PASSED"@[0] != "WARNING"@[0]);
}

/// Thresholds that set no limit.
pub open spec fn no_limits() -> ThresholdConfig {
    ThresholdConfig {
        gas: GasThresholds { max_increase_percent: None, max_increase_absolute: None },
        hostio: hostio_none(),
        hot_paths: None,
    }
}

/// HostIO thresholds that set no limit.
pub open spec fn hostio_none() -> HostIOThresholds {
    HostIOThresholds { max_total_calls_increase_percent: None, limits: None }
}

/// Without limits there is no violation, and the verdict passes.
pub proof fn lemma_no_limits_pass(r: DiffReport)
    ensures
        all_violations(r, no_limits()).len() == 0,
        status_of(all_violations(r, no_limits())) == "PASSED"@,
{
    assert(all_violations(r, no_limits()) =~= Seq::<ViolationView>::empty());
}

/// A gas limit alone: the verdict fails exactly when the gas grew by more
/// than the limit.
pub proof fn lemma_gas_gate(r: DiffReport, limit: i64)
    ensures
        ({
            let c = ThresholdConfig {
                gas: GasThresholds { max_increase_percent: Some(limit), max_increase_absolute: None },
                hostio: hostio_none(),
                hot_paths: None,
            };
            status_of(all_violations(r, c)) == "FAILED"@ <==> r.deltas.gas.percent_change.exceeds(limit as int)
        }),
{
    let c = ThresholdConfig {
        gas: GasThresholds { max_increase_percent: Some(limit), max_increase_absolute: None },
        hostio: hostio_none(),
        hot_paths: None,
    };
    let v = all_violations(r, c);
    lemma_verdict(v);
    reveal_strlit("error");
    if r.deltas.gas.percent_change.exceeds(limit as int) {
        assert(v[0].severity == "error"@);
    } else {
        assert(v =~= Seq::<ViolationView>::empty());
    }
}


/// A percentage whose change is not an increase never exceeds a limit that
/// is not negative.
pub proof fn lemma_decrease_never_exceeds(p: Percentage, limit: int)
    requires
        p.change <= 0,
        limit >= 0,
    ensures
        !p.exceeds(limit),
{
    if p.base > 0 {
        assert(limit * p.base >= 0) by (nonlinear_arith) requires limit >= 0, p.base >= 0;
    }
}

/// Per-type limits are never broken by types whose calls did not grow.
proof fn lemma_no_type_violation(limits: Seq<(Seq<char>, u64)>, h: HostIoDelta)
    requires
        forall|i: int| 0 <= i < h.by_type_changes.entries().len() ==> (#[trigger] h.by_type_changes.entries()[i]).1.delta <= 0,
    ensures
        type_limit_violations(limits, h).len() == 0,
    decreases limits.len(),
{
    if limits.len() > 0 {
        lemma_no_type_violation(limits.drop_last(), h);
        let e = h.by_type_changes.entries();
        let k = limits.last().0;
        lemma_find_index(e, k);
        if find_index(e, k) >= 0 {
            assert(e[find_index(e, k)].1.delta <= 0);
        }
    }
}

/// Hot paths whose gas did not grow never warn under a limit that is not
/// negative.
proof fn lemma_no_hot_path_warning(paths: Seq<HotPathComparison>, limit: i64)
    requires
        limit >= 0,
        forall|i: int| 0 <= i < paths.len() ==> (#[trigger] paths[i]).percent_change.change <= 0,
    ensures
        hot_path_warnings(paths, limit).len() == 0,
    decreases paths.len(),
{
    if paths.len() > 0 {
        lemma_no_hot_path_warning(paths.drop_last(), limit);
        lemma_decrease_never_exceeds(paths.last().percent_change, limit as int);
    }
}

/// Only an increase is a regression: when neither the gas, the HostIO
/// calls, any per-type count nor any hot path grew, thresholds whose
/// percentages are not negative find no violation, and the verdict passes.
pub proof fn lemma_no_increase_no_violation(r: DiffReport, c: ThresholdConfig)
    requires
        r.deltas.gas.absolute_change <= 0,
        r.deltas.gas.percent_change.change <= 0,
        r.deltas.hostio.total_calls_percent_change.change <= 0,
        forall|i: int| 0 <= i < r.deltas.hostio.by_type_changes.entries().len()
            ==> (#[trigger] r.deltas.hostio.by_type_changes.entries()[i]).1.delta <= 0,
        forall|i: int| 0 <= i < r.deltas.hot_paths.common_paths@.len()
            ==> (#[trigger] r.deltas.hot_paths.common_paths@[i]).percent_change.change <= 0,
        c.gas.max_increase_percent matches Some(p) ==> p >= 0,
        c.hostio.max_total_calls_increase_percent matches Some(p) ==> p >= 0,
        c.hot_paths matches Some(h) ==> (h.warn_individual_increase_percent matches Some(p) ==> p >= 0),
    ensures
        all_violations(r, c).len() == 0,
        status_of(all_violations(r, c)) == "PASSED"@,
{
    if let Some(p) = c.gas.max_increase_percent {
        lemma_decrease_never_exceeds(r.deltas.gas.percent_change, p as int);
    }
    if let Some(p) = c.hostio.max_total_calls_increase_percent {
        lemma_decrease_never_exceeds(r.deltas.hostio.total_calls_percent_change, p as int);
    }
    if let Some(l) = c.hostio.limits {
        lemma_no_type_violation(l.entries(), r.deltas.hostio);
    }
    if let Some(h) = c.hot_paths {
        if let Some(p) = h.warn_individual_increase_percent {
            lemma_no_hot_path_warning(r.deltas.hot_paths.common_paths@, p);
        }
    }
    assert(all_violations(r, c) =~= Seq::<ViolationView>::empty());
}

} // verus!
