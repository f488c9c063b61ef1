//! Computing the deltas between a baseline profile and a target profile.

use vstd::prelude::*;
use crate::diff::schema::{
    Deltas, DiffReport, DiffSummary, GasDelta, HostIoDelta, HostIoTypeChange, HotPathComparison,
    HotPathsDelta, ProfileMetadata,
};
use crate::parser::schema::{HotPath, Profile};
use crate::percent::{safe_percentage, Percentage};
use crate::strmap::{
    find_index, has_key, keys_distinct, lemma_find_index, lemma_lookup_absent, lemma_lookup_distinct,
    lookup, lookup_or_zero, StrMap,
};

verus! {

broadcast use vstd::string::group_string_axioms;

/// Why two profiles cannot be compared.
#[derive(Debug)]
pub enum DiffError {
    /// The profiles were written with different schema versions.
    IncompatibleVersions { baseline: String, target: String },
}

/// Format version of the reports this module writes.
pub open spec fn report_version() -> Seq<char> {
    "1.0.0"@
}

/// Warning attached when both profiles come from the same transaction.
pub open spec fn same_transaction_warning() -> Seq<char> {
    "Baseline and target profiles have the same transaction hash"@
}

/// `x` saturated to the `i64` range.
pub open spec fn clamp_i64(x: int) -> int {
    if x > i64::MAX {
        i64::MAX as int
    } else if x < i64::MIN {
        i64::MIN as int
    } else {
        x
    }
}

/// Signed change from `b` to `t`, saturated to the `i64` range.
pub open spec fn signed_change(b: u64, t: u64) -> int {
    clamp_i64(t as int - b as int)
}

/// The change from `b` to `t`, saturated to the `i64` range.
pub fn change_between(b: u64, t: u64) -> (d: i64)
    ensures
        d as int == signed_change(b, t),
{
    if t >= b {
        let up = t - b;
        if up > i64::MAX as u64 { i64::MAX } else { up as i64 }
    } else {
        let down = b - t;
        if down >= 0x8000_0000_0000_0000u64 { i64::MIN } else { -(down as i64) }
    }
}

/// Total-gas delta for the given totals.
pub open spec fn gas_delta_of(baseline: u64, target: u64) -> GasDelta {
    GasDelta {
        baseline,
        target,
        absolute_change: signed_change(baseline, target) as i64,
        percent_change: Percentage { change: signed_change(baseline, target) as i64, base: baseline },
    }
}

/// Delta of the total gas: the change and its percentage of the baseline.
pub fn calculate_gas_delta(baseline: u64, target: u64) -> (d: GasDelta)
    ensures
        d == gas_delta_of(baseline, target),
{
    let change = change_between(baseline, target);
    GasDelta {
        baseline,
        target,
        absolute_change: change,
        percent_change: safe_percentage(change, baseline),
    }
}

/// Change of one HostIO type's call count.
pub open spec fn type_change_of(b: u64, t: u64) -> HostIoTypeChange {
    HostIoTypeChange { baseline: b, target: t, delta: signed_change(b, t) as i64 }
}

/// Changes of the baseline's HostIO types, in baseline order.
pub open spec fn changes_from_baseline(
    be: Seq<(Seq<char>, u64)>,
    te: Seq<(Seq<char>, u64)>,
) -> Seq<(Seq<char>, HostIoTypeChange)>
    decreases be.len(),
{
    if be.len() == 0 {
        seq![]
    } else {
        changes_from_baseline(be.drop_last(), te).push(
            (be.last().0, type_change_of(be.last().1, lookup_or_zero(te, be.last().0))),
        )
    }
}

/// Changes of the HostIO types only the target has, in target order.
pub open spec fn changes_added(
    be: Seq<(Seq<char>, u64)>,
    te: Seq<(Seq<char>, u64)>,
) -> Seq<(Seq<char>, HostIoTypeChange)>
    decreases te.len(),
{
    if te.len() == 0 {
        seq![]
    } else {
        let prev = changes_added(be, te.drop_last());
        if has_key(be, te.last().0) {
            prev
        } else {
            prev.push((te.last().0, type_change_of(0, te.last().1)))
        }
    }
}

/// Per-type changes: the baseline's types first, then the target's new ones.
pub open spec fn type_changes(
    be: Seq<(Seq<char>, u64)>,
    te: Seq<(Seq<char>, u64)>,
) -> Seq<(Seq<char>, HostIoTypeChange)> {
    changes_from_baseline(be, te) + changes_added(be, te)
}

/// The baseline part lists the baseline's keys in order, each with its change.
proof fn lemma_changes_from_baseline(be: Seq<(Seq<char>, u64)>, te: Seq<(Seq<char>, u64)>)
    ensures
        changes_from_baseline(be, te).len() == be.len(),
        forall|i: int| 0 <= i < be.len() ==> #[trigger] changes_from_baseline(be, te)[i]
            == (be[i].0, type_change_of(be[i].1, lookup_or_zero(te, be[i].0))),
    decreases be.len(),
{
    if be.len() > 0 {
        lemma_changes_from_baseline(be.drop_last(), te);
        assert forall|i: int| 0 <= i < be.len() implies #[trigger] changes_from_baseline(be, te)[i]
            == (be[i].0, type_change_of(be[i].1, lookup_or_zero(te, be[i].0))) by {
            if i < be.len() - 1 {
                assert(be.drop_last()[i] == be[i]);
            }
        }
    }
}

/// The added part holds, once each, exactly the target's keys that the
/// baseline lacks, each with its change from zero.
proof fn lemma_changes_added(be: Seq<(Seq<char>, u64)>, te: Seq<(Seq<char>, u64)>)
    requires
        keys_distinct(te),
    ensures
        keys_distinct(changes_added(be, te)),
        forall|m: int| 0 <= m < changes_added(be, te).len() ==> exists|j: int| 0 <= j < te.len()
            && #[trigger] changes_added(be, te)[m] == (te[j].0, type_change_of(0, te[j].1))
            && !has_key(be, te[j].0),
        forall|j: int| 0 <= j < te.len() && !has_key(be, te[j].0) ==> has_key(changes_added(be, te), #[trigger] te[j].0),
    decreases te.len(),
{
    if te.len() > 0 {
        let tp = te.drop_last();
        assert(keys_distinct(tp)) by {
            assert forall|i: int, j: int| 0 <= i < j < tp.len() implies #[trigger] tp[i].0 != #[trigger] tp[j].0 by {
                assert(tp[i] == te[i] && tp[j] == te[j]);
            }
        }
        lemma_changes_added(be, tp);
        let prev = changes_added(be, tp);
        let cur = changes_added(be, te);
        let last = te.last();
        assert forall|m: int| 0 <= m < cur.len() implies exists|j: int| 0 <= j < te.len()
            && #[trigger] cur[m] == (te[j].0, type_change_of(0, te[j].1)) && !has_key(be, te[j].0) by {
            if m < prev.len() {
                assert(cur[m] == prev[m]);
                let j = choose|j: int| 0 <= j < tp.len() && prev[m] == (tp[j].0, type_change_of(0, tp[j].1))
                    && !has_key(be, tp[j].0);
                assert(tp[j] == te[j]);
            } else {
                assert(cur[m] == (te[te.len() - 1].0, type_change_of(0, te[te.len() - 1].1)));
            }
        }
        assert forall|j: int| 0 <= j < te.len() && !has_key(be, te[j].0) implies has_key(cur, #[trigger] te[j].0) by {
            if j < te.len() - 1 {
                assert(tp[j] == te[j]);
                let m = choose|m: int| 0 <= m < prev.len() && #[trigger] prev[m].0 == tp[j].0;
                assert(cur[m] == prev[m]);
            } else {
                assert(cur[cur.len() - 1].0 == last.0);
            }
        }
        if !has_key(be, last.0) {
            assert forall|a: int, b: int| 0 <= a < b < cur.len() implies #[trigger] cur[a].0 != #[trigger] cur[b].0 by {
                if b == cur.len() - 1 {
                    assert(cur[a] == prev[a]);
                    let j = choose|j: int| 0 <= j < tp.len() && prev[a] == (tp[j].0, type_change_of(0, tp[j].1))
                        && !has_key(be, tp[j].0);
                    assert(tp[j] == te[j]);
                } else {
                    assert(cur[a] == prev[a] && cur[b] == prev[b]);
                }
            }
        }
    }
}

/// Over profiles whose HostIO types are listed once each, the per-type
/// changes list each type of either profile once, with its baseline count,
/// its target count (zero where a profile lacks the type) and the change.
pub proof fn lemma_type_changes_lookup(be: Seq<(Seq<char>, u64)>, te: Seq<(Seq<char>, u64)>, k: Seq<char>)
    requires
        keys_distinct(be),
        keys_distinct(te),
    ensures
        keys_distinct(type_changes(be, te)),
        lookup(type_changes(be, te), k) == (if has_key(be, k) || has_key(te, k) {
            Some(type_change_of(lookup_or_zero(be, k), lookup_or_zero(te, k)))
        } else {
            None
        }),
{
    lemma_changes_from_baseline(be, te);
    lemma_changes_added(be, te);
    let a = changes_from_baseline(be, te);
    let b = changes_added(be, te);
    let c = type_changes(be, te);
    assert forall|x: int, y: int| 0 <= x < y < c.len() implies #[trigger] c[x].0 != #[trigger] c[y].0 by {
        if y < a.len() {
            assert(c[x] == a[x] && c[y] == a[y]);
        } else if x < a.len() {
            assert(c[x] == a[x] && c[y] == b[y - a.len()]);
            let j = choose|j: int| 0 <= j < te.len() && b[y - a.len()] == (te[j].0, type_change_of(0, te[j].1))
                && !has_key(be, te[j].0);
            assert(a[x].0 == be[x].0);
        } else {
            assert(c[x] == b[x - a.len()] && c[y] == b[y - a.len()]);
        }
    }
    if has_key(be, k) {
        let i = choose|i: int| 0 <= i < be.len() && #[trigger] be[i].0 == k;
        lemma_lookup_distinct(be, i);
        assert(c[i] == a[i]);
        lemma_lookup_distinct(c, i);
    } else if has_key(te, k) {
        let j = choose|j: int| 0 <= j < te.len() && #[trigger] te[j].0 == k;
        lemma_lookup_distinct(te, j);
        lemma_lookup_absent(be, k);
        let m = choose|m: int| 0 <= m < b.len() && #[trigger] b[m].0 == te[j].0;
        let j2 = choose|j2: int| 0 <= j2 < te.len() && b[m] == (te[j2].0, type_change_of(0, te[j2].1))
            && !has_key(be, te[j2].0);
        if j2 != j {
            assert(te[j2].0 == te[j].0);
        }
        assert(c[a.len() + m] == b[m]);
        lemma_lookup_distinct(c, a.len() + m);
    } else {
        assert forall|x: int| 0 <= x < c.len() implies #[trigger] c[x].0 != k by {
            if x < a.len() {
                assert(c[x] == a[x]);
                assert(a[x].0 == be[x].0);
            } else {
                assert(c[x] == b[x - a.len()]);
                let j = choose|j: int| 0 <= j < te.len() && b[x - a.len()] == (te[j].0, type_change_of(0, te[j].1))
                    && !has_key(be, te[j].0);
            }
        }
        lemma_lookup_absent(c, k);
    }
}

/// The count stored for `key`, or zero.
fn count_or_zero(m: &StrMap<u64>, key: &str) -> (c: u64)
    ensures
        c == lookup_or_zero(m.entries(), key@),
{
    match m.get(key) {
        Some(v) => *v,
        None => 0,
    }
}

/// Per-type change of the HostIO call counts, over the types of either profile.
pub fn calculate_hostio_type_changes(
    baseline: &StrMap<u64>,
    target: &StrMap<u64>,
) -> (c: StrMap<HostIoTypeChange>)
    ensures
        c.entries() == type_changes(baseline.entries(), target.entries()),
{
    proof {
        use_type_invariant(baseline);
        use_type_invariant(target);
    }
    let ghost be = baseline.entries();
    let ghost te = target.entries();
    let mut c: StrMap<HostIoTypeChange> = StrMap::new();
    let n = baseline.len();
    let mut i: usize = 0;
    while i < n
        invariant
            n == be.len(),
            be == baseline.entries(),
            te == target.entries(),
            keys_distinct(be),
            i <= n,
            c.entries() == changes_from_baseline(be.take(i as int), te),
        decreases n - i,
    {
        let k = baseline.key_at(i);
        let b = *baseline.value_at(i);
        let t = count_or_zero(target, k.as_str());
        let d = change_between(b, t);
        proof {
            lemma_changes_from_baseline(be.take(i as int), te);
            assert forall|j: int| 0 <= j < c.entries().len() implies #[trigger] c.entries()[j].0 != k@ by {
                assert(be.take(i as int)[j] == be[j]);
            }
        }
        c.push_new(k.clone(), HostIoTypeChange { baseline: b, target: t, delta: d });
        assert(be.take(i + 1).drop_last() =~= be.take(i as int));
        i = i + 1;
    }
    assert(be.take(n as int) =~= be);
    let ghost from_base = c.entries();
    let m = target.len();
    let mut j: usize = 0;
    while j < m
        invariant
            m == te.len(),
            be == baseline.entries(),
            te == target.entries(),
            keys_distinct(te),
            j <= m,
            from_base == changes_from_baseline(be, te),
            c.entries() == from_base + changes_added(be, te.take(j as int)),
        decreases m - j,
    {
        let k = target.key_at(j);
        let t = *target.value_at(j);
        assert(te.take(j + 1).drop_last() =~= te.take(j as int));
        proof {
            lemma_find_index(be, k@);
        }
        if baseline.get(k.as_str()).is_none() {
            proof {
                lemma_changes_from_baseline(be, te);
                let tj = te.take(j as int);
                assert forall|a: int, b: int| 0 <= a < b < tj.len() implies #[trigger] tj[a].0 != #[trigger] tj[b].0 by {
                    assert(tj[a] == te[a] && tj[b] == te[b]);
                }
                lemma_changes_added(be, tj);
                let ca = changes_added(be, tj);
                assert forall|x: int| 0 <= x < c.entries().len() implies #[trigger] c.entries()[x].0 != k@ by {
                    if x < from_base.len() {
                        assert(c.entries()[x] == from_base[x]);
                        assert(from_base[x].0 == be[x].0);
                    } else {
                        let y = x - from_base.len();
                        assert(c.entries()[x] == ca[y]);
                        let q = choose|q: int| 0 <= q < tj.len() && ca[y] == (tj[q].0, type_change_of(0, tj[q].1))
                            && !has_key(be, tj[q].0);
                        assert(tj[q] == te[q]);
                    }
                }
            }
            c.push_new(k.clone(), HostIoTypeChange { baseline: 0, target: t, delta: change_between(0, t) });
            assert(c.entries() =~= from_base + changes_added(be, te.take(j + 1)));
        }
        j = j + 1;
    }
    assert(te.take(m as int) =~= te);
    c
}

/// Hot paths as (stack, gas) entries.
pub open spec fn path_entries(ps: Seq<HotPath>) -> Seq<(Seq<char>, u64)> {
    ps.map_values(|p: HotPath| (p.stack@, p.gas))
}

/// Comparison of a baseline path with the target's gas for the same stack.
pub open spec fn comparison_of(p: HotPath, target_gas: u64) -> HotPathComparison {
    HotPathComparison {
        stack: p.stack,
        baseline_gas: p.gas,
        target_gas,
        gas_change: signed_change(p.gas, target_gas) as i64,
        percent_change: Percentage { change: signed_change(p.gas, target_gas) as i64, base: p.gas },
    }
}

/// Baseline paths whose stack the target also has, compared in baseline order.
pub open spec fn common_paths_of(b: Seq<HotPath>, te: Seq<(Seq<char>, u64)>) -> Seq<HotPathComparison>
    decreases b.len(),
{
    if b.len() == 0 {
        seq![]
    } else {
        let prev = common_paths_of(b.drop_last(), te);
        match lookup(te, b.last().stack@) {
            Some(g) => prev.push(comparison_of(b.last(), g)),
            None => prev,
        }
    }
}

/// Stacks of `ps` that `others` does not have, in the order of `ps`.
pub open spec fn stacks_missing_from(ps: Seq<HotPath>, others: Seq<(Seq<char>, u64)>) -> Seq<String>
    decreases ps.len(),
{
    if ps.len() == 0 {
        seq![]
    } else {
        let prev = stacks_missing_from(ps.drop_last(), others);
        if has_key(others, ps.last().stack@) {
            prev
        } else {
            prev.push(ps.last().stack)
        }
    }
}

/// Position of the first path with the given stack.
fn path_position(ps: &Vec<HotPath>, stack: &String) -> (r: Option<usize>)
    ensures
        match r {
            Some(i) => i < ps@.len() && i as int == find_index(path_entries(ps@), stack@),
            None => find_index(path_entries(ps@), stack@) < 0,
        },
{
    let ghost e = path_entries(ps@);
    let mut i: usize = 0;
    while i < ps.len()
        invariant
            i <= ps@.len(),
            e == path_entries(ps@),
            forall|j: int| 0 <= j < i ==> #[trigger] e[j].0 != stack@,
        decreases ps@.len() - i,
    {
        if ps[i].stack == *stack {
            proof {
                lemma_find_index(e, stack@);
                assert(e[i as int].0 == stack@);
            }
            return Some(i);
        }
        assert(e[i as int].0 == ps@[i as int].stack@);
        i = i + 1;
    }
    proof {
        lemma_find_index(e, stack@);
        if find_index(e, stack@) >= 0 {
            assert(e[find_index(e, stack@)].0 != stack@);
        }
    }
    None
}

/// Stacks of `ps` absent from `others`.
fn stacks_missing(ps: &Vec<HotPath>, others: &Vec<HotPath>) -> (r: Vec<String>)
    ensures
        r@ == stacks_missing_from(ps@, path_entries(others@)),
{
    let ghost oe = path_entries(others@);
    let mut r: Vec<String> = Vec::new();
    let mut i: usize = 0;
    while i < ps.len()
        invariant
            i <= ps@.len(),
            oe == path_entries(others@),
            r@ == stacks_missing_from(ps@.take(i as int), oe),
        decreases ps@.len() - i,
    {
        assert(ps@.take(i + 1).drop_last() =~= ps@.take(i as int));
        proof {
            lemma_find_index(oe, ps@[i as int].stack@);
        }
        if path_position(others, &ps[i].stack).is_none() {
            r.push(ps[i].stack.clone());
        }
        i = i + 1;
    }
    assert(ps@.take(ps@.len() as int) =~= ps@);
    r
}

/// Compares the hot paths the two profiles share, and lists the others.
pub fn compare_hot_paths(baseline: &Vec<HotPath>, target: &Vec<HotPath>) -> (d: HotPathsDelta)
    ensures
        d.common_paths@ == common_paths_of(baseline@, path_entries(target@)),
        d.new_paths@ == stacks_missing_from(target@, path_entries(baseline@)),
        d.removed_paths@ == stacks_missing_from(baseline@, path_entries(target@)),
{
    let ghost te = path_entries(target@);
    let mut common: Vec<HotPathComparison> = Vec::new();
    let mut i: usize = 0;
    while i < baseline.len()
        invariant
            i <= baseline@.len(),
            te == path_entries(target@),
            common@ == common_paths_of(baseline@.take(i as int), te),
        decreases baseline@.len() - i,
    {
        let p = &baseline[i];
        assert(baseline@.take(i + 1).drop_last() =~= baseline@.take(i as int));
        assert(baseline@.take(i + 1).last() == *p);
        match path_position(target, &p.stack) {
            Some(j) => {
                assert(te[j as int].1 == target@[j as int].gas);
                let g = target[j].gas;
                let change = change_between(p.gas, g);
                common.push(HotPathComparison {
                    stack: p.stack.clone(),
                    baseline_gas: p.gas,
                    target_gas: g,
                    gas_change: change,
                    percent_change: safe_percentage(change, p.gas),
                });
            },
            None => {},
        }
        i = i + 1;
    }
    assert(baseline@.take(baseline@.len() as int) =~= baseline@);
    HotPathsDelta {
        common_paths: common,
        new_paths: stacks_missing(target, baseline),
        removed_paths: stacks_missing(baseline, target),
    }
}

/// Identity of a profile as recorded in a report.
pub open spec fn metadata_matches(m: ProfileMetadata, p: Profile) -> bool {
    &&& m.transaction_hash@ == p.transaction_hash@
    &&& m.total_gas == p.total_gas
    &&& m.generated_at@ == p.generated_at@
}

/// The report that comparing `b` with `t` yields, before thresholds are applied.
pub open spec fn is_diff_of(r: DiffReport, b: Profile, t: Profile) -> bool {
    &&& r.diff_version@ == report_version()
    &&& r.generated_at@ == t.generated_at@
    &&& metadata_matches(r.baseline, b)
    &&& metadata_matches(r.target, t)
    &&& r.deltas.gas == gas_delta_of(b.total_gas, t.total_gas)
    &&& r.deltas.hostio.baseline_total_calls == b.hostio_summary.total_calls
    &&& r.deltas.hostio.target_total_calls == t.hostio_summary.total_calls
    &&& r.deltas.hostio.total_calls_change as int
        == signed_change(b.hostio_summary.total_calls, t.hostio_summary.total_calls)
    &&& r.deltas.hostio.total_calls_percent_change == (Percentage {
        change: r.deltas.hostio.total_calls_change,
        base: b.hostio_summary.total_calls,
    })
    &&& r.deltas.hostio.by_type_changes.entries()
        == type_changes(b.hostio_summary.by_type.entries(), t.hostio_summary.by_type.entries())
    &&& r.deltas.hot_paths.common_paths@ == common_paths_of(b.hot_paths@, path_entries(t.hot_paths@))
    &&& r.deltas.hot_paths.new_paths@ == stacks_missing_from(t.hot_paths@, path_entries(b.hot_paths@))
    &&& r.deltas.hot_paths.removed_paths@ == stacks_missing_from(b.hot_paths@, path_entries(t.hot_paths@))
    &&& r.threshold_violations@.len() == 0
    &&& r.summary.status@ == "PASSED"@
    &&& r.summary.violation_count == 0
    &&& !r.summary.has_regressions
    &&& (r.summary.warning is Some <==> b.transaction_hash@ == t.transaction_hash@)
    &&& (r.summary.warning matches Some(w) ==> w@ == same_transaction_warning())
    &&& r.insights@.len() == 0
}

fn metadata(p: &Profile) -> (m: ProfileMetadata)
    ensures
        metadata_matches(m, *p),
{
    ProfileMetadata {
        transaction_hash: p.transaction_hash.clone(),
        total_gas: p.total_gas,
        generated_at: p.generated_at.clone(),
    }
}

/// Compares a baseline profile with a target profile.
///
/// Profiles of different schema versions cannot be compared. The report is
/// stamped with the target's generation time; it carries no threshold
/// violations yet and passes, with a warning when both profiles come from
/// the same transaction.
pub fn generate_diff(baseline: &Profile, target: &Profile) -> (r: Result<DiffReport, DiffError>)
    ensures
        match r {
            Ok(report) => baseline.version@ == target.version@ && is_diff_of(report, *baseline, *target),
            Err(DiffError::IncompatibleVersions { baseline: bv, target: tv }) => {
                &&& baseline.version@ != target.version@
                &&& bv@ == baseline.version@
                &&& tv@ == target.version@
            },
        },
{
    if baseline.version != target.version {
        return Err(DiffError::IncompatibleVersions {
            baseline: baseline.version.clone(),
            target: target.version.clone(),
        });
    }
    let calls_change = change_between(
        baseline.hostio_summary.total_calls,
        target.hostio_summary.total_calls,
    );
    let hostio = HostIoDelta {
        baseline_total_calls: baseline.hostio_summary.total_calls,
        target_total_calls: target.hostio_summary.total_calls,
        total_calls_change: calls_change,
        total_calls_percent_change: safe_percentage(calls_change, baseline.hostio_summary.total_calls),
        by_type_changes: calculate_hostio_type_changes(
            &baseline.hostio_summary.by_type,
            &target.hostio_summary.by_type,
        ),
    };
    let warning = if baseline.transaction_hash == target.transaction_hash {
        Some("Baseline and target profiles have the same transaction hash".to_string())
    } else {
        None
    };
    Ok(DiffReport {
        diff_version: "1.0.0".to_string(),
        generated_at: target.generated_at.clone(),
        baseline: metadata(baseline),
        target: metadata(target),
        deltas: Deltas {
            gas: calculate_gas_delta(baseline.total_gas, target.total_gas),
            hostio,
            hot_paths: compare_hot_paths(&baseline.hot_paths, &target.hot_paths),
        },
        threshold_violations: Vec::new(),
        summary: DiffSummary {
            status: "PASSED".to_string(),
            violation_count: 0,
            has_regressions: false,
            warning,
        },
        insights: Vec::new(),
    })
}

/// Swapping baseline and target negates the gas change, where the change
/// fits in an `i64` both ways.
pub proof fn lemma_gas_delta_antisymmetric(baseline: u64, target: u64)
    requires
        -(i64::MAX as int) <= target as int - baseline as int <= i64::MAX,
    ensures
        gas_delta_of(baseline, target).absolute_change == -gas_delta_of(target, baseline).absolute_change,
{
}

/// Swapping baseline and target negates every per-type change, where the
/// change fits in an `i64` both ways.
pub proof fn lemma_type_changes_antisymmetric(
    be: Seq<(Seq<char>, u64)>,
    te: Seq<(Seq<char>, u64)>,
    k: Seq<char>,
)
    requires
        keys_distinct(be),
        keys_distinct(te),
        has_key(be, k) || has_key(te, k),
        -(i64::MAX as int) <= lookup_or_zero(te, k) as int - lookup_or_zero(be, k) as int <= i64::MAX,
    ensures
        lookup(type_changes(be, te), k) matches Some(forward)
            && lookup(type_changes(te, be), k) matches Some(backward)
            && forward.delta == -backward.delta
            && forward.baseline == backward.target
            && forward.target == backward.baseline,
{
    lemma_type_changes_lookup(be, te, k);
    lemma_type_changes_lookup(te, be, k);
}

/// The stacks of a list of paths are all different.
pub open spec fn stacks_distinct(ps: Seq<HotPath>) -> bool {
    forall|i: int, j: int| 0 <= i < j < ps.len() ==> #[trigger] ps[i].stack@ != #[trigger] ps[j].stack@
}

proof fn lemma_path_entries_distinct(ps: Seq<HotPath>)
    requires
        stacks_distinct(ps),
    ensures
        keys_distinct(path_entries(ps)),
{
    let e = path_entries(ps);
    assert forall|i: int, j: int| 0 <= i < j < e.len() implies #[trigger] e[i].0 != #[trigger] e[j].0 by {
        assert(e[i].0 == ps[i].stack@ && e[j].0 == ps[j].stack@);
    }
}

/// Comparing a prefix of a list of paths with the whole list finds each
/// path, in order, with its own gas.
proof fn lemma_common_with_self(b: Seq<HotPath>, all: Seq<HotPath>)
    requires
        stacks_distinct(all),
        b.len() <= all.len(),
        forall|i: int| 0 <= i < b.len() ==> #[trigger] b[i] == all[i],
    ensures
        common_paths_of(b, path_entries(all)).len() == b.len(),
        forall|i: int| 0 <= i < b.len() ==> #[trigger] common_paths_of(b, path_entries(all))[i]
            == comparison_of(b[i], b[i].gas),
    decreases b.len(),
{
    if b.len() > 0 {
        let bp = b.drop_last();
        assert forall|i: int| 0 <= i < bp.len() implies #[trigger] bp[i] == all[i] by {
            assert(bp[i] == b[i]);
        }
        lemma_common_with_self(bp, all);
        lemma_path_entries_distinct(all);
        let j = b.len() - 1;
        assert(b[j] == all[j]);
        let e = path_entries(all);
        assert(e[j] == (all[j].stack@, all[j].gas));
        lemma_lookup_distinct(e, j);
        assert forall|i: int| 0 <= i < b.len() implies #[trigger] common_paths_of(b, e)[i]
            == comparison_of(b[i], b[i].gas) by {
            if i < b.len() - 1 {
                assert(bp[i] == b[i]);
            }
        }
    }
}

/// No path of a prefix of a list is missing from the whole list.
proof fn lemma_none_missing(ps: Seq<HotPath>, all: Seq<HotPath>)
    requires
        ps.len() <= all.len(),
        forall|i: int| 0 <= i < ps.len() ==> #[trigger] ps[i] == all[i],
    ensures
        stacks_missing_from(ps, path_entries(all)).len() == 0,
    decreases ps.len(),
{
    if ps.len() > 0 {
        let pp = ps.drop_last();
        assert forall|i: int| 0 <= i < pp.len() implies #[trigger] pp[i] == all[i] by {
            assert(pp[i] == ps[i]);
        }
        lemma_none_missing(pp, all);
        let j = ps.len() - 1;
        assert(ps[j] == all[j]);
        assert(path_entries(all)[j].0 == ps.last().stack@);
    }
}

/// Comparing a profile with itself changes nothing: no gas change, no
/// per-type change, every hot path unchanged, none new or removed (for a
/// profile that lists each HostIO type and each stack once).
pub proof fn lemma_self_diff_is_zero(p: Profile, k: Seq<char>)
    requires
        keys_distinct(p.hostio_summary.by_type.entries()),
        stacks_distinct(p.hot_paths@),
    ensures
        gas_delta_of(p.total_gas, p.total_gas).absolute_change == 0,
        signed_change(p.hostio_summary.total_calls, p.hostio_summary.total_calls) == 0,
        has_key(p.hostio_summary.by_type.entries(), k) ==> (lookup(
            type_changes(p.hostio_summary.by_type.entries(), p.hostio_summary.by_type.entries()),
            k,
        ) matches Some(c) && c.delta == 0),
        common_paths_of(p.hot_paths@, path_entries(p.hot_paths@)).len() == p.hot_paths@.len(),
        forall|i: int| 0 <= i < p.hot_paths@.len() ==> (#[trigger] common_paths_of(
            p.hot_paths@,
            path_entries(p.hot_paths@),
        )[i]).gas_change == 0,
        stacks_missing_from(p.hot_paths@, path_entries(p.hot_paths@)).len() == 0,
{
    let e = p.hostio_summary.by_type.entries();
    lemma_type_changes_lookup(e, e, k);
    let ps = p.hot_paths@;
    lemma_common_with_self(ps, ps);
    lemma_none_missing(ps, ps);
}


/// Every baseline hot path is either compared or reported removed: the
/// comparisons and the removed stacks together number the baseline paths.
/// Each baseline path whose stack the target has, whatever the sign of its
/// change, is compared with its own gas and the target's gas for the stack;
/// every comparison comes from such a path.
pub proof fn lemma_common_paths_complete(b: Seq<HotPath>, t: Seq<HotPath>)
    ensures
        common_paths_of(b, path_entries(t)).len() + stacks_missing_from(b, path_entries(t)).len() == b.len(),
        forall|i: int| 0 <= i < b.len() && has_key(path_entries(t), #[trigger] b[i].stack@) ==> exists|k: int|
            0 <= k < common_paths_of(b, path_entries(t)).len()
                && (#[trigger] common_paths_of(b, path_entries(t))[k]).stack@ == b[i].stack@
                && common_paths_of(b, path_entries(t))[k].baseline_gas == b[i].gas
                && lookup(path_entries(t), b[i].stack@) == Some(common_paths_of(b, path_entries(t))[k].target_gas)
                && common_paths_of(b, path_entries(t))[k].gas_change as int
                    == signed_change(b[i].gas, common_paths_of(b, path_entries(t))[k].target_gas),
        forall|k: int| 0 <= k < common_paths_of(b, path_entries(t)).len() ==> exists|i: int| 0 <= i < b.len()
            && (#[trigger] common_paths_of(b, path_entries(t))[k]).stack@ == b[i].stack@
            && common_paths_of(b, path_entries(t))[k].baseline_gas == b[i].gas
            && lookup(path_entries(t), b[i].stack@) == Some(common_paths_of(b, path_entries(t))[k].target_gas),
    decreases b.len(),
{
    let te = path_entries(t);
    if b.len() > 0 {
        let bp = b.drop_last();
        lemma_common_paths_complete(bp, t);
        let prev = common_paths_of(bp, te);
        let cur = common_paths_of(b, te);
        let last = b.last();
        let n = b.len() - 1;
        lemma_find_index(te, last.stack@);
        assert forall|i: int| 0 <= i < b.len() && has_key(te, #[trigger] b[i].stack@) implies exists|k: int|
            0 <= k < cur.len() && (#[trigger] cur[k]).stack@ == b[i].stack@ && cur[k].baseline_gas == b[i].gas
                && lookup(te, b[i].stack@) == Some(cur[k].target_gas)
                && cur[k].gas_change as int == signed_change(b[i].gas, cur[k].target_gas) by {
            if i < n {
                assert(bp[i] == b[i]);
                let k = choose|k: int| 0 <= k < prev.len() && (#[trigger] prev[k]).stack@ == bp[i].stack@
                    && prev[k].baseline_gas == bp[i].gas && lookup(te, bp[i].stack@) == Some(prev[k].target_gas)
                    && prev[k].gas_change as int == signed_change(bp[i].gas, prev[k].target_gas);
                assert(cur[k] == prev[k]);
            } else {
                assert(b[i] == last);
                assert(cur[prev.len() as int] == comparison_of(last, lookup(te, last.stack@)->0));
            }
        }
        assert forall|k: int| 0 <= k < cur.len() implies exists|i: int| 0 <= i < b.len()
            && (#[trigger] cur[k]).stack@ == b[i].stack@ && cur[k].baseline_gas == b[i].gas
            && lookup(te, b[i].stack@) == Some(cur[k].target_gas) by {
            if k < prev.len() {
                assert(cur[k] == prev[k]);
                let i = choose|i: int| 0 <= i < bp.len() && (#[trigger] prev[k]).stack@ == bp[i].stack@
                    && prev[k].baseline_gas == bp[i].gas && lookup(te, bp[i].stack@) == Some(prev[k].target_gas);
                assert(bp[i] == b[i]);
            } else {
                assert(b[n] == last);
            }
        }
    }
}

} // verus!
