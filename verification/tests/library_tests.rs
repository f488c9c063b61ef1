//! Tests of the library's laws on concrete values, its edge cases and its
//! formulas.

use stylus_trace_core::cli::{capture_paths, diff_args, handle_view, ViewAction, ViewError};
use stylus_trace_core::commands::diff::{
    apply_threshold_overrides, diff_outcome, evaluate_thresholds, threshold_source, viewer_path,
    DiffOutcome, ThresholdSource,
};
use stylus_trace_core::diff::engine::{
    calculate_gas_delta, calculate_hostio_type_changes, change_between, compare_hot_paths,
    generate_diff, DiffError,
};
use stylus_trace_core::diff::output::{
    gas_tenths_string, hot_paths_drawable, render_terminal_diff, render_terminal_diff_with,
    shorten_stack,
};
use stylus_trace_core::diff::schema::{
    Deltas, DiffReport, DiffSummary, GasDelta, HostIoDelta, HotPathComparison, HotPathsDelta,
    Insight, InsightSeverity, ProfileMetadata,
};
use stylus_trace_core::diff::threshold::{
    check_hostio_thresholds, check_hot_path_thresholds, check_thresholds, create_summary,
    GasThresholds, HostIOThresholds, HotPathThresholds, ThresholdConfig,
};
use stylus_trace_core::order::order_by_magnitude;
use stylus_trace_core::output::viewer::{
    build_html, diff_viewer_html, encode_json, fits_base64, replace, viewer_html, ViewerAssets,
};
use stylus_trace_core::output::{validate_path, OutputPathError};
use stylus_trace_core::parser::schema::{GasCategory, HostIoSummary, HotPath, Profile};
use stylus_trace_core::paths::{has_extension, path_with_extension, resolve_artifact_path};
use stylus_trace_core::percent::{
    exceeds, hundredths, percent_string, safe_percentage, signed_hundredths, Percentage,
};
use stylus_trace_core::strmap::StrMap;
use stylus_trace_core::text::{dec_string, magnitude};

// ----------------------------------------------------------------------------
// helpers
// ----------------------------------------------------------------------------

fn path(stack: &str, gas: u64) -> HotPath {
    HotPath {
        stack: stack.to_string(),
        gas,
        percentage: 0,
        category: GasCategory::UserCode,
        source_hint: None,
    }
}

fn profile(tx: &str, gas: u64, calls: u64, by_type: StrMap<u64>, hot_paths: Vec<HotPath>) -> Profile {
    Profile {
        version: "1.0.0".to_string(),
        transaction_hash: tx.to_string(),
        total_gas: gas,
        hostio_summary: HostIoSummary { total_calls: calls, by_type, total_hostio_gas: 0 },
        hot_paths,
        all_stacks: None,
        generated_at: format!("generated-{}", tx),
    }
}

fn metadata(tx: &str, gas: u64) -> ProfileMetadata {
    ProfileMetadata { transaction_hash: tx.to_string(), total_gas: gas, generated_at: "now".to_string() }
}

fn report_with(status: &str, count: usize, paths: Vec<HotPathComparison>, insights: Vec<Insight>) -> DiffReport {
    DiffReport {
        diff_version: "1.0.0".to_string(),
        generated_at: "now".to_string(),
        baseline: metadata("0x1", 100),
        target: metadata("0x2", 120),
        deltas: Deltas {
            gas: GasDelta {
                baseline: 100,
                target: 120,
                absolute_change: 20,
                percent_change: Percentage { change: 20, base: 100 },
            },
            hostio: HostIoDelta::default(),
            hot_paths: HotPathsDelta { common_paths: paths, ..Default::default() },
        },
        threshold_violations: vec![],
        summary: DiffSummary {
            status: status.to_string(),
            violation_count: count,
            has_regressions: status == "FAILED",
            warning: None,
        },
        insights,
    }
}

fn comparison(stack: &str, b: u64, t: u64, change: i64) -> HotPathComparison {
    HotPathComparison {
        stack: stack.to_string(),
        baseline_gas: b,
        target_gas: t,
        gas_change: change,
        percent_change: Percentage { change, base: b },
    }
}

fn assets() -> ViewerAssets {
    ViewerAssets {
        html: "<html><link rel=\"stylesheet\" href=\"viewer.css\"><script>var a='/* PROFILE_DATA_B64 */';var b='/* PROFILE_B_DATA_B64 */';var d='/* DIFF_DATA_B64 */';</script><div>/* FLAMEGRAPH_SVG */</div><script src=\"viewer.js\"></script></html>".to_string(),
        css: "body{}".to_string(),
        js: "go();".to_string(),
    }
}

// ----------------------------------------------------------------------------
// map of strings
// ----------------------------------------------------------------------------

#[test]
fn strmap_insert_then_get_gives_the_value() {
    let mut m: StrMap<u64> = StrMap::new();
    assert!(m.is_empty());
    m.insert("a".to_string(), 1);
    m.insert("b".to_string(), 2);
    m.insert("a".to_string(), 3);
    assert_eq!(m.len(), 2);
    assert_eq!(m.get("a"), Some(&3));
    assert_eq!(m.get("b"), Some(&2));
    assert_eq!(m.get("c"), None);
    assert_eq!(m.key_at(0), "a");
    assert_eq!(*m.value_at(1), 2);
}

// ----------------------------------------------------------------------------
// ordering by magnitude
// ----------------------------------------------------------------------------

#[test]
fn order_by_magnitude_is_descending_and_stable() {
    let order = order_by_magnitude(&vec![5, 20, 5, 30, 0]);
    assert_eq!(order, vec![3, 1, 0, 2, 4]);
    assert_eq!(order_by_magnitude(&vec![]), Vec::<usize>::new());
}

#[test]
fn magnitude_of_extremes() {
    assert_eq!(magnitude(-5), 5);
    assert_eq!(magnitude(7), 7);
    assert_eq!(magnitude(i64::MIN), 9223372036854775808);
    assert_eq!(dec_string(0), "0");
    assert_eq!(dec_string(u64::MAX), "18446744073709551615");
}

// ----------------------------------------------------------------------------
// percentages
// ----------------------------------------------------------------------------

#[test]
fn percentage_formulas() {
    assert_eq!(hundredths(Percentage { change: -1, base: 3 }), 3333);
    assert_eq!(hundredths(Percentage { change: 2, base: 3 }), 6667);
    assert_eq!(hundredths(Percentage { change: 10, base: 0 }), 0);
    assert_eq!(signed_hundredths(Percentage { change: -50, base: 150 }), -3333);
    assert_eq!(signed_hundredths(Percentage { change: i64::MAX, base: 1 }), i64::MAX);
    assert_eq!(percent_string(Percentage { change: -1, base: 3 }), "-33.33");
    assert_eq!(percent_string(Percentage { change: 2, base: 3 }), "66.67");
    assert_eq!(percent_string(Percentage { change: 0, base: 0 }), "0.00");
    assert_eq!(percent_string(Percentage { change: 1, base: 200 }), "0.50");
    assert_eq!(percent_string(Percentage { change: 1, base: 800 }), "0.12");
    assert_eq!(percent_string(Percentage { change: -3, base: 800 }), "-0.38");
    assert_eq!(hundredths(Percentage { change: 1, base: 800 }), 12);
    let p = safe_percentage(-7, 0);
    assert_eq!(p, Percentage { change: -7, base: 0 });
}

#[test]
fn percentage_exceeds_is_strict() {
    assert!(exceeds(Percentage { change: 50, base: 100 }, 1000));
    assert!(!exceeds(Percentage { change: 50, base: 100 }, 5000));
    assert!(exceeds(Percentage { change: 50, base: 100 }, 4999));
    assert!(!exceeds(Percentage { change: 5, base: 0 }, 0));
    assert!(exceeds(Percentage { change: 5, base: 0 }, -1));
}

// ----------------------------------------------------------------------------
// diff engine
// ----------------------------------------------------------------------------

#[test]
fn change_between_saturates() {
    assert_eq!(change_between(100, 150), 50);
    assert_eq!(change_between(150, 100), -50);
    assert_eq!(change_between(0, u64::MAX), i64::MAX);
    assert_eq!(change_between(u64::MAX, 0), i64::MIN);
}

#[test]
fn gas_delta_swapped_is_negated() {
    let a = calculate_gas_delta(1200, 900);
    let b = calculate_gas_delta(900, 1200);
    assert_eq!(a.absolute_change, -b.absolute_change);
    assert_eq!(a.percent_change, Percentage { change: -300, base: 1200 });
    assert_eq!(b.percent_change, Percentage { change: 300, base: 900 });
}

#[test]
fn type_changes_swapped_are_negated() {
    let mut b = StrMap::new();
    b.insert("load".to_string(), 10);
    b.insert("call".to_string(), 3);
    let mut t = StrMap::new();
    t.insert("store".to_string(), 5);
    t.insert("call".to_string(), 8);
    let forward = calculate_hostio_type_changes(&b, &t);
    let backward = calculate_hostio_type_changes(&t, &b);
    assert_eq!(forward.len(), 3);
    for k in ["load", "call", "store"] {
        let f = forward.get(k).unwrap();
        let g = backward.get(k).unwrap();
        assert_eq!(f.delta, -g.delta);
        assert_eq!(f.baseline, g.target);
        assert_eq!(f.target, g.baseline);
    }
    assert_eq!(forward.get("call").unwrap().delta, 5);
}

#[test]
fn self_diff_is_zero() {
    let mut types = StrMap::new();
    types.insert("storage_load".to_string(), 4);
    let p = profile("0xabc", 5000, 4, types, vec![path("a;b", 300), path("a;c", 200)]);
    let d = generate_diff(&p, &p).unwrap();
    assert_eq!(d.deltas.gas.absolute_change, 0);
    assert_eq!(d.deltas.hostio.total_calls_change, 0);
    assert_eq!(d.deltas.hostio.by_type_changes.get("storage_load").unwrap().delta, 0);
    assert_eq!(d.deltas.hot_paths.common_paths.len(), 2);
    assert!(d.deltas.hot_paths.common_paths.iter().all(|c| c.gas_change == 0));
    assert!(d.deltas.hot_paths.new_paths.is_empty());
    assert!(d.deltas.hot_paths.removed_paths.is_empty());
    assert!(d.summary.warning.is_some());
    assert_eq!(d.summary.status, "PASSED");
}

#[test]
fn generate_diff_reports_versions_on_mismatch() {
    let b = profile("0x1", 1, 0, StrMap::new(), vec![]);
    let mut t = profile("0x2", 1, 0, StrMap::new(), vec![]);
    t.version = "2.0.0".to_string();
    match generate_diff(&b, &t) {
        Err(DiffError::IncompatibleVersions { baseline, target }) => {
            assert_eq!(baseline, "1.0.0");
            assert_eq!(target, "2.0.0");
        }
        Ok(_) => panic!("versions differ"),
    }
}

#[test]
fn generate_diff_fills_metadata_and_hostio() {
    let b = profile("0x1", 1000, 10, StrMap::new(), vec![]);
    let t = profile("0x2", 1500, 15, StrMap::new(), vec![]);
    let d = generate_diff(&b, &t).unwrap();
    assert_eq!(d.baseline.transaction_hash, "0x1");
    assert_eq!(d.target.total_gas, 1500);
    assert_eq!(d.deltas.hostio.total_calls_change, 5);
    assert_eq!(d.deltas.hostio.total_calls_percent_change, Percentage { change: 5, base: 10 });
    assert!(d.summary.warning.is_none());
    assert_eq!(d.summary.violation_count, 0);
}

#[test]
fn compare_hot_paths_splits_common_new_and_removed() {
    let b = vec![path("a", 100), path("b", 50)];
    let t = vec![path("c", 10), path("a", 150)];
    let d = compare_hot_paths(&b, &t);
    assert_eq!(d.common_paths.len(), 1);
    assert_eq!(d.common_paths[0].stack, "a");
    assert_eq!(d.common_paths[0].baseline_gas, 100);
    assert_eq!(d.common_paths[0].target_gas, 150);
    assert_eq!(d.common_paths[0].gas_change, 50);
    assert_eq!(d.new_paths, vec!["c".to_string()]);
    assert_eq!(d.removed_paths, vec!["b".to_string()]);
}

// ----------------------------------------------------------------------------
// thresholds
// ----------------------------------------------------------------------------

#[test]
fn no_limits_pass() {
    let b = profile("0x1", 100, 1, StrMap::new(), vec![]);
    let t = profile("0x2", 1000, 9, StrMap::new(), vec![]);
    let mut d = generate_diff(&b, &t).unwrap();
    let v = check_thresholds(&mut d, &ThresholdConfig::default());
    assert!(v.is_empty());
    assert_eq!(d.summary.status, "PASSED");
    assert_eq!(d.summary.violation_count, 0);
}

#[test]
fn gas_limit_gates_the_verdict() {
    let b = profile("0x1", 100, 0, StrMap::new(), vec![]);
    let t = profile("0x2", 110, 0, StrMap::new(), vec![]);
    let config = |limit: i64| ThresholdConfig {
        gas: GasThresholds { max_increase_percent: Some(limit), max_increase_absolute: None },
        ..Default::default()
    };
    let mut d = generate_diff(&b, &t).unwrap();
    let v = check_thresholds(&mut d, &config(1000));
    assert!(v.is_empty());
    assert_eq!(d.summary.status, "PASSED");
    let mut d = generate_diff(&b, &t).unwrap();
    let v = check_thresholds(&mut d, &config(999));
    assert_eq!(v.len(), 1);
    assert_eq!(v[0].metric, "gas.max_increase_percent");
    assert_eq!(v[0].threshold, 999);
    assert_eq!(v[0].actual, 1000);
    assert_eq!(v[0].severity, "error");
    assert_eq!(d.summary.status, "FAILED");
    assert!(d.summary.has_regressions);
    assert_eq!(d.threshold_violations.len(), 1);
}

#[test]
fn gas_absolute_limit() {
    let b = profile("0x1", 100, 0, StrMap::new(), vec![]);
    let t = profile("0x2", 180, 0, StrMap::new(), vec![]);
    let mut d = generate_diff(&b, &t).unwrap();
    let config = ThresholdConfig {
        gas: GasThresholds { max_increase_percent: None, max_increase_absolute: Some(50) },
        ..Default::default()
    };
    let v = check_thresholds(&mut d, &config);
    assert_eq!(v.len(), 1);
    assert_eq!(v[0].metric, "gas.max_increase_absolute");
    assert_eq!(v[0].threshold, 50);
    assert_eq!(v[0].actual, 80);
}

#[test]
fn hostio_limits_report_each_type() {
    let mut bt = StrMap::new();
    bt.insert("storage_load".to_string(), 10);
    bt.insert("call".to_string(), 1);
    let mut tt = StrMap::new();
    tt.insert("storage_load".to_string(), 20);
    tt.insert("call".to_string(), 2);
    let b = profile("0x1", 100, 11, bt, vec![]);
    let t = profile("0x2", 100, 22, tt, vec![]);
    let d = generate_diff(&b, &t).unwrap();
    let mut limits = StrMap::new();
    limits.insert("storage_load".to_string(), 5);
    limits.insert("call".to_string(), 5);
    limits.insert("absent".to_string(), 0);
    let thresholds = HostIOThresholds { max_total_calls_increase_percent: Some(5000), limits: Some(limits) };
    let mut v = vec![];
    check_hostio_thresholds(&d.deltas.hostio, &thresholds, &mut v);
    assert_eq!(v.len(), 2);
    assert_eq!(v[0].metric, "hostio.max_total_calls_increase_percent");
    assert_eq!(v[0].actual, 10000);
    assert_eq!(v[1].metric, "hostio.limits.storage_load");
    assert_eq!(v[1].threshold, 5);
    assert_eq!(v[1].actual, 10);
}

#[test]
fn hot_path_limit_warns() {
    let paths = vec![comparison("a;b", 100, 130, 30), comparison("a;c", 100, 105, 5)];
    let mut v = vec![];
    let t = Some(HotPathThresholds { warn_individual_increase_percent: Some(1000) });
    check_hot_path_thresholds(&paths, &t, &mut v);
    assert_eq!(v.len(), 1);
    assert_eq!(v[0].metric, "hot_paths.a;b");
    assert_eq!(v[0].severity, "warning");
    assert_eq!(v[0].actual, 3000);
    assert_eq!(create_summary(&v).status, "WARNING");
    let mut none = vec![];
    check_hot_path_thresholds(&paths, &None, &mut none);
    assert!(none.is_empty());
    assert_eq!(create_summary(&none).status, "PASSED");
}

// ----------------------------------------------------------------------------
// diff command
// ----------------------------------------------------------------------------

#[test]
fn threshold_source_precedence() {
    match threshold_source(&Some("my.toml".to_string()), true) {
        ThresholdSource::File(f) => assert_eq!(f, "my.toml"),
        other => panic!("{:?}", other),
    }
    assert!(matches!(threshold_source(&None, true), ThresholdSource::AutoFile));
    assert!(matches!(threshold_source(&None, false), ThresholdSource::Defaults));
}

fn loaded() -> ThresholdConfig {
    let mut limits = StrMap::new();
    limits.insert("call".to_string(), 3);
    ThresholdConfig {
        gas: GasThresholds { max_increase_percent: Some(100), max_increase_absolute: Some(7) },
        hostio: HostIOThresholds { max_total_calls_increase_percent: Some(200), limits: Some(limits) },
        hot_paths: Some(HotPathThresholds { warn_individual_increase_percent: Some(300) }),
    }
}

#[test]
fn threshold_overrides_modes() {
    let c = apply_threshold_overrides(loaded(), None, None, None);
    assert_eq!(c.gas.max_increase_percent, Some(100));
    assert_eq!(c.gas.max_increase_absolute, Some(7));
    assert!(c.hostio.limits.is_some());

    let c = apply_threshold_overrides(loaded(), Some(500), None, None);
    assert_eq!(c.gas.max_increase_percent, Some(500));
    assert_eq!(c.gas.max_increase_absolute, None);
    assert_eq!(c.hostio.max_total_calls_increase_percent, Some(500));
    assert!(c.hostio.limits.is_none());
    assert_eq!(c.hot_paths.unwrap().warn_individual_increase_percent, Some(500));

    let c = apply_threshold_overrides(loaded(), None, Some(250), None);
    assert_eq!(c.gas.max_increase_percent, Some(250));
    assert_eq!(c.hostio.max_total_calls_increase_percent, None);
    assert!(c.hostio.limits.is_none());
    assert!(c.hot_paths.is_none());

    let c = apply_threshold_overrides(loaded(), None, None, Some(350));
    assert_eq!(c.gas.max_increase_percent, None);
    assert_eq!(c.hostio.max_total_calls_increase_percent, Some(350));
    assert!(c.hot_paths.is_none());

    let c = apply_threshold_overrides(loaded(), Some(500), Some(250), None);
    assert_eq!(c.gas.max_increase_percent, Some(250));
    assert_eq!(c.hostio.max_total_calls_increase_percent, Some(500));
}

#[test]
fn evaluate_thresholds_applies_overrides() {
    let b = profile("0x1", 100, 0, StrMap::new(), vec![]);
    let t = profile("0x2", 150, 0, StrMap::new(), vec![]);
    let mut d = generate_diff(&b, &t).unwrap();
    let args = diff_args("b.json", "t.json", None, None, Some(1000), None, false, None, None, false);
    let v = evaluate_thresholds(&mut d, ThresholdConfig::default(), &args);
    assert_eq!(v.len(), 1);
    assert_eq!(d.summary.status, "FAILED");
    assert_eq!(diff_outcome(&d), DiffOutcome::RegressionDetected);
}

#[test]
fn diff_outcome_only_fails_on_failed() {
    assert_eq!(diff_outcome(&report_with("FAILED", 1, vec![], vec![])), DiffOutcome::RegressionDetected);
    assert_eq!(diff_outcome(&report_with("WARNING", 1, vec![], vec![])), DiffOutcome::Passed);
    assert_eq!(diff_outcome(&report_with("PASSED", 0, vec![], vec![])), DiffOutcome::Passed);
}

#[test]
fn viewer_path_follows_output_or_target() {
    let args = diff_args("b.json", "t.json", None, None, None, None, false, Some("report.json"), None, true);
    assert_eq!(viewer_path(&args), "artifacts/diff/report.html");
    let args = diff_args("b.json", "t.json", None, None, None, None, false, None, None, true);
    assert_eq!(viewer_path(&args), "artifacts/capture/t.diff.html");
}

#[test]
fn diff_args_places_paths() {
    let a = diff_args(
        "base.json",
        "dir/target.json",
        Some("limits.toml".to_string()),
        Some(500),
        None,
        Some(20),
        true,
        Some("out.json"),
        Some("/tmp/f.svg"),
        false,
    );
    assert_eq!(a.baseline, "artifacts/capture/base.json");
    assert_eq!(a.target, "dir/target.json");
    assert_eq!(a.threshold_file, Some("limits.toml".to_string()));
    assert_eq!(a.threshold_percent, Some(500));
    assert_eq!(a.hostio_threshold, Some(20));
    assert!(a.summary);
    assert_eq!(a.output, Some("artifacts/diff/out.json".to_string()));
    assert_eq!(a.output_svg, Some("/tmp/f.svg".to_string()));
}

#[test]
fn capture_paths_places_paths() {
    let p = capture_paths("profile.json", Some("flame.svg"), None);
    assert_eq!(p.output, "artifacts/capture/profile.json");
    assert_eq!(p.flamegraph, Some("artifacts/capture/flame.svg".to_string()));
    assert!(p.baseline.is_none());
}

// ----------------------------------------------------------------------------
// paths
// ----------------------------------------------------------------------------

#[test]
fn artifact_paths() {
    assert_eq!(resolve_artifact_path("profile.json", "capture"), "artifacts/capture/profile.json");
    assert_eq!(resolve_artifact_path("/abs/profile.json", "capture"), "/abs/profile.json");
    assert_eq!(resolve_artifact_path("/profile.json", "capture"), "/profile.json");
    assert_eq!(resolve_artifact_path("a/b.json", "diff"), "a/b.json");
    assert_eq!(resolve_artifact_path("./b.json", "diff"), "./b.json");
    assert_eq!(resolve_artifact_path("", "diff"), "artifacts/diff/");
    let once = resolve_artifact_path("x.json", "diff");
    assert_eq!(resolve_artifact_path(&once, "diff"), once);
}

#[test]
fn extensions() {
    assert!(has_extension("a/b.json", "json"));
    assert!(!has_extension("a/.json", "json"));
    assert!(!has_extension("a.json/..", "json"));
    assert!(has_extension("a.tar.json/", "json"));
    assert_eq!(path_with_extension("a/b.json", "html"), "a/b.html");
    assert_eq!(path_with_extension("a/b", "html"), "a/b.html");
    assert_eq!(path_with_extension("a/b.tar.gz", ""), "a/b.tar");
    assert_eq!(path_with_extension("/", "html"), "/");
    assert_eq!(path_with_extension("t.json", "diff.html"), "t.diff.html");
}

// ----------------------------------------------------------------------------
// view command
// ----------------------------------------------------------------------------

#[test]
fn view_opens_an_existing_profile() {
    match handle_view("artifacts/capture/p.json", "http://rpc", true).unwrap() {
        ViewAction::OpenProfile { profile, viewer } => {
            assert_eq!(profile, "artifacts/capture/p.json");
            assert_eq!(viewer, "artifacts/capture/p.html");
        }
        other => panic!("{:?}", other),
    }
}

#[test]
fn view_captures_a_transaction_hash() {
    let hash = format!("0x{}", "ab".repeat(32));
    match handle_view(&hash, "http://rpc", false).unwrap() {
        ViewAction::Capture { rpc_url, transaction_hash, output_json } => {
            assert_eq!(rpc_url, "http://rpc");
            assert_eq!(transaction_hash, hash);
            assert_eq!(output_json, "artifacts/capture/profile.json");
        }
        other => panic!("{:?}", other),
    }
}

#[test]
fn view_refuses_other_input() {
    assert_eq!(handle_view("p.json", "r", false).unwrap_err(), ViewError::InvalidInput);
    assert_eq!(handle_view("0x1234", "r", false).unwrap_err(), ViewError::InvalidInput);
    assert_eq!(handle_view("p.txt", "r", true).unwrap_err(), ViewError::InvalidInput);
}

// ----------------------------------------------------------------------------
// viewer page
// ----------------------------------------------------------------------------

#[test]
fn encode_json_is_standard_base64() {
    assert_eq!(encode_json("{}"), "e30=");
    assert_eq!(encode_json(""), "");
    assert_eq!(encode_json("</script>"), "PC9zY3JpcHQ+");
    assert_eq!(encode_json("é"), "w6k=");
    assert_eq!(encode_json("ab"), "YWI=");
    assert_eq!(encode_json("abcd"), "YWJjZA==");
    assert!(fits_base64("{\"a\":1}"));
    let e = encode_json("{\"html\":\"</script><b>\"}");
    assert!(!e.contains('<'));
}

#[test]
fn replace_every_occurrence() {
    assert_eq!(replace("a-b-c", "-", "+"), "a+b+c");
    assert_eq!(replace("aaa", "aa", "b"), "ba");
    assert_eq!(replace("abc", "x", "y"), "abc");
    assert_eq!(replace("abc", "", "x"), "xaxbxcx");
    assert_eq!(replace("", "", "x"), "x");
}

#[test]
fn build_html_fills_every_slot() {
    let html = build_html(&assets(), "QQ==", Some("Qg=="), None, Some("<svg/>"));
    assert_eq!(
        html,
        "<html><style>body{}</style><script>var a='QQ==';var b='Qg==';var d='';</script><div><svg/></div><script>go();</script></html>"
    );
}

#[test]
fn viewer_pages_embed_encoded_json() {
    let single = viewer_html(&assets(), "{}", None);
    assert!(single.contains("var a='e30=';var b='';var d='';"));
    let diff = diff_viewer_html(&assets(), "{}", "[]", "1", None);
    assert!(diff.contains("var a='e30=';var b='W10=';var d='MQ==';"));
}

#[test]
fn validate_path_accepts_a_name() {
    assert!(validate_path("out.json", false).is_ok());
    assert_eq!(validate_path("", false).unwrap_err(), OutputPathError::EmptyPath);
    assert_eq!(validate_path("", true).unwrap_err(), OutputPathError::EmptyPath);
    assert_eq!(validate_path("out", true).unwrap_err(), OutputPathError::IsDirectory);
}

// ----------------------------------------------------------------------------
// terminal summary
// ----------------------------------------------------------------------------

#[test]
fn shorten_stack_keeps_last_two_frames() {
    assert_eq!(shorten_stack("a;b;c;d"), "...;c;d");
    assert_eq!(shorten_stack("a;b;c"), "...;b;c");
    assert_eq!(shorten_stack("a;b"), "a;b");
    assert_eq!(shorten_stack("main"), "main");
    assert_eq!(shorten_stack(""), "");
    let s = shorten_stack("x;y;z;w");
    assert_eq!(shorten_stack(&s), s);
}

#[test]
fn gas_tenths_rounding() {
    assert_eq!(gas_tenths_string(5000000), "500.0");
    assert_eq!(gas_tenths_string(1234567), "123.5");
    assert_eq!(gas_tenths_string(1234499), "123.4");
    assert_eq!(gas_tenths_string(0), "0.0");
    assert_eq!(gas_tenths_string(2500), "0.2");
    assert_eq!(gas_tenths_string(3500), "0.3");
    assert_eq!(gas_tenths_string(2501), "0.3");
    assert_eq!(gas_tenths_string(500), "0.1");
    assert_eq!(gas_tenths_string(1500), "0.1");
    assert_eq!(gas_tenths_string(10000000), "1000.0");
    assert_eq!(gas_tenths_string(9007199254740993), "900719925474.1");
    assert_eq!(gas_tenths_string(123456789012345678), "12345678901234.6");
    assert_eq!(gas_tenths_string(u64::MAX), "1844674407370955.2");
}

#[test]
fn render_with_plain_pieces_is_exact() {
    let r = report_with("PASSED", 0, vec![], vec![]);
    let out = render_terminal_diff_with(&r, "T", "", &vec![], "S");
    let rule = "---------------------------------------------------\n";
    let expected = format!(
        "\n📊 T\n{rule}Baseline: 0x1\nTarget:   0x2\n{rule}\n📈 Total Gas: 100 -> 120 (+20.00%)\n➡️ HostIO Calls: 0 -> 0 (+0.00%)\n\n{rule}S\n"
    );
    assert_eq!(out, expected);
}

#[test]
fn render_lists_insights_and_verdict() {
    let insights = vec![
        Insight { category: "gas".to_string(), description: "grew".to_string(), severity: InsightSeverity::High },
        Insight { category: "io".to_string(), description: "same".to_string(), severity: InsightSeverity::Info },
    ];
    let r = report_with("WARNING", 2, vec![], insights);
    let parts = vec![("gas".to_string(), "grew".to_string()), ("io".to_string(), "same".to_string())];
    let out = render_terminal_diff_with(&r, "T", "I", &parts, "S");
    assert!(out.contains("\n💡 I\n  • [gas] grew\n  • [io] same\n"));
    let styled = render_terminal_diff(&r);
    assert!(styled.contains("Optimization Insights:"));
    assert!(styled.contains("STATUS: WARNING (2 violations)"));
    let failed = render_terminal_diff(&report_with("FAILED", 3, vec![], vec![]));
    assert!(failed.contains("STATUS: REGRESSION DETECTED (3 violations)"));
    let passed = render_terminal_diff(&report_with("PASSED", 0, vec![], vec![]));
    assert!(passed.contains("STATUS: PASSED"));
}

#[test]
fn hot_path_table_orders_rows_and_cuts_long_stacks() {
    let long = "a;very_long_function_name_number_one;another_quite_long_function_name";
    let paths = vec![
        comparison("a;small", 1000, 2000, 1000),
        comparison(long, 10000000, 5000000, -5000000),
    ];
    let r = report_with("PASSED", 0, paths, vec![]);
    assert!(hot_paths_drawable(&r));
    let out = render_terminal_diff(&r);
    let big = out.find("1000.0").unwrap();
    let small = out.find("a;small").unwrap();
    assert!(big < small);
    assert!(out.contains("...ne;another_quite_long_function_name"));
}

#[test]
fn hot_path_table_refuses_a_cut_inside_a_character() {
    let stack = format!("{}é{}", "x".repeat(3), "y".repeat(34));
    let r = report_with("PASSED", 0, vec![comparison(&stack, 10, 20, 10)], vec![]);
    assert!(!hot_paths_drawable(&r));
    let fine = report_with("PASSED", 0, vec![comparison("x;y", 10, 20, 10)], vec![]);
    assert!(hot_paths_drawable(&fine));
}

#[test]
fn gas_threshold_of_one_percent_fails_only_above_it() {
    let b = profile("0x1", 10000, 0, StrMap::new(), vec![]);
    let at_limit = profile("0x2", 10100, 0, StrMap::new(), vec![]);
    let above = profile("0x3", 10101, 0, StrMap::new(), vec![]);
    let args = diff_args("b.json", "t.json", None, None, Some(100), None, false, None, None, false);
    let mut d = generate_diff(&b, &at_limit).unwrap();
    evaluate_thresholds(&mut d, ThresholdConfig::default(), &args);
    assert_eq!(diff_outcome(&d), DiffOutcome::Passed);
    let mut d = generate_diff(&b, &above).unwrap();
    evaluate_thresholds(&mut d, ThresholdConfig::default(), &args);
    assert_eq!(diff_outcome(&d), DiffOutcome::RegressionDetected);
}

#[test]
fn paths_with_a_directory_are_kept() {
    let a = diff_args(
        "artifacts/capture/baseline.json",
        "artifacts/capture/current_profile.json",
        None,
        None,
        None,
        None,
        true,
        Some("artifacts/diff/diff_report.json"),
        Some("artifacts/diff/diff.svg"),
        false,
    );
    assert_eq!(a.baseline, "artifacts/capture/baseline.json");
    assert_eq!(a.target, "artifacts/capture/current_profile.json");
    assert_eq!(a.output, Some("artifacts/diff/diff_report.json".to_string()));
    assert_eq!(a.output_svg, Some("artifacts/diff/diff.svg".to_string()));
}
