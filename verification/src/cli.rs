//! Decisions of the command-line front end: where artifacts go and what
//! the `view` command does with its argument.

use vstd::prelude::*;
use vstd::utf8::encode_utf8;
use crate::commands::diff::DiffArgs;
use crate::paths::{artifact_path, extension, has_extension, path_with_extension, resolve_artifact_path, with_extension};
use crate::text::{chars_of, push_str};

verus! {

broadcast use vstd::string::group_string_axioms;

/// What the `view` command does.
#[derive(Debug)]
pub enum ViewAction {
    /// Open an existing profile in a viewer page written next to it.
    OpenProfile { profile: String, viewer: String },
    /// Capture the transaction and view the new profile.
    Capture { rpc_url: String, transaction_hash: String, output_json: String },
}

/// The `view` argument is neither a profile nor a transaction hash.
#[derive(Debug, PartialEq, Eq)]
pub enum ViewError {
    InvalidInput,
}

/// A transaction hash: `0x` and 66 bytes in all.
pub open spec fn looks_like_tx_hash(s: Seq<char>) -> bool {
    s.len() >= 2 && s[0] == '0' && s[1] == 'x' && encode_utf8(s).len() == 66
}

/// A text has between one and four UTF-8 bytes per character.
proof fn lemma_utf8_len_bounds(s: Seq<char>)
    ensures
        s.len() <= encode_utf8(s).len() <= 4 * s.len(),
    decreases s.len(),
{
    if s.len() > 0 {
        lemma_utf8_len_bounds(s.drop_first());
    }
}

/// Handles the `view` command: an existing `.json` file is opened, a
/// transaction hash is captured and then viewed, anything else is refused.
/// `path_exists` tells whether `tx_or_path` names an existing path.
pub fn handle_view(tx_or_path: &str, rpc: &str, path_exists: bool) -> (r: Result<ViewAction, ViewError>)
    ensures
        match r {
            Ok(ViewAction::OpenProfile { profile, viewer }) => {
                &&& path_exists && extension(tx_or_path@) == Some("json"@)
                &&& profile@ == tx_or_path@
                &&& viewer@ == with_extension(tx_or_path@, "html"@)
            },
            Ok(ViewAction::Capture { rpc_url, transaction_hash, output_json }) => {
                &&& !(path_exists && extension(tx_or_path@) == Some("json"@))
                &&& looks_like_tx_hash(tx_or_path@)
                &&& rpc_url@ == rpc@
                &&& transaction_hash@ == tx_or_path@
                &&& output_json@ == artifact_path("profile.json"@, "capture"@)
            },
            Err(e) => {
                &&& e == ViewError::InvalidInput
                &&& !(path_exists && extension(tx_or_path@) == Some("json"@))
                &&& !looks_like_tx_hash(tx_or_path@)
            },
        },
{
    if path_exists && has_extension(tx_or_path, "json") {
        let mut profile = String::new();
        push_str(&mut profile, tx_or_path);
        assert(profile@ =~= tx_or_path@);
        return Ok(ViewAction::OpenProfile {
            profile,
            viewer: path_with_extension(tx_or_path, "html"),
        });
    }
    let c = chars_of(tx_or_path);
    proof {
        lemma_utf8_len_bounds(tx_or_path@);
    }
    if c.len() >= 2 && c[0] == '0' && c[1] == 'x' && c.len() <= 66 && tx_or_path.len() == 66 {
        let mut rpc_url = String::new();
        push_str(&mut rpc_url, rpc);
        assert(rpc_url@ =~= rpc@);
        let mut transaction_hash = String::new();
        push_str(&mut transaction_hash, tx_or_path);
        assert(transaction_hash@ =~= tx_or_path@);
        Ok(ViewAction::Capture {
            rpc_url,
            transaction_hash,
            output_json: resolve_artifact_path("profile.json", "capture"),
        })
    } else {
        Err(ViewError::InvalidInput)
    }
}

/// A path placed by `resolve_artifact_path`, if there is one.
pub open spec fn artifact_option(p: Option<String>, category: Seq<char>) -> Option<Seq<char>> {
    match p {
        Some(s) => Some(artifact_path(s@, category)),
        None => None,
    }
}

/// The view of an optional string.
pub open spec fn text_option(p: Option<String>) -> Option<Seq<char>> {
    match p {
        Some(s) => Some(s@),
        None => None,
    }
}

fn resolve_option(p: Option<&str>, category: &str) -> (r: Option<String>)
    ensures
        match p {
            Some(s) => r matches Some(t) && t@ == artifact_path(s@, category@),
            None => r is None,
        },
{
    match p {
        Some(s) => Some(resolve_artifact_path(s, category)),
        None => None,
    }
}

/// The diff command's arguments: profiles are looked up under
/// `artifacts/capture/`, outputs go under `artifacts/diff/`.
pub fn diff_args(
    baseline: &str,
    target: &str,
    threshold: Option<String>,
    threshold_percent: Option<i64>,
    gas_threshold: Option<i64>,
    hostio_threshold: Option<i64>,
    summary: bool,
    output: Option<&str>,
    flamegraph: Option<&str>,
    view: bool,
) -> (a: DiffArgs)
    ensures
        a.baseline@ == artifact_path(baseline@, "capture"@),
        a.target@ == artifact_path(target@, "capture"@),
        a.threshold_file == threshold,
        a.threshold_percent == threshold_percent,
        a.gas_threshold == gas_threshold,
        a.hostio_threshold == hostio_threshold,
        a.summary == summary,
        match output {
            Some(o) => a.output matches Some(p) && p@ == artifact_path(o@, "diff"@),
            None => a.output is None,
        },
        match flamegraph {
            Some(f) => a.output_svg matches Some(p) && p@ == artifact_path(f@, "diff"@),
            None => a.output_svg is None,
        },
        a.view == view,
{
    DiffArgs {
        baseline: resolve_artifact_path(baseline, "capture"),
        target: resolve_artifact_path(target, "capture"),
        threshold_file: threshold,
        threshold_percent,
        summary,
        output: resolve_option(output, "diff"),
        output_svg: resolve_option(flamegraph, "diff"),
        gas_threshold,
        hostio_threshold,
        view,
    }
}

/// Output and input paths of the capture command.
#[derive(Debug)]
pub struct CapturePaths {
    pub output: String,
    pub flamegraph: Option<String>,
    pub baseline: Option<String>,
}

/// The capture command's paths, all placed under `artifacts/capture/`.
pub fn capture_paths(output: &str, flamegraph: Option<&str>, baseline: Option<&str>) -> (p: CapturePaths)
    ensures
        p.output@ == artifact_path(output@, "capture"@),
        match flamegraph {
            Some(f) => p.flamegraph matches Some(q) && q@ == artifact_path(f@, "capture"@),
            None => p.flamegraph is None,
        },
        match baseline {
            Some(b) => p.baseline matches Some(q) && q@ == artifact_path(b@, "capture"@),
            None => p.baseline is None,
        },
{
    CapturePaths {
        output: resolve_artifact_path(output, "capture"),
        flamegraph: resolve_option(flamegraph, "capture"),
        baseline: resolve_option(baseline, "capture"),
    }
}

} // verus!
