//! Terminal colours for the diff summary, through the `colored` crate.
//!
//! Whether `colored` emits escape sequences depends on the environment
//! (`NO_COLOR`, `CLICOLOR`, `CLICOLOR_FORCE`, whether stdout is a terminal)
//! and on any override set at run time, so each call states both outcomes:
//! the text unchanged, or the text between the style's escape sequence and
//! the reset sequence.

use vstd::prelude::*;
use colored::Colorize;

verus! {

/// The ANSI reset sequence.
pub open spec fn reset_code() -> Seq<char> {
    "\x1b[0m"@
}

/// `r` is `s` either unstyled or wrapped in the SGR parameters `code`.
pub open spec fn painted(code: Seq<char>, s: Seq<char>, r: Seq<char>) -> bool {
    r == s || r == "\x1b["@ + code + "m"@ + s + reset_code()
}

/// `s` contains the reset sequence, which `colored` re-styles inside a
/// styled string.
pub open spec fn has_reset(s: Seq<char>) -> bool {
    exists|i: int| 0 <= i && i + 4 <= s.len() && #[trigger] s.subrange(i, i + 4) == reset_code()
}

/// `colored`: `s.bold()` rendered with `to_string`; SGR `1`.
/// Nothing is stated for text that already contains a reset sequence.
#[verifier::external_body]
pub(crate) fn bold(s: &str) -> (r: String)
    ensures
        !has_reset(s@) ==> painted("1"@, s@, r@),
{
    s.bold().to_string()
}

/// `colored`: `s.red().bold()` rendered with `to_string`; SGR `1;31`.
/// Nothing is stated for text that already contains a reset sequence.
#[verifier::external_body]
pub(crate) fn red_bold(s: &str) -> (r: String)
    ensures
        !has_reset(s@) ==> painted("1;31"@, s@, r@),
{
    s.red().bold().to_string()
}

/// `colored`: `s.yellow().bold()` rendered with `to_string`; SGR `1;33`.
/// Nothing is stated for text that already contains a reset sequence.
#[verifier::external_body]
pub(crate) fn yellow_bold(s: &str) -> (r: String)
    ensures
        !has_reset(s@) ==> painted("1;33"@, s@, r@),
{
    s.yellow().bold().to_string()
}

/// `colored`: `s.green().bold()` rendered with `to_string`; SGR `1;32`.
/// Nothing is stated for text that already contains a reset sequence.
#[verifier::external_body]
pub(crate) fn green_bold(s: &str) -> (r: String)
    ensures
        !has_reset(s@) ==> painted("1;32"@, s@, r@),
{
    s.green().bold().to_string()
}

/// `colored`: `s.cyan()` rendered with `to_string`; SGR `36`.
/// Nothing is stated for text that already contains a reset sequence.
#[verifier::external_body]
pub(crate) fn cyan(s: &str) -> (r: String)
    ensures
        !has_reset(s@) ==> painted("36"@, s@, r@),
{
    s.cyan().to_string()
}

/// `colored`: `s.blue()` rendered with `to_string`; SGR `34`.
/// Nothing is stated for text that already contains a reset sequence.
#[verifier::external_body]
pub(crate) fn blue(s: &str) -> (r: String)
    ensures
        !has_reset(s@) ==> painted("34"@, s@, r@),
{
    s.blue().to_string()
}

/// `colored`: `s.normal()` rendered with `to_string`: a plain string, which
/// `colored` prints as it is.
#[verifier::external_body]
pub(crate) fn normal(s: &str) -> (r: String)
    ensures
        r@ == s@,
{
    s.normal().to_string()
}

} // verus!
