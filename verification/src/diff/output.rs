//! Terminal rendering of a diff report: a header, the gas and HostIO
//! deltas, the largest HostIO changes, a table of the hot paths with the
//! largest changes, optimisation insights and the verdict.

use vstd::prelude::*;
use vstd::utf8::{decode_utf8, encode_utf8, is_char_boundary};
use crate::diff::schema::{DiffReport, HostIoTypeChange, HotPathComparison, Insight, InsightSeverity};
use crate::diff::style::{blue, bold, cyan, green_bold, has_reset, normal, painted, red_bold, yellow_bold};
use crate::order::{lemma_magnitude_order_permutation, magnitude_order, order_by_magnitude};
use crate::double::{double_tenths, double_tenths_exec};
use crate::percent::{percent_signed_text, percent_string, percent_text, push_percent_signed};
use crate::text::{
    dec, digit_char, magnitude, pad_center, pad_left, pad_right, push_char, push_dec,
    push_pad_center, push_pad_left, push_pad_right, push_signed, push_str, signed_dec,
};

verus! {

broadcast use vstd::string::group_string_axioms;

/// Position of the last `;` before `end`, or `-1`.
pub open spec fn last_semi_before(s: Seq<char>, end: int) -> int
    decreases end,
{
    if end <= 0 {
        -1
    } else if s[end - 1] == ';' {
        end - 1
    } else {
        last_semi_before(s, end - 1)
    }
}

/// Position of the second-to-last `;`, or `-1` when there are fewer than two.
pub open spec fn second_last_semi(s: Seq<char>) -> int {
    let p1 = last_semi_before(s, s.len() as int);
    if p1 < 0 { -1 } else { last_semi_before(s, p1) }
}

/// A stack with more than two frames shortened to its last two, behind `...;`.
pub open spec fn shorten(s: Seq<char>) -> Seq<char> {
    let p2 = second_last_semi(s);
    if p2 < 0 { s } else { "...;"@ + s.subrange(p2 + 1, s.len() as int) }
}

/// `last_semi_before` is the last `;` before `end`.
pub proof fn lemma_last_semi_before(s: Seq<char>, end: int)
    requires
        0 <= end <= s.len(),
    ensures
        -1 <= last_semi_before(s, end) < end,
        last_semi_before(s, end) >= 0 ==> s[last_semi_before(s, end)] == ';',
        forall|j: int| last_semi_before(s, end) < j < end && 0 <= j ==> #[trigger] s[j] != ';',
    decreases end,
{
    if end > 0 && s[end - 1] != ';' {
        lemma_last_semi_before(s, end - 1);
    }
}

/// A `;` at `p` with none between `p` and `end` is the last one before `end`.
proof fn lemma_last_semi_is(s: Seq<char>, end: int, p: int)
    requires
        -1 <= p < end <= s.len(),
        p >= 0 ==> s[p] == ';',
        forall|j: int| p < j < end && 0 <= j ==> #[trigger] s[j] != ';',
    ensures
        last_semi_before(s, end) == p,
    decreases end,
{
    if end > 0 && end - 1 != p {
        lemma_last_semi_is(s, end - 1, p);
    }
}

/// Shortening a stack twice gives what shortening it once gives.
pub proof fn lemma_shorten_idempotent(s: Seq<char>)
    ensures
        shorten(shorten(s)) == shorten(s),
{
    let n = s.len() as int;
    lemma_last_semi_before(s, n);
    let p1 = last_semi_before(s, n);
    if p1 >= 0 {
        lemma_last_semi_before(s, p1);
        let p2 = last_semi_before(s, p1);
        if p2 >= 0 {
            let r = "...;"@ + s.subrange(p2 + 1, n);
            let prefix = "...;"@;
            assert(prefix.len() == 4 && prefix[3] == ';' && prefix[0] == '.' && prefix[1] == '.'
                && prefix[2] == '.') by {
                reveal_strlit("...;");
            }
            let q1 = 4 + (p1 - (p2 + 1));
            assert(r[q1] == s[p1]);
            assert forall|j: int| q1 < j < r.len() && 0 <= j implies #[trigger] r[j] != ';' by {
                assert(r[j] == s[j - 4 + p2 + 1]);
            }
            lemma_last_semi_is(r, r.len() as int, q1);
            assert forall|j: int| 3 < j < q1 && 0 <= j implies #[trigger] r[j] != ';' by {
                assert(r[j] == s[j - 4 + p2 + 1]);
            }
            lemma_last_semi_is(r, q1, 3);
            assert(r.subrange(4, r.len() as int) =~= s.subrange(p2 + 1, n));
            assert(shorten(r) =~= r);
        }
    }
}

/// Shortens an execution stack to its last two frames.
pub fn shorten_stack(stack: &str) -> (r: String)
    ensures
        r@ == shorten(stack@),
{
    let n = stack.unicode_len();
    proof {
        lemma_last_semi_before(stack@, n as int);
    }
    let mut i: usize = n;
    let mut found: usize = 0;
    let mut p2: usize = 0;
    let ghost mut p1: int = -1;
    while i > 0 && found < 2
        invariant
            n == stack@.len(),
            i <= n,
            found <= 2,
            found == 0 ==> forall|j: int| i <= j < n ==> #[trigger] stack@[j] != ';',
            found >= 1 ==> i <= p1 < n && stack@[p1] == ';'
                && forall|j: int| p1 < j < n ==> #[trigger] stack@[j] != ';',
            found == 1 ==> forall|j: int| i <= j < p1 ==> #[trigger] stack@[j] != ';',
            found == 2 ==> p2 < p1 && stack@[p2 as int] == ';'
                && forall|j: int| p2 < j < p1 ==> #[trigger] stack@[j] != ';',
        decreases i,
    {
        let c = stack.get_char(i - 1);
        if c == ';' {
            if found == 0 {
                proof {
                    p1 = (i - 1) as int;
                }
            } else {
                p2 = i - 1;
            }
            found = found + 1;
        }
        i = i - 1;
    }
    proof {
        if found == 0 {
            lemma_last_semi_is(stack@, n as int, -1);
        } else {
            lemma_last_semi_is(stack@, n as int, p1);
            if found == 1 {
                lemma_last_semi_is(stack@, p1, -1);
            } else {
                lemma_last_semi_is(stack@, p1, p2 as int);
            }
        }
    }
    if found < 2 {
        let mut r = String::new();
        push_str(&mut r, stack);
        assert(r@ =~= shorten(stack@));
        r
    } else {
        let mut r = String::new();
        push_str(&mut r, "...;");
        push_str(&mut r, stack.substring_char(p2 + 1, n));
        assert(r@ =~= shorten(stack@));
        r
    }
}

/// Number of UTF-8 bytes of a text.
pub open spec fn byte_len(s: Seq<char>) -> int {
    encode_utf8(s).len() as int
}

/// A stack cell can be cut without splitting a character: the last 35
/// bytes of a stack longer than 38 bytes start at a character boundary.
pub open spec fn cell_cuttable(s: Seq<char>) -> bool {
    byte_len(s) > 38 ==> is_char_boundary(encode_utf8(s), byte_len(s) - 35)
}

/// The stack column: longer than 38 bytes shows `...` and the last 35
/// bytes, otherwise the stack padded to 38 characters.
pub open spec fn stack_cell(s: Seq<char>) -> Seq<char> {
    if byte_len(s) > 38 {
        "..."@ + decode_utf8(encode_utf8(s).subrange(byte_len(s) - 35, byte_len(s)))
    } else {
        pad_right(s, 38)
    }
}

/// Appends the stack column for `s`.
fn push_stack_cell(out: &mut String, s: &str)
    requires
        cell_cuttable(s@),
    ensures
        final(out)@ == old(out)@ + stack_cell(s@),
{
    let ghost start = out@;
    let b = s.as_bytes().len();
    if b > 38 {
        let cut = b - 35;
        let (_, tail) = s.split_at(cut);
        push_str(out, "...");
        push_str(out, tail);
        assert(tail@ == decode_utf8(encode_utf8(tail@))) by {
            vstd::utf8::encode_utf8_decode_utf8(tail@);
        }
        assert(out@ =~= start + stack_cell(s@));
    } else {
        push_pad_right(out, s, 38);
    }
}

/// Gas for an amount of ink (ten thousand ink per gas) with one decimal:
/// `{:.1}` of the double `ink as f64 / 10000.0`.
pub open spec fn gas_tenths_text(ink: u64) -> Seq<char> {
    let t = double_tenths(ink);
    dec(t / 10) + seq!['.', digit_char((t % 10) as int)]
}

/// Gas for an amount of ink, with one decimal.
pub fn gas_tenths_string(ink: u64) -> (s: String)
    ensures
        s@ == gas_tenths_text(ink),
{
    let t: u128 = double_tenths_exec(ink);
    let mut s = String::new();
    push_dec(&mut s, t / 10);
    push_char(&mut s, '.');
    push_char(&mut s, (48u8 + (t % 10) as u8) as char);
    assert(s@ =~= gas_tenths_text(ink));
    s
}

/// The separator line of the header and the verdict.
pub open spec fn rule() -> Seq<char> {
    "---------------------------------------------------\n"@
}

/// Header naming both transactions; `title` is the styled title.
pub open spec fn header_text(r: DiffReport, title: Seq<char>) -> Seq<char> {
    "\n📊 "@ + title + "\n"@ + rule() + "Baseline: "@ + r.baseline.transaction_hash@ + "\n"@
        + "Target:   "@ + r.target.transaction_hash@ + "\n"@ + rule() + "\n"@
}

/// Symbol for the direction of a change.
pub open spec fn delta_symbol(change: int) -> Seq<char> {
    if change > 0 {
        "📈"@
    } else if change < 0 {
        "📉"@
    } else {
        "➡️"@
    }
}

/// The total-gas line.
pub open spec fn gas_text(r: DiffReport) -> Seq<char> {
    let g = r.deltas.gas;
    delta_symbol(g.absolute_change as int) + " Total Gas: "@ + dec(g.baseline as nat) + " -> "@
        + dec(g.target as nat) + " ("@ + percent_signed_text(g.percent_change) + "%)\n"@
}

/// The total HostIO calls line.
pub open spec fn hostio_summary_text(r: DiffReport) -> Seq<char> {
    let h = r.deltas.hostio;
    delta_symbol(h.total_calls_change as int) + " HostIO Calls: "@ + dec(h.baseline_total_calls as nat)
        + " -> "@ + dec(h.target_total_calls as nat) + " ("@
        + percent_signed_text(h.total_calls_percent_change) + "%)\n"@
}

/// Magnitude of a signed change.
pub open spec fn magnitude_of(d: i64) -> u64 {
    (if d < 0 { -(d as int) } else { d as int }) as u64
}

/// Keys by which HostIO changes are ranked.
pub open spec fn change_keys(e: Seq<(Seq<char>, HostIoTypeChange)>) -> Seq<u64> {
    e.map_values(|x: (Seq<char>, HostIoTypeChange)| magnitude_of(x.1.delta))
}

/// One HostIO change line.
pub open spec fn hostio_row(k: Seq<char>, c: HostIoTypeChange) -> Seq<char> {
    "  "@ + (if c.delta > 0 { "📈"@ } else { "📉"@ }) + " "@ + k + ": "@ + dec(c.baseline as nat)
        + " -> "@ + dec(c.target as nat) + " ("@ + signed_dec(c.delta as int) + ")\n"@
}

/// The first `m` HostIO change lines, in the given order.
pub open spec fn hostio_rows(e: Seq<(Seq<char>, HostIoTypeChange)>, order: Seq<int>, m: nat) -> Seq<char>
    decreases m,
{
    if m == 0 {
        seq![]
    } else {
        hostio_rows(e, order, (m - 1) as nat) + hostio_row(e[order[m - 1]].0, e[order[m - 1]].1)
    }
}

/// `min(a, b)` for naturals.
pub open spec fn min_nat(a: nat, b: nat) -> nat {
    if a < b { a } else { b }
}

/// The five largest HostIO changes, by magnitude.
pub open spec fn hostio_details_text(r: DiffReport) -> Seq<char> {
    let e = r.deltas.hostio.by_type_changes.entries();
    if e.len() == 0 {
        seq![]
    } else {
        "\nTop HostIO Changes:\n"@ + hostio_rows(e, magnitude_order(change_keys(e), e.len()), min_nat(5, e.len()))
    }
}

/// Colour of a hot path's change: bold red up, bold green down, reset otherwise.
pub open spec fn delta_color(change: i64) -> Seq<char> {
    if change > 0 {
        "\x1b[31;1m"@
    } else if change < 0 {
        "\x1b[32;1m"@
    } else {
        "\x1b[0m"@
    }
}

/// The stack column of a table row, with its left border.
pub open spec fn row_stack_part(hp: HotPathComparison) -> Seq<char> {
    "  ┃ "@ + stack_cell(shorten(hp.stack@))
}

/// The gas columns of a table row, with their borders.
pub open spec fn row_gas_part(hp: HotPathComparison) -> Seq<char> {
    " ┃ "@ + pad_left(gas_tenths_text(hp.baseline_gas), 12) + " ┃ "@
        + pad_left(gas_tenths_text(hp.target_gas), 12) + " ┃ "@
}

/// The coloured change column of a table row and the right border.
pub open spec fn row_delta_part(hp: HotPathComparison) -> Seq<char> {
    delta_color(hp.gas_change) + pad_left(percent_text(hp.percent_change), 9) + "%"@ + "\x1b[0m"@
        + " ┃\n"@
}

/// One row of the hot-path table.
pub open spec fn hot_path_row(hp: HotPathComparison) -> Seq<char> {
    row_stack_part(hp) + row_gas_part(hp) + row_delta_part(hp)
}

/// Keys by which hot paths are ranked.
pub open spec fn path_keys(ps: Seq<HotPathComparison>) -> Seq<u64> {
    ps.map_values(|p: HotPathComparison| magnitude_of(p.gas_change))
}

/// The first `m` table rows, in the given order.
pub open spec fn hot_path_rows(ps: Seq<HotPathComparison>, order: Seq<int>, m: nat) -> Seq<char>
    decreases m,
{
    if m == 0 {
        seq![]
    } else {
        hot_path_rows(ps, order, (m - 1) as nat) + hot_path_row(ps[order[m - 1]])
    }
}

/// Top border of the table.
pub open spec fn table_top() -> Seq<char> {
    "  ┏━━━━━━━━━━━━━━━━━━━━━━━━━━━━━━━━━━━━━━━━┳━━━━━━━━━━━━━━┳━━━━━━━━━━━━━━┳━━━━━━━━━━━━┓\n"@
}

/// Border between the table's heading and its rows.
pub open spec fn table_middle() -> Seq<char> {
    "  ┣━━━━━━━━━━━━━━━━━━━━━━━━━━━━━━━━━━━━━━━━╋━━━━━━━━━━━━━━╋━━━━━━━━━━━━━━╋━━━━━━━━━━━━┫\n"@
}

/// Bottom border of the table.
pub open spec fn table_bottom() -> Seq<char> {
    "  ┗━━━━━━━━━━━━━━━━━━━━━━━━━━━━━━━━━━━━━━━━┻━━━━━━━━━━━━━━┻━━━━━━━━━━━━━━┻━━━━━━━━━━━━┛\n"@
}

/// Column headings of the table.
pub open spec fn table_heading() -> Seq<char> {
    "  ┃ "@ + pad_right("Execution Stack (Common Changes)"@, 38) + " ┃ "@ + pad_center("BASELINE"@, 12)
        + " ┃ "@ + pad_center("TARGET"@, 12) + " ┃ "@ + pad_center("DELTA"@, 10) + " ┃\n"@
}

/// The ten hot paths with the largest gas changes, as a table.
pub open spec fn hot_paths_text(r: DiffReport) -> Seq<char> {
    let ps = r.deltas.hot_paths.common_paths@;
    if ps.len() == 0 {
        seq![]
    } else {
        "\n  🚀 HOT PATH COMPARISON\n"@ + table_top() + table_heading() + table_middle()
            + hot_path_rows(ps, magnitude_order(path_keys(ps), ps.len()), min_nat(10, ps.len()))
            + table_bottom()
    }
}

/// Every row of the table can be drawn without cutting a character.
pub open spec fn hot_path_rows_drawable(r: DiffReport) -> bool {
    rows_drawable(r.deltas.hot_paths.common_paths@)
}

/// The first ten paths in magnitude order can be drawn.
pub open spec fn rows_drawable(ps: Seq<HotPathComparison>) -> bool {
    forall|k: int| 0 <= k < min_nat(10, ps.len()) ==> #[trigger] row_drawable(ps, k)
}

/// The `k`-th path in magnitude order can be drawn.
pub open spec fn row_drawable(ps: Seq<HotPathComparison>, k: int) -> bool {
    cell_cuttable(shorten(ps[magnitude_order(path_keys(ps), ps.len())[k]].stack@))
}

/// The insight lines, from each insight's styled category and description.
pub open spec fn insight_lines(parts: Seq<(Seq<char>, Seq<char>)>, m: nat) -> Seq<char>
    decreases m,
{
    if m == 0 {
        seq![]
    } else {
        insight_lines(parts, (m - 1) as nat) + "  • ["@ + parts[m - 1].0 + "] "@ + parts[m - 1].1 + "\n"@
    }
}

/// The insights section; `title` is the styled heading.
pub open spec fn insights_text(r: DiffReport, title: Seq<char>, parts: Seq<(Seq<char>, Seq<char>)>) -> Seq<char> {
    if r.insights@.len() == 0 {
        seq![]
    } else {
        "\n💡 "@ + title + "\n"@ + insight_lines(parts, r.insights@.len())
    }
}

/// The verdict line before styling.
pub open spec fn status_message(r: DiffReport) -> Seq<char> {
    if r.summary.status@ == "FAILED"@ {
        "❌ STATUS: REGRESSION DETECTED ("@ + dec(r.summary.violation_count as nat) + " violations)"@
    } else if r.summary.status@ == "WARNING"@ {
        "⚠️  STATUS: WARNING ("@ + dec(r.summary.violation_count as nat) + " violations)"@
    } else {
        "✅ STATUS: PASSED"@
    }
}

/// Style codes of the verdict line, one per verdict.
pub open spec fn status_code(r: DiffReport) -> Seq<char> {
    if r.summary.status@ == "FAILED"@ {
        "1;31"@
    } else if r.summary.status@ == "WARNING"@ {
        "1;33"@
    } else {
        "1;32"@
    }
}

/// The verdict section; `styled` is the styled verdict line.
pub open spec fn status_text(styled: Seq<char>) -> Seq<char> {
    "\n"@ + rule() + styled + "\n"@
}

/// The whole summary, from the styled pieces.
pub open spec fn terminal_text(
    r: DiffReport,
    title: Seq<char>,
    insights_title: Seq<char>,
    parts: Seq<(Seq<char>, Seq<char>)>,
    status: Seq<char>,
) -> Seq<char> {
    header_text(r, title) + gas_text(r) + hostio_summary_text(r) + hostio_details_text(r)
        + hot_paths_text(r) + insights_text(r, insights_title, parts) + status_text(status)
}

/// SGR parameters of an insight's description, by severity; `None` is plain.
pub open spec fn severity_code(s: InsightSeverity) -> Option<Seq<char>> {
    match s {
        InsightSeverity::High => Some("1;31"@),
        InsightSeverity::Medium => Some("1;33"@),
        InsightSeverity::Low => Some("36"@),
        InsightSeverity::Info => None,
    }
}

/// `r` is the styling of an insight's description.
pub open spec fn description_styled(i: Insight, r: Seq<char>) -> bool {
    match severity_code(i.severity) {
        Some(code) => !has_reset(i.description@) ==> painted(code, i.description@, r),
        None => r == i.description@,
    }
}

/// `p` is an insight's styled category and description.
pub open spec fn insight_styled(i: Insight, p: (Seq<char>, Seq<char>)) -> bool {
    &&& (!has_reset(i.category@) ==> painted("34"@, i.category@, p.0))
    &&& description_styled(i, p.1)
}

/// The styled pieces are what `colored` gives for the report's texts.
pub open spec fn pieces_styled(
    r: DiffReport,
    title: Seq<char>,
    insights_title: Seq<char>,
    parts: Seq<(Seq<char>, Seq<char>)>,
    status: Seq<char>,
) -> bool {
    &&& painted("1"@, "Profile Comparison Summary"@, title)
    &&& r.insights@.len() > 0 ==> painted("1"@, "Optimization Insights:"@, insights_title)
    &&& parts.len() == r.insights@.len()
    &&& forall|i: int| 0 <= i < parts.len() ==> insight_styled(r.insights@[i], #[trigger] parts[i])
    &&& painted(status_code(r), status_message(r), status)
}

/// Text without an escape character holds no reset sequence.
proof fn lemma_no_escape(s: Seq<char>)
    requires
        forall|i: int| 0 <= i < s.len() ==> #[trigger] s[i] != '\x1b',
    ensures
        !has_reset(s),
{
    reveal_strlit("\x1b[0m");
    assert forall|i: int| 0 <= i && i + 4 <= s.len() implies #[trigger] s.subrange(i, i + 4)
        != crate::diff::style::reset_code() by {
        assert(s.subrange(i, i + 4)[0] == s[i]);
    }
}

/// Decimal digits are not escape characters.
proof fn lemma_dec_no_escape(n: nat)
    ensures
        forall|i: int| 0 <= i < dec(n).len() ==> #[trigger] dec(n)[i] != '\x1b',
    decreases n,
{
    if n >= 10 {
        lemma_dec_no_escape(n / 10);
    }
    let d = (n % 10) as int;
    assert(digit_char(d) != '\x1b') by {
        assert(48 <= d + 48 < 58);
        assert((d + 48) as char as u32 == (d + 48) as u32);
    }
    if n < 10 {
        assert(dec(n) =~= seq![digit_char(d)]);
    } else {
        assert(dec(n) == dec(n / 10).push(digit_char(d)));
    }
    assert forall|i: int| 0 <= i < dec(n).len() implies #[trigger] dec(n)[i] != '\x1b' by {
        if n >= 10 && i < dec(n / 10).len() {
            assert(dec(n)[i] == dec(n / 10)[i]);
        }
    }
}

/// The verdict line holds no reset sequence.
proof fn lemma_status_message_plain(r: DiffReport)
    ensures
        !has_reset(status_message(r)),
{
    reveal_strlit("❌ STATUS: REGRESSION DETECTED (");
    reveal_strlit("⚠️  STATUS: WARNING (");
    reveal_strlit(" violations)");
    reveal_strlit("✅ STATUS: PASSED");
    lemma_dec_no_escape(r.summary.violation_count as nat);
    let m = status_message(r);
    assert forall|i: int| 0 <= i < m.len() implies #[trigger] m[i] != '\x1b' by {}
    lemma_no_escape(m);
}

fn push_delta_symbol(out: &mut String, change: i64)
    ensures
        final(out)@ == old(out)@ + delta_symbol(change as int),
{
    if change > 0 {
        push_str(out, "📈");
    } else if change < 0 {
        push_str(out, "📉");
    } else {
        push_str(out, "➡️");
    }
}

fn push_header(out: &mut String, r: &DiffReport, title: &str)
    ensures
        final(out)@ == old(out)@ + header_text(*r, title@),
{
    let ghost start = out@;
    push_str(out, "\n📊 ");
    push_str(out, title);
    push_str(out, "\n");
    push_str(out, "---------------------------------------------------\n");
    push_str(out, "Baseline: ");
    push_str(out, r.baseline.transaction_hash.as_str());
    push_str(out, "\n");
    push_str(out, "Target:   ");
    push_str(out, r.target.transaction_hash.as_str());
    push_str(out, "\n");
    push_str(out, "---------------------------------------------------\n");
    push_str(out, "\n");
    assert(out@ =~= start + header_text(*r, title@));
}

fn push_gas(out: &mut String, r: &DiffReport)
    ensures
        final(out)@ == old(out)@ + gas_text(*r),
{
    let ghost start = out@;
    let g = &r.deltas.gas;
    push_delta_symbol(out, g.absolute_change);
    push_str(out, " Total Gas: ");
    push_dec(out, g.baseline as u128);
    push_str(out, " -> ");
    push_dec(out, g.target as u128);
    push_str(out, " (");
    push_percent_signed(out, g.percent_change);
    push_str(out, "%)\n");
    assert(out@ =~= start + gas_text(*r));
}

fn push_hostio_summary(out: &mut String, r: &DiffReport)
    ensures
        final(out)@ == old(out)@ + hostio_summary_text(*r),
{
    let ghost start = out@;
    let h = &r.deltas.hostio;
    push_delta_symbol(out, h.total_calls_change);
    push_str(out, " HostIO Calls: ");
    push_dec(out, h.baseline_total_calls as u128);
    push_str(out, " -> ");
    push_dec(out, h.target_total_calls as u128);
    push_str(out, " (");
    push_percent_signed(out, h.total_calls_percent_change);
    push_str(out, "%)\n");
    assert(out@ =~= start + hostio_summary_text(*r));
}

fn push_hostio_row(out: &mut String, k: &str, c: HostIoTypeChange)
    ensures
        final(out)@ == old(out)@ + hostio_row(k@, c),
{
    let ghost start = out@;
    push_str(out, "  ");
    if c.delta > 0 {
        push_str(out, "📈");
    } else {
        push_str(out, "📉");
    }
    push_str(out, " ");
    push_str(out, k);
    push_str(out, ": ");
    push_dec(out, c.baseline as u128);
    push_str(out, " -> ");
    push_dec(out, c.target as u128);
    push_str(out, " (");
    push_signed(out, c.delta);
    push_str(out, ")\n");
    assert(out@ =~= start + hostio_row(k@, c));
}

fn push_hostio_details(out: &mut String, r: &DiffReport)
    ensures
        final(out)@ == old(out)@ + hostio_details_text(*r),
{
    let ghost start = out@;
    let changes = &r.deltas.hostio.by_type_changes;
    let ghost e = changes.entries();
    let n = changes.len();
    if n == 0 {
        assert(out@ =~= start + hostio_details_text(*r));
        return;
    }
    push_str(out, "\nTop HostIO Changes:\n");
    let ghost head = out@;
    let mut keys: Vec<u64> = Vec::new();
    let mut i: usize = 0;
    while i < n
        invariant
            n == e.len(),
            e == changes.entries(),
            i <= n,
            keys@ =~= change_keys(e).take(i as int),
        decreases n - i,
    {
        keys.push(magnitude(changes.value_at(i).delta));
        i = i + 1;
    }
    assert(keys@ =~= change_keys(e));
    let order = order_by_magnitude(&keys);
    let ghost ord = magnitude_order(change_keys(e), e.len());
    proof {
        lemma_magnitude_order_permutation(change_keys(e), e.len());
    }
    let m: usize = if n < 5 { n } else { 5 };
    let mut k: usize = 0;
    while k < m
        invariant
            n == e.len(),
            e == changes.entries(),
            m == min_nat(5, e.len()),
            m <= n,
            k <= m,
            order@.map_values(|x: usize| x as int) == ord,
            crate::order::is_permutation(ord, n as nat),
            out@ == head + hostio_rows(e, ord, k as nat),
        decreases m - k,
    {
        assert(order@[k as int] as int == ord[k as int]);
        let idx = order[k];
        push_hostio_row(out, changes.key_at(idx).as_str(), *changes.value_at(idx));
        k = k + 1;
    }
    assert(out@ =~= start + hostio_details_text(*r));
}

fn push_hot_path_row(out: &mut String, hp: &HotPathComparison)
    requires
        cell_cuttable(shorten(hp.stack@)),
    ensures
        final(out)@ == old(out)@ + hot_path_row(*hp),
{
    let ghost start = out@;
    let display = shorten_stack(hp.stack.as_str());
    push_str(out, "  ┃ ");
    push_stack_cell(out, display.as_str());
    let ghost a = out@;
    assert(a =~= start + row_stack_part(*hp));
    push_str(out, " ┃ ");
    let b = gas_tenths_string(hp.baseline_gas);
    push_pad_left(out, b.as_str(), 12);
    push_str(out, " ┃ ");
    let t = gas_tenths_string(hp.target_gas);
    push_pad_left(out, t.as_str(), 12);
    push_str(out, " ┃ ");
    let ghost g = out@;
    assert(g =~= a + row_gas_part(*hp));
    if hp.gas_change > 0 {
        push_str(out, "\x1b[31;1m");
    } else if hp.gas_change < 0 {
        push_str(out, "\x1b[32;1m");
    } else {
        push_str(out, "\x1b[0m");
    }
    let pct = percent_string(hp.percent_change);
    push_pad_left(out, pct.as_str(), 9);
    push_str(out, "%");
    push_str(out, "\x1b[0m");
    push_str(out, " ┃\n");
    assert(out@ =~= g + row_delta_part(*hp));
    assert(out@ =~= start + hot_path_row(*hp));
}

fn push_table_head(out: &mut String)
    ensures
        final(out)@ == old(out)@ + "\n  🚀 HOT PATH COMPARISON\n"@ + table_top() + table_heading()
            + table_middle(),
{
    let ghost start = out@;
    push_str(out, "\n  🚀 HOT PATH COMPARISON\n");
    push_str(out, "  ┏━━━━━━━━━━━━━━━━━━━━━━━━━━━━━━━━━━━━━━━━┳━━━━━━━━━━━━━━┳━━━━━━━━━━━━━━┳━━━━━━━━━━━━┓\n");
    let ghost before_heading = out@;
    push_str(out, "  ┃ ");
    push_pad_right(out, "Execution Stack (Common Changes)", 38);
    push_str(out, " ┃ ");
    push_pad_center(out, "BASELINE", 12);
    push_str(out, " ┃ ");
    push_pad_center(out, "TARGET", 12);
    push_str(out, " ┃ ");
    push_pad_center(out, "DELTA", 10);
    push_str(out, " ┃\n");
    assert(out@ =~= before_heading + table_heading());
    push_str(out, "  ┣━━━━━━━━━━━━━━━━━━━━━━━━━━━━━━━━━━━━━━━━╋━━━━━━━━━━━━━━╋━━━━━━━━━━━━━━╋━━━━━━━━━━━━┫\n");
    assert(out@ =~= start + "\n  🚀 HOT PATH COMPARISON\n"@ + table_top() + table_heading() + table_middle());
}

/// Ranking keys of the hot paths.
fn hot_path_keys(paths: &Vec<HotPathComparison>) -> (keys: Vec<u64>)
    ensures
        keys@ == path_keys(paths@),
{
    let mut keys: Vec<u64> = Vec::new();
    let mut i: usize = 0;
    while i < paths.len()
        invariant
            i <= paths@.len(),
            keys@ =~= path_keys(paths@).take(i as int),
        decreases paths@.len() - i,
    {
        keys.push(magnitude(paths[i].gas_change));
        i = i + 1;
    }
    assert(keys@ =~= path_keys(paths@));
    keys
}

#[verifier::spinoff_prover]
fn push_hot_path_rows(out: &mut String, paths: &Vec<HotPathComparison>)
    requires
        rows_drawable(paths@),
    ensures
        final(out)@ == old(out)@ + hot_path_rows(
            paths@,
            magnitude_order(path_keys(paths@), paths@.len()),
            min_nat(10, paths@.len()),
        ),
{
    let ghost head = out@;
    let ghost ps = paths@;
    let n = paths.len();
    let keys = hot_path_keys(paths);
    let order = order_by_magnitude(&keys);
    let ghost ord = magnitude_order(path_keys(ps), ps.len());
    proof {
        lemma_magnitude_order_permutation(path_keys(ps), ps.len());
    }
    let m: usize = if n < 10 { n } else { 10 };
    let mut k: usize = 0;
    while k < m
        invariant
            n == ps.len(),
            ps == paths@,
            rows_drawable(ps),
            ord == magnitude_order(path_keys(ps), ps.len()),
            m == min_nat(10, ps.len()),
            m <= n,
            k <= m,
            order@.map_values(|x: usize| x as int) == ord,
            crate::order::is_permutation(ord, n as nat),
            out@ == head + hot_path_rows(ps, ord, k as nat),
        decreases m - k,
    {
        assert(order@[k as int] as int == ord[k as int]);
        let idx = order[k];
        assert(idx as int == ord[k as int]);
        assert(row_drawable(ps, k as int));
        push_hot_path_row(out, &paths[idx]);
        k = k + 1;
    }
}

fn push_hot_paths(out: &mut String, r: &DiffReport)
    requires
        hot_path_rows_drawable(*r),
    ensures
        final(out)@ == old(out)@ + hot_paths_text(*r),
{
    let ghost start = out@;
    let paths = &r.deltas.hot_paths.common_paths;
    if paths.len() == 0 {
        assert(out@ =~= start + hot_paths_text(*r));
        return;
    }
    push_table_head(out);
    push_hot_path_rows(out, paths);
    push_str(out, "  ┗━━━━━━━━━━━━━━━━━━━━━━━━━━━━━━━━━━━━━━━━┻━━━━━━━━━━━━━━┻━━━━━━━━━━━━━━┻━━━━━━━━━━━━┛\n");
    assert(out@ =~= start + hot_paths_text(*r));
}

fn push_insights(out: &mut String, r: &DiffReport, title: &str, parts: &Vec<(String, String)>)
    requires
        parts@.len() == r.insights@.len(),
    ensures
        final(out)@ == old(out)@ + insights_text(
            *r,
            title@,
            parts@.map_values(|p: (String, String)| (p.0@, p.1@)),
        ),
{
    let ghost start = out@;
    let ghost pv = parts@.map_values(|p: (String, String)| (p.0@, p.1@));
    let n = r.insights.len();
    if n == 0 {
        assert(out@ =~= start + insights_text(*r, title@, pv));
        return;
    }
    push_str(out, "\n💡 ");
    push_str(out, title);
    push_str(out, "\n");
    let ghost head = out@;
    let mut i: usize = 0;
    while i < n
        invariant
            n == parts@.len(),
            pv == parts@.map_values(|p: (String, String)| (p.0@, p.1@)),
            i <= n,
            out@ == head + insight_lines(pv, i as nat),
        decreases n - i,
    {
        let ghost before = out@;
        push_str(out, "  • [");
        push_str(out, parts[i].0.as_str());
        push_str(out, "] ");
        push_str(out, parts[i].1.as_str());
        push_str(out, "\n");
        assert(out@ =~= before + "  • ["@ + pv[i as int].0 + "] "@ + pv[i as int].1 + "\n"@);
        i = i + 1;
    }
    assert(out@ =~= start + insights_text(*r, title@, pv));
}

/// The summary from its styled pieces: the styled title, the styled
/// insights heading, each insight's styled category and description, and
/// the styled verdict line.
pub fn render_terminal_diff_with(
    report: &DiffReport,
    title: &str,
    insights_title: &str,
    parts: &Vec<(String, String)>,
    status: &str,
) -> (out: String)
    requires
        parts@.len() == report.insights@.len(),
        hot_path_rows_drawable(*report),
    ensures
        out@ == terminal_text(
            *report,
            title@,
            insights_title@,
            parts@.map_values(|p: (String, String)| (p.0@, p.1@)),
            status@,
        ),
{
    let mut out = String::new();
    push_header(&mut out, report, title);
    push_gas(&mut out, report);
    push_hostio_summary(&mut out, report);
    push_hostio_details(&mut out, report);
    push_hot_paths(&mut out, report);
    push_insights(&mut out, report, insights_title, parts);
    let ghost before = out@;
    push_str(&mut out, "\n");
    push_str(&mut out, "---------------------------------------------------\n");
    push_str(&mut out, status);
    push_str(&mut out, "\n");
    assert(out@ =~= before + status_text(status@));
    assert(out@ =~= terminal_text(
        *report,
        title@,
        insights_title@,
        parts@.map_values(|p: (String, String)| (p.0@, p.1@)),
        status@,
    ));
    out
}

/// The verdict line, styled by the verdict.
fn styled_status(r: &DiffReport) -> (s: String)
    ensures
        painted(status_code(*r), status_message(*r), s@),
{
    proof {
        lemma_status_message_plain(*r);
    }
    let failed = "FAILED".to_string();
    let warning = "WARNING".to_string();
    if r.summary.status == failed {
        let mut m = String::new();
        push_str(&mut m, "❌ STATUS: REGRESSION DETECTED (");
        push_dec(&mut m, r.summary.violation_count as u128);
        push_str(&mut m, " violations)");
        assert(m@ =~= status_message(*r));
        red_bold(m.as_str())
    } else if r.summary.status == warning {
        let mut m = String::new();
        push_str(&mut m, "⚠️  STATUS: WARNING (");
        push_dec(&mut m, r.summary.violation_count as u128);
        push_str(&mut m, " violations)");
        assert(m@ =~= status_message(*r));
        yellow_bold(m.as_str())
    } else {
        green_bold("✅ STATUS: PASSED")
    }
}

/// An insight's category and description, styled.
fn styled_insight(i: &Insight) -> (p: (String, String))
    ensures
        insight_styled(*i, (p.0@, p.1@)),
{
    let category = blue(i.category.as_str());
    let description = match i.severity {
        InsightSeverity::High => red_bold(i.description.as_str()),
        InsightSeverity::Medium => yellow_bold(i.description.as_str()),
        InsightSeverity::Low => cyan(i.description.as_str()),
        InsightSeverity::Info => normal(i.description.as_str()),
    };
    (category, description)
}

/// Whether every row of the hot-path table can be drawn.
pub fn hot_paths_drawable(report: &DiffReport) -> (r: bool)
    ensures
        r == hot_path_rows_drawable(*report),
{
    let paths = &report.deltas.hot_paths.common_paths;
    let ghost ps = paths@;
    let n = paths.len();
    let keys = hot_path_keys(paths);
    let order = order_by_magnitude(&keys);
    let ghost ord = magnitude_order(path_keys(ps), ps.len());
    proof {
        lemma_magnitude_order_permutation(path_keys(ps), ps.len());
    }
    let m: usize = if n < 10 { n } else { 10 };
    let mut k: usize = 0;
    while k < m
        invariant
            n == ps.len(),
            ps == paths@,
            ps == report.deltas.hot_paths.common_paths@,
            ord == magnitude_order(path_keys(ps), ps.len()),
            m == min_nat(10, ps.len()),
            m <= n,
            k <= m,
            order@.map_values(|x: usize| x as int) == ord,
            crate::order::is_permutation(ord, n as nat),
            forall|j: int| 0 <= j < k ==> #[trigger] row_drawable(ps, j),
        decreases m - k,
    {
        assert(order@[k as int] as int == ord[k as int]);
        let idx = order[k];
        assert(idx as int == ord[k as int]);
        let display = shorten_stack(paths[idx].stack.as_str());
        assert(display@ == shorten(ps[ord[k as int]].stack@));
        let b = display.as_str().as_bytes().len();
        assert(b as int == byte_len(display@));
        let cuttable = b <= 38 || display.as_str().is_char_boundary(b - 35);
        assert(cuttable == cell_cuttable(display@));
        if !cuttable {
            assert(!row_drawable(ps, k as int));
            assert(!rows_drawable(ps));
            return false;
        }
        assert(row_drawable(ps, k as int));
        k = k + 1;
    }
    true
}

/// The summary some styling of the report's texts gives.
pub open spec fn is_terminal_summary(r: DiffReport, out: Seq<char>) -> bool {
    exists|title: Seq<char>, insights_title: Seq<char>, parts: Seq<(Seq<char>, Seq<char>)>, status: Seq<char>|
        pieces_styled(r, title, insights_title, parts, status)
            && out == #[trigger] terminal_text(r, title, insights_title, parts, status)
}

/// Renders a human-readable summary of a diff report for the terminal.
///
/// Colours come from `colored` and depend on the environment; every other
/// character of the summary is fixed by the report.
pub fn render_terminal_diff(report: &DiffReport) -> (out: String)
    requires
        hot_path_rows_drawable(*report),
    ensures
        is_terminal_summary(*report, out@),
{
    proof {
        reveal_strlit("Profile Comparison Summary");
        reveal_strlit("Optimization Insights:");
        lemma_no_escape("Profile Comparison Summary"@);
        lemma_no_escape("Optimization Insights:"@);
    }
    let title = bold("Profile Comparison Summary");
    let n = report.insights.len();
    let insights_title = if n > 0 { bold("Optimization Insights:") } else { String::new() };
    let mut parts: Vec<(String, String)> = Vec::new();
    let mut i: usize = 0;
    while i < n
        invariant
            n == report.insights@.len(),
            i <= n,
            parts@.len() == i,
            forall|j: int| 0 <= j < i ==> insight_styled(
                report.insights@[j],
                (#[trigger] parts@[j].0@, parts@[j].1@),
            ),
        decreases n - i,
    {
        let p = styled_insight(&report.insights[i]);
        let ghost before = parts@;
        parts.push(p);
        assert(forall|j: int| 0 <= j < i ==> parts@[j] == before[j]);
        assert(parts@[i as int] == p);
        i = i + 1;
    }
    let status = styled_status(report);
    let out = render_terminal_diff_with(report, title.as_str(), insights_title.as_str(), &parts, status.as_str());
    let ghost pv = parts@.map_values(|p: (String, String)| (p.0@, p.1@));
    assert(pieces_styled(*report, title@, insights_title@, pv, status@)) by {
        assert forall|j: int| 0 <= j < pv.len() implies insight_styled(report.insights@[j], #[trigger] pv[j]) by {
            assert(pv[j] == (parts@[j].0@, parts@[j].1@));
        }
    }
    assert(out@ == terminal_text(*report, title@, insights_title@, pv, status@));
    out
}


/// 📈 for a change that grew, 📉 otherwise.
pub open spec fn rise_or_fall(d: i64) -> Seq<char> {
    if d > 0 { "📈"@ } else { "📉"@ }
}

/// `pat` occurs in `s` at position `i`.
pub open spec fn occurs_at(pat: Seq<char>, s: Seq<char>, i: int) -> bool {
    0 <= i && i + pat.len() <= s.len() && s.subrange(i, i + pat.len()) == pat
}

/// An occurrence inside `s` is an occurrence inside `x + s + y`.
proof fn lemma_occurs_within(pat: Seq<char>, s: Seq<char>, i: int, x: Seq<char>, y: Seq<char>)
    requires
        occurs_at(pat, s, i),
    ensures
        occurs_at(pat, x + s + y, x.len() + i),
{
    assert((x + s + y).subrange(x.len() + i, x.len() + i + pat.len()) =~= s.subrange(i, i + pat.len()));
}

/// The `j`-th of the first `m` rows is among them.
proof fn lemma_row_in_rows(e: Seq<(Seq<char>, HostIoTypeChange)>, order: Seq<int>, m: nat, j: int)
    requires
        0 <= j < m,
    ensures
        exists|i: int| occurs_at(hostio_row(e[order[j]].0, e[order[j]].1), hostio_rows(e, order, m), i),
    decreases m,
{
    let row = hostio_row(e[order[j]].0, e[order[j]].1);
    let prev = hostio_rows(e, order, (m - 1) as nat);
    let last = hostio_row(e[order[m - 1]].0, e[order[m - 1]].1);
    if j == m - 1 {
        assert(last.subrange(0, row.len() as int) =~= row);
        lemma_occurs_within(row, last, 0, prev, seq![]);
        assert(prev + last + seq![] =~= hostio_rows(e, order, m));
    } else {
        lemma_row_in_rows(e, order, (m - 1) as nat, j);
        let i = choose|i: int| occurs_at(row, prev, i);
        lemma_occurs_within(row, prev, i, seq![], last);
        assert(seq![] + prev + last =~= hostio_rows(e, order, m));
    }
}

/// The summary lists the HostIO types with the largest changes, each on a
/// row that shows, from the type's change, the direction (📈 for growth,
/// 📉 otherwise), the type, the baseline count, then the target count, and
/// the signed change: for the `j`-th largest change of the first five.
pub proof fn lemma_hostio_row_shows_counts(
    r: DiffReport,
    title: Seq<char>,
    insights_title: Seq<char>,
    parts: Seq<(Seq<char>, Seq<char>)>,
    status: Seq<char>,
    j: int,
)
    requires
        0 <= j < min_nat(5, r.deltas.hostio.by_type_changes.entries().len()),
    ensures
        ({
            let e = r.deltas.hostio.by_type_changes.entries();
            let k = e[magnitude_order(change_keys(e), e.len())[j]].0;
            let c = e[magnitude_order(change_keys(e), e.len())[j]].1;
            exists|i: int| #[trigger] occurs_at(
                "  "@ + rise_or_fall(c.delta) + " "@ + k + ": "@ + dec(c.baseline as nat)
                    + " -> "@ + dec(c.target as nat) + " ("@ + signed_dec(c.delta as int) + ")\n"@,
                terminal_text(r, title, insights_title, parts, status),
                i,
            )
        }),
{
    let e = r.deltas.hostio.by_type_changes.entries();
    let order = magnitude_order(change_keys(e), e.len());
    let m = min_nat(5, e.len());
    let row = hostio_row(e[order[j]].0, e[order[j]].1);
    lemma_row_in_rows(e, order, m, j);
    let i = choose|i: int| occurs_at(row, hostio_rows(e, order, m), i);
    let head = header_text(r, title) + gas_text(r) + hostio_summary_text(r) + "\nTop HostIO Changes:\n"@;
    let tail = hot_paths_text(r) + insights_text(r, insights_title, parts) + status_text(status);
    lemma_occurs_within(row, hostio_rows(e, order, m), i, head, tail);
    let text = terminal_text(r, title, insights_title, parts, status);
    assert(head + hostio_rows(e, order, m) + tail =~= text);
    let k = e[order[j]].0;
    let c = e[order[j]].1;
    assert(row == "  "@ + rise_or_fall(c.delta) + " "@ + k + ": "@ + dec(c.baseline as nat) + " -> "@
        + dec(c.target as nat) + " ("@ + signed_dec(c.delta as int) + ")\n"@);
    assert(occurs_at(row, text, head.len() + i));
}

} // verus!
