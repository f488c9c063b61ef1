//! Exact percentages and their fixed-point renderings.
//!
//! A percentage is kept as the fraction it was computed from, so that no
//! precision is lost before it is compared or printed.

use vstd::prelude::*;
use crate::text::{dec, digit_char, magnitude, push_char, push_dec};

verus! {

/// The percentage `100 * change / base`; zero when `base` is zero.
#[derive(Clone, Copy, Debug, PartialEq, Eq)]
pub struct Percentage {
    pub change: i64,
    pub base: u64,
}

impl Percentage {
    /// The percentage is strictly negative.
    pub open spec fn is_negative(self) -> bool {
        self.base > 0 && self.change < 0
    }

    /// Magnitude of the percentage in hundredths, rounded to nearest with
    /// exact ties to even, as `{:.2}` rounds.
    pub open spec fn hundredths(self) -> nat {
        if self.base == 0 {
            0
        } else {
            round_half_even((10000 * abs_int(self.change as int)) as nat, self.base as nat)
        }
    }

    /// Signed hundredths of a percent, as reported in threshold violations.
    pub open spec fn signed_hundredths(self) -> int {
        let h = if self.hundredths() > i64::MAX { i64::MAX as nat } else { self.hundredths() };
        if self.is_negative() { -(h as int) } else { h as int }
    }

    /// The percentage is strictly greater than `limit` hundredths of a percent.
    pub open spec fn exceeds(self, limit: int) -> bool {
        if self.base == 0 {
            0 > limit
        } else {
            10000 * self.change > limit * self.base
        }
    }
}

/// `num / den` rounded to the nearest integer, an exact tie going to the
/// even neighbour.
pub open spec fn round_half_even(num: nat, den: nat) -> nat
    recommends
        den > 0,
{
    let q = num / den;
    let r = num % den;
    if 2 * r > den || (2 * r == den && q % 2 == 1) {
        q + 1
    } else {
        q
    }
}

/// `num / den` rounded to nearest, ties to even.
pub fn round_half_even_u128(num: u128, den: u128) -> (r: u128)
    requires
        den > 0,
        num / den < u128::MAX,
    ensures
        r as nat == round_half_even(num as nat, den as nat),
{
    let q = num / den;
    let rem = num % den;
    if rem > den - rem || (rem == den - rem && q % 2 == 1) {
        q + 1
    } else {
        q
    }
}

/// Absolute value of an integer.
pub open spec fn abs_int(n: int) -> int {
    if n < 0 { -n } else { n }
}

/// Two decimal digits of a value below one hundred.
pub open spec fn two_digits(r: nat) -> Seq<char> {
    seq![digit_char((r / 10) as int), digit_char((r % 10) as int)]
}

/// Magnitude with two decimals: `{:.2}` of the absolute value.
pub open spec fn fixed2(h: nat) -> Seq<char> {
    dec(h / 100) + seq!['.'] + two_digits(h % 100)
}

/// `{:+.2}` of the percentage: the sign follows the exact value.
pub open spec fn percent_signed_text(p: Percentage) -> Seq<char> {
    (if p.is_negative() { seq!['-'] } else { seq!['+'] }) + fixed2(p.hundredths())
}

/// `{:.2}` of the percentage: a sign only when the value is negative.
pub open spec fn percent_text(p: Percentage) -> Seq<char> {
    (if p.is_negative() { seq!['-'] } else { seq![] }) + fixed2(p.hundredths())
}

/// `part / whole` as a percentage; a zero `whole` gives zero.
pub fn safe_percentage(part: i64, whole: u64) -> (p: Percentage)
    ensures
        p.change == part,
        p.base == whole,
{
    Percentage { change: part, base: whole }
}

/// Rounded hundredths of a percent.
pub fn hundredths(p: Percentage) -> (h: u128)
    ensures
        h as nat == p.hundredths(),
{
    if p.base == 0 {
        0
    } else {
        let m = magnitude(p.change) as u128;
        let b = p.base as u128;
        assert(m <= 0x8000_0000_0000_0000);
        assert(10000 * m <= 10000 * 0x8000_0000_0000_0000u128) by (nonlinear_arith)
            requires m <= 0x8000_0000_0000_0000u128;
        let n = 10000 * m;
        assert(n / b <= n) by (nonlinear_arith) requires b >= 1;
        round_half_even_u128(n, b)
    }
}

/// Signed hundredths of a percent, saturated to the `i64` range.
pub fn signed_hundredths(p: Percentage) -> (h: i64)
    ensures
        h as int == p.signed_hundredths(),
{
    let m = hundredths(p);
    let c: i64 = if m > i64::MAX as u128 { i64::MAX } else { m as i64 };
    if p.base > 0 && p.change < 0 { -c } else { c }
}

/// Whether the percentage is strictly above `limit` hundredths of a percent.
pub fn exceeds(p: Percentage, limit: i64) -> (r: bool)
    ensures
        r == p.exceeds(limit as int),
{
    if p.base == 0 {
        0 > limit
    } else {
        let lhs = 10000i128 * (p.change as i128);
        assert(-0x8000_0000_0000_0000 * 0xffff_ffff_ffff_ffff <= (limit as int) * (p.base as int)
            <= 0x7fff_ffff_ffff_ffff * 0xffff_ffff_ffff_ffff) by (nonlinear_arith)
            requires
                -0x8000_0000_0000_0000 <= limit <= 0x7fff_ffff_ffff_ffff,
                0 <= p.base <= 0xffff_ffff_ffff_ffff;
        let rhs = (limit as i128) * (p.base as i128);
        lhs > rhs
    }
}

/// Appends the two-decimal magnitude for `h` hundredths.
fn push_fixed2(out: &mut String, h: u128)
    ensures
        final(out)@ == old(out)@ + fixed2(h as nat),
{
    let ghost start = out@;
    push_dec(out, h / 100);
    push_char(out, '.');
    let r = h % 100;
    push_char(out, (48u8 + (r / 10) as u8) as char);
    push_char(out, (48u8 + (r % 10) as u8) as char);
    assert(out@ =~= start + fixed2(h as nat));
}

/// Appends `{:+.2}` of the percentage.
pub fn push_percent_signed(out: &mut String, p: Percentage)
    ensures
        final(out)@ == old(out)@ + percent_signed_text(p),
{
    let ghost start = out@;
    if p.base > 0 && p.change < 0 {
        push_char(out, '-');
    } else {
        push_char(out, '+');
    }
    push_fixed2(out, hundredths(p));
    assert(out@ =~= start + percent_signed_text(p));
}

/// `{:.2}` of the percentage as a new string.
pub fn percent_string(p: Percentage) -> (s: String)
    ensures
        s@ == percent_text(p),
{
    let mut s = String::new();
    if p.base > 0 && p.change < 0 {
        push_char(&mut s, '-');
    }
    push_fixed2(&mut s, hundredths(p));
    assert(s@ =~= percent_text(p));
    s
}

} // verus!
