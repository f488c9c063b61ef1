//! The one-decimal rendering of `n / 10000` as an IEEE-754 double gives it:
//! `n` becomes the nearest double, the quotient is rounded to the nearest
//! double, and `{:.1}` rounds that double's exact value to the nearest
//! tenth, an exact tie going to the even neighbour. All of it is computed
//! on integers.

use vstd::prelude::*;
use crate::percent::{round_half_even, round_half_even_u128};

verus! {

/// `2^k`.
pub open spec fn two_pow(k: nat) -> nat
    decreases k,
{
    if k == 0 {
        1
    } else {
        2 * two_pow((k - 1) as nat)
    }
}

/// Number of low bits that `n < 2^64` loses as a double: the smallest
/// `k >= from` (at most 11) with `n < 2^(53 + k)`.
pub open spec fn dropped_bits(n: nat, from: nat) -> nat
    decreases 11 - from,
{
    if from >= 11 || n < two_pow(53 + from) {
        from
    } else {
        dropped_bits(n, from + 1)
    }
}

/// The double nearest to `n` (ties to even), as `n as f64` gives it.
pub open spec fn to_double(n: nat) -> nat {
    let p = two_pow(dropped_bits(n, 0));
    round_half_even(n, p) * p
}

/// The smallest `s >= from` (below 80) with `a * 2^s >= 2^52 * 10000`: the
/// scale at which `a / 10000` has 53 bits before the binary point.
pub open spec fn scale_for(a: nat, from: nat) -> nat
    decreases 80 - from,
{
    if from >= 80 || a * two_pow(from) >= two_pow(52) * 10000 {
        from
    } else {
        scale_for(a, from + 1)
    }
}

/// Tenths printed by `{:.1}` for `n as f64 / 10000.0`: the quotient is the
/// double `m / 2^s` with the 53-bit mantissa `m` rounded to nearest (ties
/// to even); ten times it is rounded to an integer the same way.
pub open spec fn double_tenths(n: u64) -> nat {
    let a = to_double(n as nat);
    if a == 0 {
        0
    } else {
        let s = scale_for(a, 0);
        let m = round_half_even(a * two_pow(s), 10000);
        round_half_even(10 * m, two_pow(s))
    }
}

proof fn lemma_two_pow_pos(k: nat)
    ensures
        two_pow(k) >= 1,
    decreases k,
{
    if k > 0 {
        lemma_two_pow_pos((k - 1) as nat);
    }
}

proof fn lemma_two_pow_mono(j: nat, k: nat)
    requires
        j <= k,
    ensures
        two_pow(j) <= two_pow(k),
    decreases k,
{
    if j < k {
        lemma_two_pow_mono(j, (k - 1) as nat);
        lemma_two_pow_pos((k - 1) as nat);
    }
}

/// The powers of two the conversions use.
proof fn lemma_two_pow_values()
    ensures
        two_pow(11) == 0x800,
        two_pow(52) == 0x10_0000_0000_0000,
        two_pow(53) == 0x20_0000_0000_0000,
        two_pow(64) == 0x1_0000_0000_0000_0000,
        two_pow(80) == 0x1_0000_0000_0000_0000_0000,
{
    reveal_with_fuel(two_pow, 81);
}

/// `n` as the nearest double, for `n < 2^64`.
fn to_double_exec(n: u64) -> (a: u128)
    ensures
        a as nat == to_double(n as nat),
        a <= 0x1_0000_0000_0000_0800,
{
    proof {
        lemma_two_pow_values();
    }
    let mut k: u128 = 0;
    let mut p: u128 = 1;
    let mut big: u128 = 0x20_0000_0000_0000;
    while k < 11 && (n as u128) >= big
        invariant
            k <= 11,
            p >= 1,
            p as nat == two_pow(k as nat),
            big as nat == two_pow(53 + k as nat),
            p <= 0x800,
            big <= 0x1_0000_0000_0000_0000,
            dropped_bits(n as nat, k as nat) == dropped_bits(n as nat, 0),
        decreases 11 - k,
    {
        proof {
            lemma_two_pow_mono((53 + k + 1) as nat, 64);
            lemma_two_pow_mono((k + 1) as nat, 11);
            lemma_two_pow_values();
        }
        k = k + 1;
        p = p * 2;
        big = big * 2;
    }
    assert(dropped_bits(n as nat, k as nat) == k);
    let q = round_half_even_u128(n as u128, p);
    assert(q <= n as u128 / p + 1);
    assert((n as u128 / p) * p <= n as u128) by (nonlinear_arith) requires p >= 1;
    assert((n as u128 / p + 1) * p == (n as u128 / p) * p + p) by (nonlinear_arith);
    assert(q * p <= (n as u128 / p + 1) * p) by (nonlinear_arith) requires q <= n as u128 / p + 1, p >= 1;
    q * p
}

/// Tenths that `{:.1}` prints for `n as f64 / 10000.0`.
pub fn double_tenths_exec(n: u64) -> (t: u128)
    ensures
        t as nat == double_tenths(n),
        t <= 0x1000_0000_0000_0000,
{
    let a = to_double_exec(n);
    if a == 0 {
        return 0;
    }
    proof {
        lemma_two_pow_values();
    }
    let floor: u128 = 0x10_0000_0000_0000 * 10000;
    let mut s: u128 = 0;
    let mut p: u128 = 1;
    while a * p < floor
        invariant
            a >= 1,
            a <= 0x1_0000_0000_0000_0800,
            p as nat == two_pow(s as nat),
            p >= 1,
            a * p < 2 * floor,
            floor == two_pow(52) * 10000,
            floor == 0x10_0000_0000_0000 * 10000,
            s < 80,
            scale_for(a as nat, s as nat) == scale_for(a as nat, 0),
        decreases 2 * floor - a * p,
    {
        proof {
            lemma_two_pow_values();
        }
        assert(p <= a * p) by (nonlinear_arith) requires a >= 1, p >= 1;
        assert(a * (p * 2) == 2 * (a * p)) by (nonlinear_arith);
        assert(a * (p * 2) > a * p) by (nonlinear_arith) requires a >= 1, p >= 1;
        s = s + 1;
        p = p * 2;
        proof {
            assert(p <= a * p) by (nonlinear_arith) requires a >= 1, p >= 1;
            if s >= 80 {
                lemma_two_pow_mono(80, s as nat);
            }
        }
    }
    assert(scale_for(a as nat, s as nat) == s);
    let m = round_half_even_u128(a * p, 10000);
    assert(m <= (a * p) / 10000 + 1);
    assert((a * p) / 10000 <= 0x20_0000_0000_0000) by (nonlinear_arith)
        requires a * p < 2 * (0x10_0000_0000_0000 * 10000);
    let t = round_half_even_u128(10 * m, p);
    assert(t as int <= (10 * m as int) / (p as int) + 1);
    assert((10 * m as int) / (p as int) <= 10 * m as int) by (nonlinear_arith) requires p >= 1, m >= 0;
    t
}

} // verus!
