//! Integer division rounded to the nearest integer.

use vstd::prelude::*;
use vstd::arithmetic::div_mod::lemma_fundamental_div_mod_converse;

verus! {

/// The integer nearest to `x / d`; a quotient exactly halfway between two
/// integers goes to the larger one.  Meant for `d > 0`.
pub open spec fn round_div(x: int, d: int) -> int {
    (2 * x + d) / (2 * d)
}

/// A multiple of the divisor is divided without rounding.
pub proof fn lemma_round_div_exact(k: int, d: int)
    requires
        d > 0,
    ensures
        round_div(k * d, d) == k,
{
    assert(2 * (k * d) + d == k * (2 * d) + d) by (nonlinear_arith);
    lemma_fundamental_div_mod_converse(2 * (k * d) + d, 2 * d, k, d);
}

/// The rounded quotient of a dividend between `lo * d` and `hi * d` lies
/// between `lo` and `hi`.
pub proof fn lemma_round_div_bounds(x: int, d: int, lo: int, hi: int)
    requires
        d > 0,
        lo * d <= x <= hi * d,
    ensures
        lo <= round_div(x, d) <= hi,
{
    let q = round_div(x, d);
    let r = (2 * x + d) % (2 * d);
    vstd::arithmetic::div_mod::lemma_fundamental_div_mod(2 * x + d, 2 * d);
    assert(0 <= r < 2 * d) by {
        vstd::arithmetic::div_mod::lemma_mod_bound(2 * x + d, 2 * d);
    }
    assert(2 * x + d == (2 * d) * q + r);
    assert(lo <= q) by (nonlinear_arith)
        requires
            d > 0,
            lo * d <= x,
            2 * x + d == (2 * d) * q + r,
            0 <= r < 2 * d,
    ;
    assert(q <= hi) by (nonlinear_arith)
        requires
            d > 0,
            x <= hi * d,
            2 * x + d == (2 * d) * q + r,
            0 <= r < 2 * d,
    ;
}

/// `round_div` for machine integers.
pub(crate) fn round_div_i128(x: i128, d: i128) -> (q: i128)
    requires
        0 < d <= 0x1000_0000_0000_0000_0000_0000_0000,
        -0x1000_0000_0000_0000_0000_0000_0000_0000 <= x <= 0x1000_0000_0000_0000_0000_0000_0000_0000,
    ensures
        q == round_div(x as int, d as int),
{
    let n: i128 = 2 * x + d;
    let m: i128 = 2 * d;
    proof {
        vstd::arithmetic::div_mod::lemma_fundamental_div_mod(n as int, m as int);
        vstd::arithmetic::div_mod::lemma_mod_bound(n as int, m as int);
        let q = (n as int) / (m as int);
        let r = (n as int) % (m as int);
        assert(-0x3000_0000_0000_0000_0000_0000_0000_0000 <= q <= 0x3000_0000_0000_0000_0000_0000_0000_0000)
            by (nonlinear_arith)
            requires
                n == m * q + r,
                0 <= r < m,
                m >= 2,
                -0x2100_0000_0000_0000_0000_0000_0000_0000 <= n <= 0x2100_0000_0000_0000_0000_0000_0000_0000,
        ;
    }
    match n.checked_div_euclid(m) {
        Some(q) => q,
        None => 0,
    }
}

} // verus!
