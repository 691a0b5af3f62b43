//! Fixed-point quantities.
//!
//! Rates and percentages are integers that count millionths: a rate of
//! `3_500_000_000` is 3500 units per second, a percentage of `12_500_000` is
//! 12.5 %. Keeping them integral lets every contract give the exact result.

use vstd::prelude::*;
use vstd::arithmetic::div_mod::lemma_fundamental_div_mod_converse;

verus! {

/// How many fixed-point steps make one whole unit.
pub const UNIT: i64 = 1_000_000;

/// One hundred percent in fixed point.
pub const HUNDRED_PERCENT: i64 = 100_000_000;

/// The largest magnitude of a rate that the utilization calculator accepts:
/// ten to the thirtieth millionths per second.
pub const RATE_LIMIT: i128 = 1_000_000_000_000_000_000_000_000_000_000;

/// `v` forced into the range from 0 % to 100 %.
pub open spec fn clamped_percent(v: int) -> int {
    if v < 0 {
        0
    } else if v > HUNDRED_PERCENT {
        HUNDRED_PERCENT as int
    } else {
        v
    }
}

/// The integer nearest to `num / den`; a quotient exactly halfway between two
/// integers goes to the even one.
pub open spec fn nearest_even(num: int, den: int) -> int
    recommends
        den > 0,
{
    let q = num / den;
    let r = num % den;
    if 2 * r < den {
        q
    } else if 2 * r > den {
        q + 1
    } else if q % 2 == 0 {
        q
    } else {
        q + 1
    }
}

/// `v` forced into the range from 0 % to 100 %.
pub fn clamp_percent(v: i64) -> (c: i64)
    ensures
        c == clamped_percent(v as int),
        0 <= c <= HUNDRED_PERCENT,
{
    if v < 0 {
        0
    } else if v > HUNDRED_PERCENT {
        HUNDRED_PERCENT
    } else {
        v
    }
}

/// The quotient and remainder of `num` by `den`, the quotient rounded down.
pub fn floor_div_rem(num: i128, den: i128) -> (qr: (i128, i128))
    requires
        den > 0,
        num > i128::MIN,
    ensures
        qr.0 == num as int / den as int,
        qr.1 == num as int % den as int,
        0 <= qr.1 < den,
{
    if num >= 0 {
        (num / den, num % den)
    } else {
        let m: i128 = -num;
        let q: i128 = m / den;
        let r: i128 = m % den;
        proof {
            assert(m == q * den + r) by (nonlinear_arith)
                requires
                    q == m as int / den as int,
                    r == m as int % den as int,
                    den > 0,
            ;
            assert(0 <= q <= m) by (nonlinear_arith)
                requires
                    q == m as int / den as int,
                    m >= 0,
                    den > 0,
            ;
        }
        if r == 0 {
            proof {
                assert(num == (-q) * den + 0) by (nonlinear_arith)
                    requires
                        m == q * den + r,
                        r == 0,
                        m == -num,
                ;
                lemma_fundamental_div_mod_converse(num as int, den as int, -q as int, 0);
            }
            (-q, 0)
        } else {
            proof {
                assert(num == (-q - 1) * den + (den - r)) by (nonlinear_arith)
                    requires
                        m == q * den + r,
                        m == -num,
                ;
                lemma_fundamental_div_mod_converse(
                    num as int,
                    den as int,
                    -q - 1,
                    den as int - r as int,
                );
            }
            (-q - 1, den - r)
        }
    }
}

/// The integer nearest to `num / den`, halves going to the even neighbour.
pub fn round_nearest_even(num: i128, den: i128) -> (rounded: i128)
    requires
        0 < den <= i128::MAX / 2,
        i128::MIN < num < i128::MAX,
    ensures
        rounded == nearest_even(num as int, den as int),
{
    let (q, r) = floor_div_rem(num, den);
    proof {
        assert(q * den + r == num && q < i128::MAX && q > i128::MIN) by (nonlinear_arith)
            requires
                q == num as int / den as int,
                r == num as int % den as int,
                den > 0,
                0 <= r < den,
                i128::MIN < num < i128::MAX,
        ;
    }
    if 2 * r < den {
        q
    } else if 2 * r > den {
        q + 1
    } else if q % 2 == 0 {
        q
    } else {
        q + 1
    }
}

} // verus!
