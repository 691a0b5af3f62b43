//! Sums of rates to many places.
//!
//! A sum of quotients with different denominators has no quotient of bounded
//! size. The sums are therefore kept in fixed point, but to ninety binary
//! places and in 256 bits: a rate enters rounded down by less than one part
//! in a thousand million of itself, and no sum of rates overflows.

use vstd::prelude::*;
use vstd::arithmetic::div_mod::lemma_fundamental_div_mod_converse;

verus! {

/// A natural number below two to the 256th: `hi` times two to the 128th,
/// plus `lo`.
#[derive(Debug, Clone, Copy, PartialEq, Eq)]
pub struct Wide {
    pub hi: u128,
    pub lo: u128,
}

/// Two to the 64th.
pub open spec fn two_64() -> int {
    0x1_0000_0000_0000_0000
}

/// Two to the 128th.
pub open spec fn two_128() -> int {
    two_64() * two_64()
}

/// Two to the ninetieth: how many steps of a wide sum make one tick per
/// second.
pub open spec fn wide_unit() -> int {
    0x400_0000_0000_0000_0000_0000
}

/// The greatest numerator of a rate: the greatest growth of a counter,
/// times a thousand.
pub const MAX_NUMERATOR: u128 = 18_446_744_073_709_551_615_000;

/// No rate enters a wide sum with more than this: the greatest numerator
/// to ninety places.
pub open spec fn max_term() -> int {
    MAX_NUMERATOR * wide_unit()
}

impl Wide {
    /// The number that this stands for.
    pub open spec fn value(self) -> int {
        self.hi * two_128() + self.lo
    }

    /// Zero.
    pub fn zero() -> (wide: Wide)
        ensures
            wide.value() == 0,
            wide == (Wide { hi: 0, lo: 0 }),
    {
        Wide { hi: 0, lo: 0 }
    }

    /// A number that fits in 128 bits.
    pub fn from_u128(n: u128) -> (wide: Wide)
        ensures
            wide.value() == n,
            wide == (Wide { hi: 0, lo: n }),
    {
        Wide { hi: 0, lo: n }
    }

    /// Whether this is zero.
    pub fn is_zero(&self) -> (zero: bool)
        ensures
            zero == (self.value() == 0),
    {
        assert(self.hi > 0 ==> self.hi * two_128() >= two_128()) by (nonlinear_arith);
        self.hi == 0 && self.lo == 0
    }

    /// The sum of two numbers that together stay below two to the 256th.
    pub fn plus(&self, other: &Wide) -> (sum: Wide)
        requires
            self.value() + other.value() < two_128() * two_128(),
        ensures
            sum.value() == self.value() + other.value(),
    {
        let room: u128 = u128::MAX - other.lo;
        proof {
            assert((self.hi + other.hi) * two_128() == self.hi * two_128() + other.hi
                * two_128()) by (nonlinear_arith);
            assert(self.hi + other.hi < two_128()) by (nonlinear_arith)
                requires
                    (self.hi + other.hi) * two_128() < two_128() * two_128(),
            ;
        }
        if self.lo > room {
            proof {
                assert((self.hi + other.hi + 1) * two_128() == self.hi * two_128() + other.hi
                    * two_128() + two_128()) by (nonlinear_arith);
                assert(self.hi + other.hi + 1 < two_128()) by (nonlinear_arith)
                    requires
                        (self.hi + other.hi + 1) * two_128() <= self.hi * two_128() + other.hi
                            * two_128() + self.lo + other.lo,
                        self.hi * two_128() + other.hi * two_128() + self.lo + other.lo
                            < two_128() * two_128(),
                ;
            }
            Wide { hi: self.hi + other.hi + 1, lo: self.lo - room - 1 }
        } else {
            Wide { hi: self.hi + other.hi, lo: self.lo + other.lo }
        }
    }
}

/// The wide number that stands for `v`.
pub open spec fn wide_of(v: int) -> Wide {
    Wide { hi: (v / two_128()) as u128, lo: (v % two_128()) as u128 }
}

/// A wide number is the only one that stands for its value.
pub proof fn lemma_wide_of_value(wide: Wide)
    ensures
        wide_of(wide.value()) == wide,
{
    assert(two_128() > wide.lo) by (nonlinear_arith)
        requires
            wide.lo <= u128::MAX,
            two_128() == two_64() * two_64(),
            two_64() == 0x1_0000_0000_0000_0000,
    ;
    lemma_fundamental_div_mod_converse(wide.value(), two_128(), wide.hi as int, wide.lo as int);
}

/// As many terms as a list can hold add up to less than two to the 256th.
pub proof fn lemma_terms_fit(count: int)
    requires
        0 <= count <= two_64(),
    ensures
        0 <= count * max_term() < two_128() * two_128(),
        max_term() > 0,
{
    assert(0 <= count * max_term() < two_128() * two_128() && max_term() > 0)
        by (nonlinear_arith)
        requires
            0 <= count <= two_64(),
            max_term() == MAX_NUMERATOR * wide_unit(),
            MAX_NUMERATOR == 18_446_744_073_709_551_615_000,
            wide_unit() == 0x400_0000_0000_0000_0000_0000,
            two_64() == 0x1_0000_0000_0000_0000,
            two_128() == two_64() * two_64(),
    ;
}

/// A quotient to ninety binary places, rounded down.
pub open spec fn wide_quotient(numerator: int, denominator: int) -> int {
    numerator * wide_unit() / denominator
}

/// The quotient of a numerator by a denominator to ninety binary places,
/// rounded down.
pub fn quotient_to_places(numerator: u128, denominator: u64) -> (quotient: Wide)
    requires
        denominator > 0,
        numerator <= MAX_NUMERATOR,
    ensures
        quotient.value() == wide_quotient(numerator as int, denominator as int),
        0 <= quotient.value() <= max_term(),
{
    let d: u128 = denominator as u128;
    let top: u128 = numerator >> 38;
    let low: u128 = numerator & 0x3f_ffff_ffff;
    let rest: u128 = low << 90;
    proof {
        assert(numerator == (numerator >> 38) * 0x40_0000_0000 + (numerator & 0x3f_ffff_ffff))
            by (bit_vector);
        assert((numerator & 0x3f_ffff_ffff) < 0x40_0000_0000) by (bit_vector);
        assert(low << 90 == low * 0x400_0000_0000_0000_0000_0000) by (bit_vector)
            requires
                low < 0x40_0000_0000,
        ;
        assert((numerator >> 38) <= numerator) by (bit_vector);
    }
    let q2: u128 = top / d;
    let r2: u128 = top % d;
    let upper: u128 = rest >> 64;
    let lower: u128 = rest & 0xffff_ffff_ffff_ffff;
    proof {
        assert(rest == (rest >> 64) * 0x1_0000_0000_0000_0000 + (rest & 0xffff_ffff_ffff_ffff))
            by (bit_vector);
        assert((rest >> 64) < 0x1_0000_0000_0000_0000) by (bit_vector);
        assert((rest & 0xffff_ffff_ffff_ffff) < 0x1_0000_0000_0000_0000) by (bit_vector);
        assert(r2 * two_64() + upper < d * two_64()) by (nonlinear_arith)
            requires
                r2 < d,
                upper < two_64(),
        ;
    }
    let t1: u128 = r2 * 0x1_0000_0000_0000_0000 + upper;
    let q1: u128 = t1 / d;
    let r1: u128 = t1 % d;
    proof {
        assert(q1 < two_64()) by (nonlinear_arith)
            requires
                q1 == t1 as int / d as int,
                t1 < d * two_64(),
                d > 0,
        ;
        assert(r1 * two_64() + lower < d * two_64()) by (nonlinear_arith)
            requires
                r1 < d,
                lower < two_64(),
        ;
    }
    let t0: u128 = r1 * 0x1_0000_0000_0000_0000 + lower;
    let q0: u128 = t0 / d;
    let r0: u128 = t0 % d;
    proof {
        assert(q0 < two_64()) by (nonlinear_arith)
            requires
                q0 == t0 as int / d as int,
                t0 < d * two_64(),
                d > 0,
        ;
    }
    let quotient = Wide { hi: q2, lo: q1 * 0x1_0000_0000_0000_0000 + q0 };
    proof {
        let whole = numerator * wide_unit();
        assert(top == q2 * d + r2 && t1 == q1 * d + r1 && t0 == q0 * d + r0) by (nonlinear_arith)
            requires
                q2 == top as int / d as int,
                r2 == top as int % d as int,
                q1 == t1 as int / d as int,
                r1 == t1 as int % d as int,
                q0 == t0 as int / d as int,
                r0 == t0 as int % d as int,
                d > 0,
        ;
        assert(whole == top * two_128() + rest) by (nonlinear_arith)
            requires
                whole == numerator * wide_unit(),
                numerator == top * 0x40_0000_0000 + low,
                rest == low * 0x400_0000_0000_0000_0000_0000,
                wide_unit() == 0x400_0000_0000_0000_0000_0000,
                two_128() == 0x40_0000_0000 * 0x400_0000_0000_0000_0000_0000,
        ;
        assert(whole == quotient.value() * d + r0) by (nonlinear_arith)
            requires
                whole == top * two_128() + rest,
                rest == upper * two_64() + lower,
                top == q2 * d + r2,
                t1 == r2 * two_64() + upper,
                t1 == q1 * d + r1,
                t0 == r1 * two_64() + lower,
                t0 == q0 * d + r0,
                quotient.value() == q2 * two_128() + q1 * two_64() + q0,
                two_128() == two_64() * two_64(),
        ;
        lemma_fundamental_div_mod_converse(whole, d as int, quotient.value(), r0 as int);
        assert(0 <= whole / (d as int) <= whole) by (nonlinear_arith)
            requires
                whole >= 0,
                d >= 1,
        ;
        assert(whole <= max_term()) by (nonlinear_arith)
            requires
                whole == numerator * wide_unit(),
                numerator <= MAX_NUMERATOR,
                max_term() == MAX_NUMERATOR * wide_unit(),
                wide_unit() > 0,
        ;
    }
    quotient
}

/// The quotient of a numerator of at least a thousand, as every growing
/// counter gives, by a denominator of 64 bits has at least sixty thousand
/// million steps, so that the one step by which it may fall short is less
/// than a part in a thousand million of it.
pub proof fn lemma_wide_quotient_is_fine(numerator: int, denominator: int)
    requires
        numerator >= 1000,
        0 < denominator < two_64(),
    ensures
        wide_quotient(numerator, denominator) >= 60_000_000_000,
{
    let whole = numerator * wide_unit();
    assert(whole >= 1000 * wide_unit()) by (nonlinear_arith)
        requires
            whole == numerator * wide_unit(),
            numerator >= 1000,
            wide_unit() > 0,
    ;
    assert(whole / denominator >= 60_000_000_000) by (nonlinear_arith)
        requires
            whole >= 1000 * 0x400_0000_0000_0000_0000_0000,
            0 < denominator < 0x1_0000_0000_0000_0000,
    ;
}

/// A quotient to ninety places lies within one step below the quotient
/// itself.
pub proof fn lemma_wide_quotient_is_close(numerator: int, denominator: int)
    requires
        numerator >= 0,
        denominator > 0,
    ensures
        wide_quotient(numerator, denominator) * denominator <= numerator * wide_unit(),
        numerator * wide_unit() < (wide_quotient(numerator, denominator) + 1) * denominator,
        0 <= wide_quotient(numerator, denominator),
{
    let whole = numerator * wide_unit();
    assert(whole >= 0) by (nonlinear_arith)
        requires
            whole == numerator * wide_unit(),
            numerator >= 0,
            wide_unit() > 0,
    ;
    assert((whole / denominator) * denominator <= whole < (whole / denominator + 1) * denominator
        && 0 <= whole / denominator) by (nonlinear_arith)
        requires
            whole >= 0,
            denominator > 0,
    ;
}

} // verus!
