//! Double-precision numbers read as fixed point.
//!
//! A double is taken by its 64 bits: one for the sign, eleven for the
//! exponent, fifty-two for the fraction. Reading it here gives its value in
//! millionths, rounded to the nearest one, without any floating-point
//! arithmetic.

use vstd::prelude::*;
use vstd::arithmetic::power2::{
    lemma2_to64, lemma2_to64_rest, lemma_pow2_adds, lemma_pow2_pos,
    lemma_pow2_strictly_increases, lemma_pow2_unfold, pow2,
};
use crate::fixed::{nearest_even, round_nearest_even, UNIT};
use crate::validation::ValidationError;

verus! {

/// The sign bit: 1 for a negative number.
pub open spec fn sign_bit(bits: u64) -> int {
    bits as int / 0x8000_0000_0000_0000
}

/// The exponent as stored, from 0 to 2047.
pub open spec fn biased_exponent(bits: u64) -> int {
    (bits as int / 0x10_0000_0000_0000) % 2048
}

/// The 52 bits of the fraction.
pub open spec fn fraction(bits: u64) -> int {
    bits as int % 0x10_0000_0000_0000
}

/// Whether the bits stand for a number, as opposed to an infinity or a NaN.
pub open spec fn is_finite(bits: u64) -> bool {
    biased_exponent(bits) != 2047
}

/// The significand: the fraction, with the leading one of a normal number.
pub open spec fn significand(bits: u64) -> int {
    if biased_exponent(bits) == 0 {
        fraction(bits)
    } else {
        fraction(bits) + 0x10_0000_0000_0000
    }
}

/// How many binary places the significand has: the magnitude of the number
/// is its significand divided by two to this power. Negative for numbers
/// from two to the fifty-third on.
pub open spec fn binary_places(bits: u64) -> int {
    if biased_exponent(bits) == 0 {
        1074
    } else {
        1075 - biased_exponent(bits)
    }
}

/// The power of two that the significand of a finite double is multiplied
/// by, counted from the smallest that a double can hold: the magnitude of
/// the number is its significand times two to this power, divided by two to
/// the 1074th.
pub open spec fn binary_exponent(bits: u64) -> int {
    if biased_exponent(bits) == 0 {
        0
    } else {
        biased_exponent(bits) - 1
    }
}

/// The significand of a double with the sign of the double.
pub open spec fn signed_significand(bits: u64) -> int {
    if sign_bit(bits) == 1 {
        -significand(bits)
    } else {
        significand(bits)
    }
}

/// A finite double taken apart: its value is the signed significand times
/// two to the power `exponent - 1074`.
#[derive(Debug, Clone, Copy, PartialEq, Eq)]
pub struct DoubleParts {
    /// The significand with the sign of the double, below two to the
    /// fifty-third in magnitude.
    pub significand: i64,
    pub exponent: u32,
}

/// The magnitude of a finite double in millionths, rounded to the nearest
/// integer, halves to the even one.
pub open spec fn magnitude_in_millionths(bits: u64) -> int {
    let places = binary_places(bits);
    if places > 0 {
        nearest_even(significand(bits) * UNIT, pow2(places as nat) as int)
    } else {
        significand(bits) * UNIT * pow2((-places) as nat)
    }
}

/// The value of a finite double in millionths.
pub open spec fn in_millionths(bits: u64) -> int {
    if sign_bit(bits) == 1 {
        -magnitude_in_millionths(bits)
    } else {
        magnitude_in_millionths(bits)
    }
}

/// A double as a fixed-point number: refused if it is not finite, or if its
/// millionths do not fit in 64 bits.
pub open spec fn fixed_of(bits: u64) -> Result<i64, ValidationError> {
    if !is_finite(bits) {
        Err(ValidationError::NotFinite)
    } else if i64::MIN <= in_millionths(bits) <= i64::MAX {
        Ok(in_millionths(bits) as i64)
    } else {
        Err(ValidationError::OutOfRange)
    }
}

/// Takes a double, given by its bits, apart; an infinity or a NaN has no
/// parts.
pub fn parts_of(bits: u64) -> (parts: Option<DoubleParts>)
    ensures
        match parts {
            Some(p) => is_finite(bits) && p.significand == signed_significand(bits) && p.exponent
                == binary_exponent(bits) && -0x20_0000_0000_0000 < p.significand
                < 0x20_0000_0000_0000 && p.exponent <= 2045 && (p.exponent > 0
                ==> p.significand >= 0x10_0000_0000_0000 || p.significand
                <= -0x10_0000_0000_0000),
            None => !is_finite(bits),
        },
{
    let exponent: u64 = (bits >> 52) & 0x7ff;
    let fraction_bits: u64 = bits & 0xf_ffff_ffff_ffff;
    let negative: bool = (bits >> 63) == 1;
    proof {
        assert((bits >> 52) & 0x7ff == (bits / 0x10_0000_0000_0000) % 2048) by (bit_vector);
        assert(bits & 0xf_ffff_ffff_ffff == bits % 0x10_0000_0000_0000) by (bit_vector);
        assert(bits >> 63 == bits / 0x8000_0000_0000_0000) by (bit_vector);
        assert(bits / 0x8000_0000_0000_0000 <= 1) by (bit_vector);
        assert(bits & 0xf_ffff_ffff_ffff < 0x10_0000_0000_0000) by (bit_vector);
    }
    if exponent == 2047 {
        return None;
    }
    let magnitude: i64 = if exponent == 0 {
        fraction_bits as i64
    } else {
        (fraction_bits + 0x10_0000_0000_0000) as i64
    };
    let place: u32 = if exponent == 0 {
        0
    } else {
        (exponent - 1) as u32
    };
    Some(
        DoubleParts {
            significand: if negative {
                -magnitude
            } else {
                magnitude
            },
            exponent: place,
        },
    )
}

/// Two to the power `places`, for up to 45 places.
pub fn small_power_of_two(places: u32) -> (power: u128)
    requires
        places <= 45,
    ensures
        power == pow2(places as nat),
        0 < power <= 0x2000_0000_0000,
{
    let power = power_of_two(places);
    proof {
        lemma2_to64_rest();
        if places < 45 {
            lemma_pow2_strictly_increases(places as nat, 45);
        }
    }
    power
}

/// Two to the power `places`, for up to 74 places.
fn power_of_two(places: u32) -> (power: u128)
    requires
        places <= 74,
    ensures
        power == pow2(places as nat),
        0 < power <= 0x400_0000_0000_0000_0000,
{
    let mut power: u128 = 1;
    let mut i: u32 = 0;
    proof {
        lemma2_to64();
        lemma_pow2_adds(64, 10);
    }
    while i < places
        invariant
            i <= places <= 74,
            power == pow2(i as nat),
            power * pow2((74 - i) as nat) == 0x400_0000_0000_0000_0000,
            pow2(0) == 1,
        decreases places - i,
    {
        proof {
            lemma_pow2_unfold((i + 1) as nat);
            lemma_pow2_unfold((74 - i) as nat);
            lemma_pow2_pos((74 - i - 1) as nat);
            let rest = pow2((74 - i - 1) as nat);
            assert(power * (2 * rest) == (2 * power) * rest) by (nonlinear_arith);
            assert(2 * power <= (2 * power) * rest) by (nonlinear_arith)
                requires
                    rest >= 1,
                    power >= 0,
            ;
        }
        power = power * 2;
        i = i + 1;
    }
    proof {
        lemma_pow2_pos((74 - places) as nat);
        lemma_pow2_pos(places as nat);
        let rest = pow2((74 - places) as nat);
        assert(power <= power * rest) by (nonlinear_arith)
            requires
                rest >= 1,
                power >= 0,
        ;
    }
    power
}

/// Reads a double, given by its bits, as a fixed-point number.
///
/// An infinity or a NaN is refused as not finite. A number whose millionths
/// do not fit in 64 bits is refused as out of range. Every other number is
/// read to the nearest millionth.
pub fn fixed_from_bits(bits: u64) -> (fixed: Result<i64, ValidationError>)
    ensures
        fixed == fixed_of(bits),
{
    let exponent: u64 = (bits >> 52) & 0x7ff;
    let fraction_bits: u64 = bits & 0xf_ffff_ffff_ffff;
    let negative: bool = (bits >> 63) == 1;
    proof {
        assert((bits >> 52) & 0x7ff == (bits / 0x10_0000_0000_0000) % 2048) by (bit_vector);
        assert(bits & 0xf_ffff_ffff_ffff == bits % 0x10_0000_0000_0000) by (bit_vector);
        assert(bits >> 63 == bits / 0x8000_0000_0000_0000) by (bit_vector);
        assert(bits / 0x8000_0000_0000_0000 <= 1) by (bit_vector);
        assert(bits & 0xf_ffff_ffff_ffff < 0x10_0000_0000_0000) by (bit_vector);
    }
    assert(exponent == biased_exponent(bits));
    assert(fraction_bits == fraction(bits));
    assert(negative == (sign_bit(bits) == 1));
    if exponent == 2047 {
        return Err(ValidationError::NotFinite);
    }
    let significand_bits: u64 = if exponent == 0 {
        fraction_bits
    } else {
        fraction_bits + 0x10_0000_0000_0000
    };
    assert(significand_bits == significand(bits));
    assert(significand_bits * UNIT < 0x400_0000_0000_0000_0000) by (nonlinear_arith)
        requires
            significand_bits < 0x20_0000_0000_0000,
            UNIT == 1_000_000,
    ;
    let scaled: u128 = (significand_bits as u128) * (UNIT as u128);
    if exponent >= 1075 {
        proof {
            let grow = pow2((exponent - 1075) as nat);
            lemma_pow2_pos((exponent - 1075) as nat);
            assert(scaled * grow >= scaled) by (nonlinear_arith)
                requires
                    grow >= 1,
                    scaled >= 0,
            ;
            assert(magnitude_in_millionths(bits) == scaled * grow);
        }
        return Err(ValidationError::OutOfRange);
    }
    let places: u64 = if exponent == 0 {
        1074
    } else {
        1075 - exponent
    };
    assert(places == binary_places(bits));
    let magnitude: i128 = if places >= 75 {
        proof {
            lemma2_to64();
            lemma_pow2_adds(64, 11);
            if places > 75 {
                lemma_pow2_strictly_increases(75, places as nat);
            }
            let den = pow2(places as nat) as int;
            assert(den >= 0x800_0000_0000_0000_0000);
            assert(scaled < 0x400_0000_0000_0000_0000);
            assert(scaled as int / den == 0 && scaled as int % den == scaled) by (nonlinear_arith)
                requires
                    0 <= scaled < den,
            ;
        }
        0
    } else {
        let den = power_of_two(places as u32);
        round_nearest_even(scaled as i128, den as i128)
    };
    assert(magnitude == magnitude_in_millionths(bits));
    proof {
        if places < 75 {
            let den = pow2(places as nat) as int;
            lemma_pow2_pos(places as nat);
            assert(0 <= scaled as int / den <= scaled) by (nonlinear_arith)
                requires
                    scaled >= 0,
                    den >= 1,
            ;
        }
    }
    if negative {
        if magnitude > 0x8000_0000_0000_0000 {
            Err(ValidationError::OutOfRange)
        } else {
            Ok((-magnitude) as i64)
        }
    } else {
        if magnitude > 0x7fff_ffff_ffff_ffff {
            Err(ValidationError::OutOfRange)
        } else {
            Ok(magnitude as i64)
        }
    }
}

} // verus!
