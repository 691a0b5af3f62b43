//! The utilization calculator: the share of active time in all time.
//!
//! A utilization is given twice over: without loss, as a numerator over a
//! denominator, and rounded down to a millionth of a percent for the charts.

use vstd::prelude::*;
use crate::fixed::{clamped_percent, HUNDRED_PERCENT, RATE_LIMIT};
use vstd::arithmetic::power2::pow2;
use crate::ieee754::{
    binary_exponent, is_finite, parts_of, signed_significand, small_power_of_two,
};
use crate::validation::ValidationError;
use crate::wide::{lemma_wide_of_value, two_128, wide_of, Wide};

verus! {

/// Whether a rate is within the magnitude that the calculator accepts.
pub open spec fn rate_in_range(rate: int) -> bool {
    -RATE_LIMIT <= rate <= RATE_LIMIT
}

/// The utilization of an active and an idle rate in fixed-point percent:
/// `100 * active / (active + idle)` rounded down and kept between 0 % and
/// 100 %, or 0 % when the two rates do not add up to something positive.
pub open spec fn utilization(active: int, idle: int) -> int {
    if active + idle > 0 {
        clamped_percent(HUNDRED_PERCENT * active / (active + idle))
    } else {
        0
    }
}

/// A utilization in percent: `numerator / denominator` without loss, and
/// the same rounded down to a millionth of a percent.
#[derive(Debug, Clone, Copy, PartialEq, Eq)]
pub struct Utilization {
    pub numerator: u128,
    /// Above 0.
    pub denominator: u128,
    /// Millionths of a percent.
    pub millionths: i64,
}

/// The utilization of an active and an idle rate without loss: `100 *
/// active` over `active + idle` where both are positive and the active rate
/// is below their sum; 100 over 1 where the active rate alone reaches the
/// sum; 0 over 1 where nothing is active or the sum is not positive.
pub open spec fn exact_utilization(active: int, idle: int) -> Utilization {
    if active + idle <= 0 || active <= 0 {
        Utilization { numerator: 0, denominator: 1, millionths: 0 }
    } else if active >= active + idle {
        Utilization { numerator: 100, denominator: 1, millionths: HUNDRED_PERCENT }
    } else {
        Utilization {
            numerator: (100 * active) as u128,
            denominator: (active + idle) as u128,
            millionths: utilization(active, idle) as i64,
        }
    }
}

/// The share of an active sum of rates in the sum of all rates: `part /
/// whole` is the utilization as a fraction, and a hundred times that the
/// utilization in percent.
#[derive(Debug, Clone, Copy, PartialEq, Eq)]
pub struct Share {
    pub part: Wide,
    /// Above 0.
    pub whole: Wide,
}

/// The share of an active sum in the sum of an active and an idle sum, both
/// not negative: the active sum over both together, or 0 over 1 where both
/// vanish.
pub open spec fn share_of_sums(active: int, idle: int) -> Share {
    if active + idle <= 0 {
        Share { part: wide_of(0), whole: wide_of(1) }
    } else {
        Share { part: wide_of(active), whole: wide_of(active + idle) }
    }
}

/// Computes the share of an active sum of rates in the sum of all rates.
pub fn utilization_of_sums(active: &Wide, idle: &Wide) -> (share: Share)
    requires
        active.value() + idle.value() < two_128() * two_128(),
    ensures
        share == share_of_sums(active.value(), idle.value()),
        share.whole.value() > 0,
        share.part.value() <= share.whole.value(),
{
    let whole = active.plus(idle);
    proof {
        lemma_wide_of_value(*active);
        lemma_wide_of_value(whole);
        assert(active.hi * two_128() >= 0 && idle.hi * two_128() >= 0) by (nonlinear_arith)
            requires
                two_128() > 0,
        ;
    }
    if whole.is_zero() {
        let share = Share { part: Wide::zero(), whole: Wide::from_u128(1) };
        proof {
            lemma_wide_of_value(share.part);
            lemma_wide_of_value(share.whole);
        }
        share
    } else {
        Share { part: *active, whole }
    }
}

/// Computes the utilization of an active and an idle rate.
///
/// Both rates are in the same unit. A rate beyond `RATE_LIMIT` in magnitude
/// is refused; every other pair has a utilization.
pub fn utilization_percent(active: i128, idle: i128) -> (percent: Result<
    Utilization,
    ValidationError,
>)
    ensures
        rate_in_range(active as int) && rate_in_range(idle as int) ==> percent == Ok::<
            Utilization,
            ValidationError,
        >(exact_utilization(active as int, idle as int)),
        !(rate_in_range(active as int) && rate_in_range(idle as int)) ==> percent == Err::<
            Utilization,
            ValidationError,
        >(ValidationError::RateOutOfRange),
        percent is Ok ==> percent->Ok_0.millionths == utilization(active as int, idle as int),
        percent is Ok ==> 0 <= percent->Ok_0.millionths <= HUNDRED_PERCENT
            && percent->Ok_0.denominator > 0,
{
    if active < -RATE_LIMIT || active > RATE_LIMIT || idle < -RATE_LIMIT || idle > RATE_LIMIT {
        return Err(ValidationError::RateOutOfRange);
    }
    let total: i128 = active + idle;
    if total <= 0 {
        return Ok(Utilization { numerator: 0, denominator: 1, millionths: 0 });
    }
    if active <= 0 {
        proof {
            assert(HUNDRED_PERCENT * active / (total as int) <= 0) by (nonlinear_arith)
                requires
                    active <= 0,
                    total > 0,
            ;
        }
        return Ok(Utilization { numerator: 0, denominator: 1, millionths: 0 });
    }
    if active >= total {
        proof {
            assert(HUNDRED_PERCENT * active / (total as int) >= HUNDRED_PERCENT) by (nonlinear_arith)
                requires
                    active >= total,
                    total > 0,
            ;
        }
        return Ok(Utilization { numerator: 100, denominator: 1, millionths: HUNDRED_PERCENT });
    }
    let scaled: i128 = (HUNDRED_PERCENT as i128) * active;
    let quotient: i128 = scaled / total;
    proof {
        assert(0 <= HUNDRED_PERCENT * active / (total as int) <= HUNDRED_PERCENT) by (nonlinear_arith)
            requires
                0 < active < total,
        ;
    }
    Ok(
        Utilization {
            numerator: (100 * active) as u128,
            denominator: total as u128,
            millionths: quotient as i64,
        },
    )
}

/// The utilization without loss is the quotient itself: for rates within
/// range that are not negative and do not both vanish, `numerator /
/// denominator` equals `100 * active / (active + idle)`. The rounded value
/// lies within a millionth below it.
pub proof fn lemma_utilization_is_exact(active: int, idle: int)
    requires
        0 <= active <= RATE_LIMIT,
        0 <= idle <= RATE_LIMIT,
        active + idle > 0,
    ensures
        exact_utilization(active, idle).denominator > 0,
        exact_utilization(active, idle).numerator * (active + idle) == 100 * active
            * exact_utilization(active, idle).denominator,
        exact_utilization(active, idle).millionths == utilization(active, idle),
        exact_utilization(active, idle).millionths * exact_utilization(active, idle).denominator
            <= 1_000_000 * exact_utilization(active, idle).numerator,
        1_000_000 * exact_utilization(active, idle).numerator < (exact_utilization(
            active,
            idle,
        ).millionths + 1) * exact_utilization(active, idle).denominator,
{
    let total = active + idle;
    if active > 0 && idle == 0 {
        assert(HUNDRED_PERCENT * active / total == HUNDRED_PERCENT) by (nonlinear_arith)
            requires
                total == active,
                active > 0,
        ;
    } else if active > 0 {
        let q = HUNDRED_PERCENT * active / total;
        assert(q * total <= HUNDRED_PERCENT * active < (q + 1) * total && 0 <= q
            <= HUNDRED_PERCENT) by (nonlinear_arith)
            requires
                q == HUNDRED_PERCENT * active / total,
                0 < active < total,
        ;
        assert(1_000_000 * (100 * active) == HUNDRED_PERCENT * active) by (nonlinear_arith)
            requires
                HUNDRED_PERCENT == 100_000_000,
        ;
    } else {
        assert(HUNDRED_PERCENT * active / total == 0) by (nonlinear_arith)
            requires
                active == 0,
                total > 0,
        ;
    }
}

/// By how many binary places two doubles may lie apart for both to count:
/// a rate more than two to this power times the other, about thirty-five
/// million million times, stands alone.
pub const PLACES_THAT_COUNT: u32 = 45;

/// The utilization of two rates given as doubles, by their bits.
///
/// A double is its signed significand times a power of two. Where the
/// powers of the two rates lie no more than `PLACES_THAT_COUNT` apart, the
/// utilization is that of the two rates without loss. Where they lie further
/// apart, the rate with the smaller power does not count. A rate that is an
/// infinity or a NaN is refused.
pub open spec fn utilization_of_doubles(active: u64, idle: u64) -> Result<
    Utilization,
    ValidationError,
> {
    if !is_finite(active) || !is_finite(idle) {
        Err(ValidationError::NotFinite)
    } else {
        let a = signed_significand(active);
        let i = signed_significand(idle);
        let above = binary_exponent(active) - binary_exponent(idle);
        if above > PLACES_THAT_COUNT {
            Ok(exact_utilization(a, 0))
        } else if -above > PLACES_THAT_COUNT {
            Ok(exact_utilization(0, i))
        } else if above >= 0 {
            Ok(exact_utilization(a * pow2(above as nat), i))
        } else {
            Ok(exact_utilization(a, i * pow2((-above) as nat)))
        }
    }
}

/// Computes the utilization of an active and an idle rate that are given as
/// double-precision numbers, each by its bits.
///
/// Every pair of finite rates has a utilization; a rate that is an infinity
/// or a NaN is refused as not finite.
pub fn utilization_percent_of_doubles(active: u64, idle: u64) -> (percent: Result<
    Utilization,
    ValidationError,
>)
    ensures
        percent == utilization_of_doubles(active, idle),
        percent is Ok ==> 0 <= percent->Ok_0.millionths <= HUNDRED_PERCENT
            && percent->Ok_0.denominator > 0,
{
    let a = match parts_of(active) {
        Some(a) => a,
        None => {
            return Err(ValidationError::NotFinite);
        },
    };
    let i = match parts_of(idle) {
        Some(i) => i,
        None => {
            return Err(ValidationError::NotFinite);
        },
    };
    if a.exponent > i.exponent + PLACES_THAT_COUNT {
        utilization_percent(a.significand as i128, 0)
    } else if i.exponent > a.exponent + PLACES_THAT_COUNT {
        utilization_percent(0, i.significand as i128)
    } else if a.exponent >= i.exponent {
        let scale = small_power_of_two(a.exponent - i.exponent);
        assert(-0x4_0000_0000_0000_0000_0000_0000 <= a.significand * scale
            <= 0x4_0000_0000_0000_0000_0000_0000) by (nonlinear_arith)
            requires
                -0x20_0000_0000_0000 < a.significand < 0x20_0000_0000_0000,
                0 < scale <= 0x2000_0000_0000,
        ;
        utilization_percent((a.significand as i128) * (scale as i128), i.significand as i128)
    } else {
        let scale = small_power_of_two(i.exponent - a.exponent);
        assert(-0x4_0000_0000_0000_0000_0000_0000 <= i.significand * scale
            <= 0x4_0000_0000_0000_0000_0000_0000) by (nonlinear_arith)
            requires
                -0x20_0000_0000_0000 < i.significand < 0x20_0000_0000_0000,
                0 < scale <= 0x2000_0000_0000,
        ;
        utilization_percent(a.significand as i128, (i.significand as i128) * (scale as i128))
    }
}

/// Multiplying both rates by the same positive number leaves the
/// utilization without loss at the same quotient.
pub proof fn lemma_utilization_keeps_its_scale(active: int, idle: int, scale: int)
    requires
        scale > 0,
        rate_in_range(active * scale),
        rate_in_range(idle * scale),
    ensures
        exact_utilization(active * scale, idle * scale).numerator * exact_utilization(
            active,
            idle,
        ).denominator == exact_utilization(active, idle).numerator * exact_utilization(
            active * scale,
            idle * scale,
        ).denominator,
{
    assert(rate_in_range(active) && rate_in_range(idle)) by (nonlinear_arith)
        requires
            scale > 0,
            rate_in_range(active * scale),
            rate_in_range(idle * scale),
    ;
    assert((active * scale + idle * scale > 0) == (active + idle > 0) && (active * scale > 0) == (
    active > 0) && (active * scale >= active * scale + idle * scale) == (active >= active + idle)
        && (100 * (active * scale)) * (active + idle) == (100 * active) * (active * scale + idle
        * scale)) by (nonlinear_arith)
        requires
            scale > 0,
    ;
}

/// Where a rate does not count beside one that is more than two to the
/// power `PLACES_THAT_COUNT` times as great, the utilization without it
/// differs from the quotient by less than a hundred over that power.
pub proof fn lemma_small_rate_counts_little(great: int, small: int)
    requires
        small >= 0,
        great > 0x2000_0000_0000 * small,
    ensures
        100 * great * 0x2000_0000_0000 > (100 * 0x2000_0000_0000 - 100) * (great + small),
        100 * small * 0x2000_0000_0000 < 100 * (great + small),
{
    assert(100 * great * 0x2000_0000_0000 > (100 * 0x2000_0000_0000 - 100) * (great + small)
        && 100 * small * 0x2000_0000_0000 < 100 * (great + small)) by (nonlinear_arith)
        requires
            small >= 0,
            great > 0x2000_0000_0000 * small,
    ;
}

/// Utilization never leaves the range from 0 % to 100 %, and is 0 % when the
/// two rates add up to nothing.
pub proof fn lemma_utilization_is_bounded(active: int, idle: int)
    ensures
        0 <= utilization(active, idle) <= HUNDRED_PERCENT,
        active + idle == 0 ==> utilization(active, idle) == 0,
{
}

/// With only active time the utilization is 100 %, with only idle time 0 %.
pub proof fn lemma_utilization_extremes(rate: int)
    requires
        rate > 0,
    ensures
        utilization(rate, 0) == HUNDRED_PERCENT,
        utilization(0, rate) == 0,
{
    assert(HUNDRED_PERCENT * rate / rate == HUNDRED_PERCENT) by (nonlinear_arith)
        requires
            rate > 0,
    ;
    assert(HUNDRED_PERCENT * 0 / rate == 0) by (nonlinear_arith)
        requires
            rate > 0,
    ;
}

} // verus!
