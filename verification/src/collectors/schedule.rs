//! What the collector does after each collection.
//!
//! The collector samples at a fixed interval. After each collection it
//! stores what it has, and every so often it shows the figures of the store:
//! about every ten seconds when it samples more than once a second, about
//! every thirty seconds otherwise.

use vstd::prelude::*;
use crate::fixed::UNIT;
use crate::ieee754::{fixed_from_bits, fixed_of};
use crate::validation::ValidationError;

verus! {

/// What follows a collection.
#[derive(Debug, Clone, Copy, PartialEq, Eq, Structural)]
pub struct CollectionPlan {
    /// Store the samples.
    pub store: bool,
    /// Say that there is nothing to store.
    pub report_nothing_stored: bool,
    /// Show the figures of the store.
    pub show_stats: bool,
}

/// After how many collections the figures are shown, for an interval in
/// millionths of a second.
pub open spec fn collections_between_stats(interval: i64) -> int
    recommends
        interval > 0,
{
    if interval < UNIT {
        10 * UNIT / (interval as int)
    } else if 30 * UNIT / (interval as int) < 1 {
        1
    } else {
        30 * UNIT / (interval as int)
    }
}

/// What follows the collection with the given number, counted from 1.
pub open spec fn plan_after(
    collection_count: u64,
    stats_every: u64,
    metrics_count: usize,
    error_count: usize,
) -> CollectionPlan {
    CollectionPlan {
        store: metrics_count > 0,
        report_nothing_stored: metrics_count == 0 && error_count > 0,
        show_stats: collection_count as int % stats_every as int == 0,
    }
}

/// The interval that a double, given by its bits, stands for, in millionths
/// of a second.
pub open spec fn interval_of(bits: u64) -> Result<i64, ValidationError> {
    match fixed_of(bits) {
        Err(e) => Err(e),
        Ok(interval) => if interval > 0 {
            Ok(interval)
        } else {
            Err(ValidationError::IntervalNotPositive)
        },
    }
}

/// Reads a collection interval in seconds, given as a double by its bits.
///
/// The interval must be a number, positive to the millionth of a second, and
/// not too large for fixed point.
pub fn collection_interval(bits: u64) -> (interval: Result<i64, ValidationError>)
    ensures
        interval == interval_of(bits),
{
    match fixed_from_bits(bits) {
        Err(e) => Err(e),
        Ok(interval) => if interval > 0 {
            Ok(interval)
        } else {
            Err(ValidationError::IntervalNotPositive)
        },
    }
}

/// After how many collections the figures are shown.
pub fn stats_every(interval: i64) -> (collections: u64)
    requires
        interval > 0,
    ensures
        collections == collections_between_stats(interval),
        collections > 0,
{
    if interval < UNIT {
        let every: i64 = 10 * UNIT / interval;
        assert(10 * UNIT / (interval as int) >= 10) by (nonlinear_arith)
            requires
                0 < interval < UNIT,
        ;
        every as u64
    } else {
        let every: i64 = 30 * UNIT / interval;
        assert(0 <= 30 * UNIT / (interval as int) <= 30) by (nonlinear_arith)
            requires
                interval >= UNIT,
                UNIT > 0,
        ;
        if every < 1 {
            1
        } else {
            every as u64
        }
    }
}

/// Decides what follows a collection.
pub fn after_collection(
    collection_count: u64,
    stats_every: u64,
    metrics_count: usize,
    error_count: usize,
) -> (plan: CollectionPlan)
    requires
        stats_every > 0,
    ensures
        plan == plan_after(collection_count, stats_every, metrics_count, error_count),
{
    CollectionPlan {
        store: metrics_count > 0,
        report_nothing_stored: metrics_count == 0 && error_count > 0,
        show_stats: collection_count % stats_every == 0,
    }
}

} // verus!
