//! From stored samples to typed tick samples.
//!
//! A stored sample carries its core and classification as free-form tags. The
//! engine reads them once, here, into a typed sample. Only the samples of the
//! window are read: what lies outside it is neither used nor held against
//! the rest.

use vstd::prelude::*;
use crate::collectors::types::{Metric, MetricValue};
use crate::decimal::{decimal_value_within, parse_i32};
use crate::collectors::types::{core_type_named, CoreType};
use crate::storage::aggregations::rates::{
    counter_named, in_window, window_opens, TickCounter, TickSample,
};
use crate::text::{find_value, value_of};
use crate::validation::ValidationError;

verus! {

/// The number that the tags give a key, if they give one that fits in 32
/// bits.
pub open spec fn tagged_number(metadata: Seq<(String, String)>, key: Seq<char>) -> Option<i32> {
    match value_of(metadata, key) {
        Some(text) => match decimal_value_within(text, i32::MIN as int, i32::MAX as int) {
            Some(v) => Some(v as i32),
            None => None,
        },
        None => None,
    }
}

/// The kind of core that the tags name; unknown where they name none.
pub open spec fn tagged_core_type(metadata: Seq<(String, String)>) -> CoreType {
    match value_of(metadata, "core_type"@) {
        Some(text) => core_type_named(text),
        None => CoreType::Unknown,
    }
}

/// The tick sample that a stored sample of a tick counter holds.
///
/// The value must be an integer and the tags must give a `core_id`. A missing
/// or unreadable `core_type` makes the core's kind unknown, a missing or
/// unreadable `cluster_id` leaves the cluster open.
pub open spec fn tick_sample_of(counter: TickCounter, metric: Metric) -> Result<
    TickSample,
    ValidationError,
> {
    match metric.value {
        MetricValue::Integer(ticks) => match tagged_number(metric.metadata@, "core_id"@) {
            Some(core_id) => Ok(
                TickSample {
                    counter,
                    core_id,
                    core_type: tagged_core_type(metric.metadata@),
                    cluster_id: tagged_number(metric.metadata@, "cluster_id"@),
                    timestamp: metric.timestamp,
                    ticks,
                },
            ),
            None => Err(ValidationError::MissingCoreId),
        },
        _ => Err(ValidationError::NotAnInteger),
    }
}

/// A tick sample that was refused: its position among the stored samples
/// and what is wrong with it.
#[derive(Debug, Clone, Copy, PartialEq, Eq)]
pub struct RefusedSample {
    pub position: usize,
    pub reason: ValidationError,
}

/// The tick samples among the stored samples of the window, in the order
/// given.
///
/// Samples taken outside the window are passed over, whatever they hold, and
/// so are samples of other names. The first tick sample of the window that
/// is malformed refuses the whole list, with its position among the stored
/// samples and what is wrong.
pub open spec fn tick_samples_of(metrics: Seq<Metric>, now: i64, window_seconds: i64) -> Result<
    Seq<TickSample>,
    (int, ValidationError),
>
    decreases metrics.len(),
{
    if metrics.len() == 0 {
        Ok(Seq::empty())
    } else {
        match tick_samples_of(metrics.drop_last(), now, window_seconds) {
            Err(refused) => Err(refused),
            Ok(earlier) => if !in_window(metrics.last().timestamp, now, window_seconds) {
                Ok(earlier)
            } else {
                match counter_named(metrics.last().name@) {
                    None => Ok(earlier),
                    Some(counter) => match tick_sample_of(counter, metrics.last()) {
                        Ok(sample) => Ok(earlier.push(sample)),
                        Err(e) => Err((metrics.len() - 1, e)),
                    },
                }
            },
        }
    }
}

/// Once the first samples are refused, so is every longer list.
proof fn lemma_refusal_stays(metrics: Seq<Metric>, now: i64, window_seconds: i64, i: int)
    requires
        0 <= i <= metrics.len(),
        tick_samples_of(metrics.take(i), now, window_seconds) is Err,
    ensures
        tick_samples_of(metrics, now, window_seconds) == tick_samples_of(
            metrics.take(i),
            now,
            window_seconds,
        ),
    decreases metrics.len(),
{
    if i == metrics.len() {
        assert(metrics.take(i) =~= metrics);
    } else {
        assert(metrics.drop_last().take(i) =~= metrics.take(i));
        lemma_refusal_stays(metrics.drop_last(), now, window_seconds, i);
    }
}

/// Every tick sample that is read was taken inside the window.
pub proof fn lemma_tick_samples_are_of_the_window(
    metrics: Seq<Metric>,
    now: i64,
    window_seconds: i64,
)
    requires
        tick_samples_of(metrics, now, window_seconds) is Ok,
    ensures
        forall|j: int|
            0 <= j < tick_samples_of(metrics, now, window_seconds)->Ok_0.len() ==> in_window(
                (#[trigger] tick_samples_of(metrics, now, window_seconds)->Ok_0[j]).timestamp,
                now,
                window_seconds,
            ),
    decreases metrics.len(),
{
    if metrics.len() > 0 {
        lemma_tick_samples_are_of_the_window(metrics.drop_last(), now, window_seconds);
    }
}

/// Reads a number from the tags.
pub fn tagged_i32(metadata: &Vec<(String, String)>, key: &str) -> (number: Option<i32>)
    ensures
        number == tagged_number(metadata@, key@),
{
    match find_value(metadata, key) {
        Some(text) => parse_i32(text.as_str()),
        None => None,
    }
}

/// Reads one stored sample of a tick counter.
pub fn tick_sample(counter: TickCounter, metric: &Metric) -> (sample: Result<
    TickSample,
    ValidationError,
>)
    ensures
        sample == tick_sample_of(counter, *metric),
{
    let ticks = match &metric.value {
        MetricValue::Integer(ticks) => *ticks,
        _ => {
            return Err(ValidationError::NotAnInteger);
        },
    };
    let core_id = match tagged_i32(&metric.metadata, "core_id") {
        Some(core_id) => core_id,
        None => {
            return Err(ValidationError::MissingCoreId);
        },
    };
    let core_type = match find_value(&metric.metadata, "core_type") {
        Some(text) => CoreType::from_str(text.as_str()),
        None => CoreType::Unknown,
    };
    Ok(
        TickSample {
            counter,
            core_id,
            core_type,
            cluster_id: tagged_i32(&metric.metadata, "cluster_id"),
            timestamp: metric.timestamp,
            ticks,
        },
    )
}

/// Reads the tick samples among the stored samples of the window.
pub fn tick_samples(metrics: &Vec<Metric>, now: i64, window_seconds: i64) -> (samples: Result<
    Vec<TickSample>,
    RefusedSample,
>)
    ensures
        match samples {
            Ok(list) => tick_samples_of(metrics@, now, window_seconds) == Ok::<
                Seq<TickSample>,
                (int, ValidationError),
            >(list@),
            Err(refused) => tick_samples_of(metrics@, now, window_seconds) == Err::<
                Seq<TickSample>,
                (int, ValidationError),
            >((refused.position as int, refused.reason)),
        },
{
    let n = metrics.len();
    let opens: i128 = now as i128 - (window_seconds as i128) * 1000;
    let mut list: Vec<TickSample> = Vec::new();
    let mut i: usize = 0;
    while i < n
        invariant
            i <= n,
            n == metrics@.len(),
            opens == window_opens(now, window_seconds),
            tick_samples_of(metrics@.take(i as int), now, window_seconds) == Ok::<
                Seq<TickSample>,
                (int, ValidationError),
            >(list@),
        decreases n - i,
    {
        assert(metrics@.take(i + 1).drop_last() =~= metrics@.take(i as int));
        let metric = &metrics[i];
        if opens < metric.timestamp as i128 && metric.timestamp <= now {
            match TickCounter::from_name(metric.name.as_str()) {
                None => {},
                Some(counter) => match tick_sample(counter, metric) {
                    Ok(sample) => {
                        list.push(sample);
                    },
                    Err(e) => {
                        proof {
                            lemma_refusal_stays(metrics@, now, window_seconds, i + 1);
                        }
                        return Err(RefusedSample { position: i, reason: e });
                    },
                },
            }
        }
        i = i + 1;
    }
    assert(metrics@.take(n as int) =~= metrics@);
    Ok(list)
}

} // verus!
