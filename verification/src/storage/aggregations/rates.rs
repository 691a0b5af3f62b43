//! The rate engine.
//!
//! Tick counters only ever grow, so a single sample says nothing; the rate of
//! a counter is the growth between two successive samples divided by the time
//! between them. The engine keeps the samples of a trailing window, puts them
//! in time order, follows each counter of each core on its own and reports
//! the most recent rate of each.
//!
//! A rate is stated without loss, as the growth in ticks times a thousand
//! over the milliseconds that passed, and beside that in millionths of a tick
//! per second, rounded down.

use vstd::prelude::*;
use crate::order::{
    ascends, distinct_ascending, lemma_ascending_lists_agree, lemma_stable_order_sorts,
    lists_distinct, precedes, stable_order, stable_order_of,
};
use crate::collectors::types::CoreType;
use crate::text::same_text;
use crate::validation::ValidationError;
use crate::wide::MAX_NUMERATOR;

verus! {

/// The four cumulative counters of a core.
#[derive(Debug, Clone, Copy, PartialEq, Eq, Structural)]
pub enum TickCounter {
    User,
    System,
    Nice,
    Idle,
}

/// One reading of one counter of one core.
#[derive(Debug, Clone, Copy, PartialEq, Eq)]
pub struct TickSample {
    pub counter: TickCounter,
    pub core_id: i32,
    pub core_type: CoreType,
    /// The cluster of the core, where the sample names one.
    pub cluster_id: Option<i32>,
    /// When the reading was taken, in milliseconds since the epoch.
    pub timestamp: i64,
    pub ticks: i64,
}

/// A rate in ticks per second: `numerator / denominator` without loss, and
/// the same rounded down to a millionth of a tick per second.
#[derive(Debug, Clone, Copy, PartialEq, Eq)]
pub struct Rate {
    /// The growth of the counter in ticks, times the thousand milliseconds
    /// of a second.
    pub numerator: u128,
    /// The time that passed in milliseconds, above 0.
    pub denominator: u64,
    /// Millionths of a tick per second.
    pub millionths: u128,
}

impl Rate {
    /// Whether the rate is one that a pair of samples can give: its
    /// denominator is above 0, its numerator is no more than the greatest
    /// growth of a counter times a thousand, and its millionths are the
    /// quotient rounded down.
    pub open spec fn wf(self) -> bool {
        &&& self.denominator > 0
        &&& self.numerator <= MAX_NUMERATOR
        &&& self.millionths == self.numerator * 1_000_000 / (self.denominator as int)
    }
}

/// The rate of a counter that grows by `ticks` in `millis` milliseconds.
pub open spec fn rate_of_growth(ticks: u64, millis: u64) -> Rate {
    Rate {
        numerator: (ticks * 1000) as u128,
        denominator: millis,
        millionths: (ticks * PER_SECOND / (millis as int)) as u128,
    }
}

impl Rate {
    /// Whether the rate is one that a pair of samples can give.
    pub fn is_valid(&self) -> (valid: bool)
        ensures
            valid == self.wf(),
    {
        self.denominator > 0 && self.numerator <= MAX_NUMERATOR && self.millionths
            == self.numerator * 1_000_000 / (self.denominator as u128)
    }

    /// The rate of a counter that grows by `ticks` in `millis` milliseconds;
    /// none where no time passes.
    pub fn from_growth(ticks: u64, millis: u64) -> (rate: Option<Rate>)
        ensures
            rate == (if millis > 0 {
                Some(rate_of_growth(ticks, millis))
            } else {
                None
            }),
            rate is Some ==> rate->Some_0.wf(),
    {
        if millis == 0 {
            return None;
        }
        proof {
            assert(0 <= ticks * PER_SECOND / (millis as int) <= ticks * PER_SECOND)
                by (nonlinear_arith)
                requires
                    millis > 0,
                    ticks * PER_SECOND >= 0,
            ;
            assert((ticks * 1000) * 1_000_000 == ticks * PER_SECOND);
        }
        Some(
            Rate {
                numerator: (ticks as u128) * 1000,
                denominator: millis,
                millionths: (ticks as u128) * PER_SECOND / (millis as u128),
            },
        )
    }
}

/// The most recent rate of one counter of one core.
#[derive(Debug, Clone, Copy, PartialEq, Eq)]
pub struct PartitionRate {
    pub counter: TickCounter,
    pub core_id: i32,
    pub core_type: CoreType,
    pub cluster_id: Option<i32>,
    pub rate: Rate,
    /// The time of the later of the two samples, in milliseconds.
    pub computed_at: i64,
}

/// The rate of a counter that does not grow: 0 over 1.
pub open spec fn no_rate() -> Rate {
    Rate { numerator: 0, denominator: 1, millionths: 0 }
}

/// Millionths per unit times milliseconds per second.
pub const PER_SECOND: u128 = 1_000_000_000;

/// No pair of samples gives a higher rate than this.
pub const MAX_PAIR_RATE: u128 = 18_446_744_073_709_551_615_000_000_000;

/// The window that is used when none is asked for, in seconds.
pub const DEFAULT_WINDOW_SECONDS: i64 = 60;

/// The trailing span of time over which rates are computed.
#[derive(Debug, Clone, Copy, PartialEq, Eq, Structural)]
pub struct UtilizationWindow {
    /// The length of the window in seconds, above 0.
    pub window_seconds: i64,
}

impl UtilizationWindow {
    /// Whether the window has a length above 0.
    pub open spec fn wf(&self) -> bool {
        self.window_seconds > 0
    }

    /// A window of the given length; a length of 0 or less is refused.
    pub fn new(window_seconds: i64) -> (window: Result<Self, ValidationError>)
        ensures
            window_seconds > 0 ==> window == Ok::<Self, ValidationError>(
                UtilizationWindow { window_seconds },
            ),
            window_seconds <= 0 ==> window == Err::<Self, ValidationError>(
                ValidationError::WindowNotPositive,
            ),
            window is Ok ==> window->Ok_0.wf(),
    {
        if window_seconds > 0 {
            Ok(UtilizationWindow { window_seconds })
        } else {
            Err(ValidationError::WindowNotPositive)
        }
    }
}

impl Default for UtilizationWindow {
    /// The window that is used when none is asked for.
    fn default() -> (window: Self)
        ensures
            window.window_seconds == DEFAULT_WINDOW_SECONDS,
            window.wf(),
    {
        UtilizationWindow { window_seconds: DEFAULT_WINDOW_SECONDS }
    }
}

/// The name under which a counter is sampled.
pub open spec fn counter_name(counter: TickCounter) -> Seq<char> {
    match counter {
        TickCounter::User => "cpu_user_ticks"@,
        TickCounter::System => "cpu_system_ticks"@,
        TickCounter::Nice => "cpu_nice_ticks"@,
        TickCounter::Idle => "cpu_idle_ticks"@,
    }
}

/// The counter sampled under `name`, if it is one of the four.
pub open spec fn counter_named(name: Seq<char>) -> Option<TickCounter> {
    if name == "cpu_user_ticks"@ {
        Some(TickCounter::User)
    } else if name == "cpu_system_ticks"@ {
        Some(TickCounter::System)
    } else if name == "cpu_nice_ticks"@ {
        Some(TickCounter::Nice)
    } else if name == "cpu_idle_ticks"@ {
        Some(TickCounter::Idle)
    } else {
        None
    }
}

/// The place of a counter in the order of partition keys.
pub open spec fn counter_rank(counter: TickCounter) -> int {
    match counter {
        TickCounter::User => 0,
        TickCounter::System => 1,
        TickCounter::Nice => 2,
        TickCounter::Idle => 3,
    }
}

/// Whether a counter counts time in which the core worked.
pub open spec fn is_active(counter: TickCounter) -> bool {
    counter != TickCounter::Idle
}

impl TickCounter {
    /// The name under which this counter is sampled.
    pub fn name(&self) -> (name: &'static str)
        ensures
            name@ == counter_name(*self),
    {
        match self {
            TickCounter::User => "cpu_user_ticks",
            TickCounter::System => "cpu_system_ticks",
            TickCounter::Nice => "cpu_nice_ticks",
            TickCounter::Idle => "cpu_idle_ticks",
        }
    }

    /// The counter sampled under `name`; `None` for any other name.
    pub fn from_name(name: &str) -> (counter: Option<TickCounter>)
        ensures
            counter == counter_named(name@),
    {
        if same_text(name, "cpu_user_ticks") {
            Some(TickCounter::User)
        } else if same_text(name, "cpu_system_ticks") {
            Some(TickCounter::System)
        } else if same_text(name, "cpu_nice_ticks") {
            Some(TickCounter::Nice)
        } else if same_text(name, "cpu_idle_ticks") {
            Some(TickCounter::Idle)
        } else {
            None
        }
    }

    /// Whether this counter counts time in which the core worked.
    pub fn is_active(&self) -> (active: bool)
        ensures
            active == is_active(*self),
    {
        match self {
            TickCounter::Idle => false,
            _ => true,
        }
    }
}

/// The instant at which the trailing window opens, in milliseconds.
pub open spec fn window_opens(now: i64, window_seconds: i64) -> int {
    now - window_seconds * 1000
}

/// Whether an instant lies in the window: after its opening, not after `now`.
pub open spec fn in_window(timestamp: i64, now: i64, window_seconds: i64) -> bool {
    window_opens(now, window_seconds) < timestamp <= now
}

/// The samples taken inside the window, in the order given.
pub open spec fn windowed(samples: Seq<TickSample>, now: i64, window_seconds: i64) -> Seq<
    TickSample,
>
    decreases samples.len(),
{
    if samples.len() == 0 {
        Seq::empty()
    } else {
        let earlier = windowed(samples.drop_last(), now, window_seconds);
        if in_window(samples.last().timestamp, now, window_seconds) {
            earlier.push(samples.last())
        } else {
            earlier
        }
    }
}

/// The times of the samples.
pub open spec fn timestamps(samples: Seq<TickSample>) -> Seq<i64> {
    Seq::new(samples.len(), |i: int| samples[i].timestamp)
}

/// The samples in time order; samples of the same instant keep the order
/// given.
pub open spec fn time_ordered(samples: Seq<TickSample>) -> Seq<TickSample> {
    let order = stable_order(timestamps(samples));
    Seq::new(samples.len(), |j: int| samples[order[j] as int])
}

/// What the engine works on: the samples of the window in time order.
pub open spec fn prepared_samples(samples: Seq<TickSample>, now: i64, window_seconds: i64) -> Seq<
    TickSample,
> {
    time_ordered(windowed(samples, now, window_seconds))
}

/// Whether a sample belongs to the partition of one counter of one core.
pub open spec fn in_partition(sample: TickSample, counter: TickCounter, core_id: i32) -> bool {
    sample.counter == counter && sample.core_id == core_id
}

/// The samples of one partition, in the order given. Samples of other
/// partitions never enter it.
pub open spec fn stream(samples: Seq<TickSample>, counter: TickCounter, core_id: i32) -> Seq<
    TickSample,
>
    decreases samples.len(),
{
    if samples.len() == 0 {
        Seq::empty()
    } else {
        let earlier = stream(samples.drop_last(), counter, core_id);
        if in_partition(samples.last(), counter, core_id) {
            earlier.push(samples.last())
        } else {
            earlier
        }
    }
}

/// Whether two successive samples give a rate: time has passed and the
/// counter has not gone back.
pub open spec fn pair_is_valid(earlier: TickSample, later: TickSample) -> bool {
    later.timestamp > earlier.timestamp && later.ticks >= earlier.ticks
}

/// The rate between two successive samples, in millionths of a tick per
/// second, rounded down.
pub open spec fn pair_rate(earlier: TickSample, later: TickSample) -> int {
    (later.ticks - earlier.ticks) * PER_SECOND / (later.timestamp - earlier.timestamp)
}

/// The rate between two successive samples without loss: the growth in
/// ticks times 1000 over the milliseconds that passed, beside the same in
/// millionths.
pub open spec fn exact_pair_rate(earlier: TickSample, later: TickSample) -> Rate {
    Rate {
        numerator: ((later.ticks - earlier.ticks) * 1000) as u128,
        denominator: (later.timestamp - earlier.timestamp) as u64,
        millionths: pair_rate(earlier, later) as u128,
    }
}

/// The last pair of neighbours in a stream that gives a rate.
pub open spec fn latest_valid_pair(stream: Seq<TickSample>) -> Option<(TickSample, TickSample)>
    decreases stream.len(),
{
    if stream.len() < 2 {
        None
    } else if pair_is_valid(stream[stream.len() - 2], stream[stream.len() - 1]) {
        Some((stream[stream.len() - 2], stream[stream.len() - 1]))
    } else {
        latest_valid_pair(stream.drop_last())
    }
}

/// The rate that a valid pair gives, with the classification of its later
/// sample.
pub open spec fn rate_between(earlier: TickSample, later: TickSample) -> PartitionRate {
    PartitionRate {
        counter: later.counter,
        core_id: later.core_id,
        core_type: later.core_type,
        cluster_id: later.cluster_id,
        rate: exact_pair_rate(earlier, later),
        computed_at: later.timestamp,
    }
}

/// The most recent rate of one partition, if any pair of its neighbouring
/// samples gives one.
pub open spec fn partition_rate(prepared: Seq<TickSample>, counter: TickCounter, core_id: i32)
    -> Option<PartitionRate> {
    match latest_valid_pair(stream(prepared, counter, core_id)) {
        Some((earlier, later)) => Some(rate_between(earlier, later)),
        None => None,
    }
}

/// The last sample of a stream.
pub open spec fn last_of(stream: Seq<TickSample>) -> Option<TickSample> {
    if stream.len() == 0 {
        None
    } else {
        Some(stream.last())
    }
}

/// The samples of the window are the samples taken inside it, nothing else
/// and nothing twice over.
pub proof fn lemma_windowed_samples(samples: Seq<TickSample>, now: i64, window_seconds: i64)
    ensures
        windowed(samples, now, window_seconds).len() <= samples.len(),
        forall|j: int|
            0 <= j < windowed(samples, now, window_seconds).len() ==> in_window(
                (#[trigger] windowed(samples, now, window_seconds)[j]).timestamp,
                now,
                window_seconds,
            ) && samples.contains(windowed(samples, now, window_seconds)[j]),
        forall|i: int|
            0 <= i < samples.len() && in_window(
                (#[trigger] samples[i]).timestamp,
                now,
                window_seconds,
            ) ==> windowed(samples, now, window_seconds).contains(samples[i]),
    decreases samples.len(),
{
    let kept = windowed(samples, now, window_seconds);
    if samples.len() > 0 {
        let front = samples.drop_last();
        let earlier = windowed(front, now, window_seconds);
        lemma_windowed_samples(front, now, window_seconds);
        assert forall|j: int| 0 <= j < kept.len() implies in_window(
            (#[trigger] kept[j]).timestamp,
            now,
            window_seconds,
        ) && samples.contains(kept[j]) by {
            if j < earlier.len() {
                assert(kept[j] == earlier[j]);
                assert(front.contains(earlier[j]));
                let i = choose|i: int| 0 <= i < front.len() && front[i] == earlier[j];
                assert(samples[i] == kept[j]);
            } else {
                assert(samples[samples.len() - 1] == kept[j]);
            }
        }
        assert forall|i: int|
            0 <= i < samples.len() && in_window(
                (#[trigger] samples[i]).timestamp,
                now,
                window_seconds,
            ) implies kept.contains(samples[i]) by {
            if i < front.len() {
                assert(front[i] == samples[i]);
                assert(earlier.contains(front[i]));
                let j = choose|j: int| 0 <= j < earlier.len() && earlier[j] == front[i];
                assert(kept[j] == samples[i]);
            } else {
                assert(kept[earlier.len() as int] == samples[i]);
            }
        }
    }
}

/// The prepared samples are the samples of the window, each as often as the
/// window holds it, in ascending order of time.
pub proof fn lemma_prepared_samples(samples: Seq<TickSample>, now: i64, window_seconds: i64)
    requires
        samples.len() <= usize::MAX,
    ensures
        prepared_samples(samples, now, window_seconds).len() == windowed(
            samples,
            now,
            window_seconds,
        ).len(),
        forall|a: int, b: int|
            0 <= a < b < prepared_samples(samples, now, window_seconds).len() ==> (
            #[trigger] prepared_samples(samples, now, window_seconds)[a]).timestamp <= (
            #[trigger] prepared_samples(samples, now, window_seconds)[b]).timestamp,
        forall|j: int|
            0 <= j < prepared_samples(samples, now, window_seconds).len() ==> in_window(
                (#[trigger] prepared_samples(samples, now, window_seconds)[j]).timestamp,
                now,
                window_seconds,
            ) && samples.contains(prepared_samples(samples, now, window_seconds)[j]),
        forall|i: int|
            0 <= i < samples.len() && in_window(
                (#[trigger] samples[i]).timestamp,
                now,
                window_seconds,
            ) ==> prepared_samples(samples, now, window_seconds).contains(samples[i]),
{
    let kept = windowed(samples, now, window_seconds);
    let times = timestamps(kept);
    let order = stable_order(times);
    let prepared = prepared_samples(samples, now, window_seconds);
    lemma_windowed_samples(samples, now, window_seconds);
    lemma_stable_order_sorts(times);
    assert forall|a: int, b: int| 0 <= a < b < prepared.len() implies (
    #[trigger] prepared[a]).timestamp <= (#[trigger] prepared[b]).timestamp by {
        assert(precedes(times, order[a], order[b]));
    }
    assert forall|j: int| 0 <= j < prepared.len() implies in_window(
        (#[trigger] prepared[j]).timestamp,
        now,
        window_seconds,
    ) && samples.contains(prepared[j]) by {
        assert(order[j] < kept.len());
        assert(prepared[j] == kept[order[j] as int]);
    }
    assert forall|i: int|
        0 <= i < samples.len() && in_window(
            (#[trigger] samples[i]).timestamp,
            now,
            window_seconds,
        ) implies prepared.contains(samples[i]) by {
        assert(kept.contains(samples[i]));
        let k = choose|k: int| 0 <= k < kept.len() && kept[k] == samples[i];
        assert(order.contains(k as usize));
        let j = choose|j: int| 0 <= j < order.len() && order[j] == k as usize;
        assert(prepared[j] == samples[i]);
    }
}

/// The rate of a valid pair is stated without loss: its numerator over its
/// denominator is the growth in ticks over the seconds that passed. Its
/// millionths are that quotient rounded down, and never above
/// `MAX_PAIR_RATE`.
pub proof fn lemma_pair_rate_is_exact(earlier: TickSample, later: TickSample)
    requires
        later.ticks >= earlier.ticks,
        later.timestamp > earlier.timestamp,
    ensures
        pair_is_valid(earlier, later),
        exact_pair_rate(earlier, later).numerator == (later.ticks - earlier.ticks) * 1000,
        exact_pair_rate(earlier, later).denominator == later.timestamp - earlier.timestamp,
        exact_pair_rate(earlier, later).millionths == pair_rate(earlier, later),
        rate_between(earlier, later).rate == exact_pair_rate(earlier, later),
        exact_pair_rate(earlier, later).wf(),
        pair_rate(earlier, later) * (later.timestamp - earlier.timestamp) <= (later.ticks
            - earlier.ticks) * PER_SECOND,
        (later.ticks - earlier.ticks) * PER_SECOND < (pair_rate(earlier, later) + 1) * (
        later.timestamp - earlier.timestamp),
        0 <= pair_rate(earlier, later) <= MAX_PAIR_RATE,
{
    let grown = (later.ticks - earlier.ticks) * PER_SECOND;
    let passed = later.timestamp - earlier.timestamp;
    assert(0 <= grown <= MAX_PAIR_RATE);
    assert(((later.ticks - earlier.ticks) * 1000) * 1_000_000 == grown);
    assert((grown / passed) * passed <= grown < (grown / passed + 1) * passed && 0 <= grown
        / passed <= grown) by (nonlinear_arith)
        requires
            grown >= 0,
            passed > 0,
    ;
}

/// Where the time between the samples divides the growth, the rate is the
/// quotient itself.
pub proof fn lemma_pair_rate_of_whole_quotient(earlier: TickSample, later: TickSample, rate: int)
    requires
        later.ticks >= earlier.ticks,
        later.timestamp > earlier.timestamp,
        rate * (later.timestamp - earlier.timestamp) == (later.ticks - earlier.ticks) * PER_SECOND,
    ensures
        pair_rate(earlier, later) == rate,
{
    let grown = (later.ticks - earlier.ticks) * PER_SECOND;
    let passed = later.timestamp - earlier.timestamp;
    assert(grown / passed == rate) by (nonlinear_arith)
        requires
            rate * passed == grown,
            passed > 0,
    ;
}

/// Whether the neighbours at `k` and `k + 1` are the last pair of a stream
/// that gives a rate.
pub open spec fn is_latest_valid_pair(stream: Seq<TickSample>, k: int) -> bool {
    &&& 0 <= k < stream.len() - 1
    &&& pair_is_valid(stream[k], stream[k + 1])
    &&& forall|j: int|
        k < j < stream.len() - 1 ==> !pair_is_valid(stream[j], #[trigger] stream[j + 1])
}

/// The pair that gives a stream its rate is a pair of neighbours that gives
/// a rate, and no later pair of neighbours does; a stream has no rate only
/// if none of its pairs of neighbours gives one.
pub proof fn lemma_latest_valid_pair(stream: Seq<TickSample>)
    ensures
        match latest_valid_pair(stream) {
            Some((earlier, later)) => exists|k: int|
                #![trigger stream[k]]
                is_latest_valid_pair(stream, k) && earlier == stream[k] && later == stream[k + 1],
            None => forall|j: int|
                0 <= j < stream.len() - 1 ==> !pair_is_valid(stream[j], #[trigger] stream[j + 1]),
        },
    decreases stream.len(),
{
    if stream.len() >= 2 {
        let n = stream.len();
        if pair_is_valid(stream[n - 2], stream[n - 1]) {
            assert(is_latest_valid_pair(stream, n - 2));
        } else {
            let front = stream.drop_last();
            lemma_latest_valid_pair(front);
            match latest_valid_pair(front) {
                Some((earlier, later)) => {
                    let k = choose|k: int|
                        #![trigger front[k]]
                        is_latest_valid_pair(front, k) && earlier == front[k] && later == front[k
                            + 1];
                    assert(stream[k] == front[k] && stream[k + 1] == front[k + 1]);
                    assert forall|j: int| k < j < stream.len() - 1 implies !pair_is_valid(
                        stream[j],
                        #[trigger] stream[j + 1],
                    ) by {
                        if j < front.len() - 1 {
                            assert(front[j + 1] == stream[j + 1]);
                            assert(front[j] == stream[j]);
                        }
                    }
                    assert(is_latest_valid_pair(stream, k));
                },
                None => {
                    assert forall|j: int| 0 <= j < stream.len() - 1 implies !pair_is_valid(
                        stream[j],
                        #[trigger] stream[j + 1],
                    ) by {
                        if j < front.len() - 1 {
                            assert(front[j + 1] == stream[j + 1]);
                            assert(front[j] == stream[j]);
                        }
                    }
                },
            }
        }
    }
}

/// The rate of a partition is one that a pair of samples can give.
pub proof fn lemma_partition_rate_is_valid(
    prepared: Seq<TickSample>,
    counter: TickCounter,
    core_id: i32,
)
    requires
        partition_rate(prepared, counter, core_id) is Some,
    ensures
        partition_rate(prepared, counter, core_id)->Some_0.rate.wf(),
{
    let s = stream(prepared, counter, core_id);
    lemma_latest_valid_pair(s);
    let pair = latest_valid_pair(s)->Some_0;
    lemma_pair_rate_is_exact(pair.0, pair.1);
}

/// A pair whose counter has gone back gives no rate, and a partition that
/// consists of such a pair alone has none.
pub proof fn lemma_reset_gives_no_rate(earlier: TickSample, later: TickSample)
    requires
        later.ticks < earlier.ticks,
        earlier.counter == later.counter,
        earlier.core_id == later.core_id,
    ensures
        !pair_is_valid(earlier, later),
        partition_rate(seq![earlier, later], later.counter, later.core_id) is None,
{
    let both = seq![earlier, later];
    let one = seq![earlier];
    assert(both.drop_last() =~= one);
    assert(one.drop_last() =~= Seq::<TickSample>::empty());
    assert(stream(one.drop_last(), later.counter, later.core_id) =~= Seq::<TickSample>::empty());
    assert(one.last() == earlier);
    assert(stream(one, later.counter, later.core_id) =~= one);
    assert(both.last() == later);
    assert(stream(both, later.counter, later.core_id) =~= both);
    assert(latest_valid_pair(one) is None);
}

/// Two samples of one instant give no rate.
pub proof fn lemma_same_instant_gives_no_rate(earlier: TickSample, later: TickSample)
    requires
        later.timestamp == earlier.timestamp,
    ensures
        !pair_is_valid(earlier, later),
{
}

/// A partition with fewer than two samples has no rate.
pub proof fn lemma_sparse_partition_has_no_rate(
    prepared: Seq<TickSample>,
    counter: TickCounter,
    core_id: i32,
)
    requires
        stream(prepared, counter, core_id).len() < 2,
    ensures
        partition_rate(prepared, counter, core_id) is None,
{
}

/// Every sample of a stream is a sample of its partition taken from the list.
pub proof fn lemma_stream_members(
    samples: Seq<TickSample>,
    counter: TickCounter,
    core_id: i32,
    k: int,
)
    requires
        0 <= k < stream(samples, counter, core_id).len(),
    ensures
        in_partition(stream(samples, counter, core_id)[k], counter, core_id),
        samples.contains(stream(samples, counter, core_id)[k]),
    decreases samples.len(),
{
    let earlier = stream(samples.drop_last(), counter, core_id);
    if k < earlier.len() {
        lemma_stream_members(samples.drop_last(), counter, core_id, k);
        let i = choose|i: int|
            0 <= i < samples.drop_last().len() && samples.drop_last()[i] == earlier[k];
        assert(samples[i] == earlier[k]);
    } else {
        assert(samples[samples.len() - 1] == samples.last());
    }
}

/// The rate between two successive samples of a partition, if they give
/// one: none where no time has passed or the counter has gone back.
pub fn rate_of_pair(earlier: &TickSample, later: &TickSample) -> (rate: Option<PartitionRate>)
    ensures
        rate == (if pair_is_valid(*earlier, *later) {
            Some(rate_between(*earlier, *later))
        } else {
            None
        }),
        rate is Some ==> rate->Some_0.rate.millionths <= MAX_PAIR_RATE,
{
    if later.timestamp <= earlier.timestamp || later.ticks < earlier.ticks {
        return None;
    }
    proof {
        lemma_pair_rate_is_exact(*earlier, *later);
    }
    let grown: u128 = (later.ticks as i128 - earlier.ticks as i128) as u128;
    let passed: u128 = (later.timestamp as i128 - earlier.timestamp as i128) as u128;
    Some(
        PartitionRate {
            counter: later.counter,
            core_id: later.core_id,
            core_type: later.core_type,
            cluster_id: later.cluster_id,
            rate: Rate {
                numerator: grown * 1000,
                denominator: passed as u64,
                millionths: grown * PER_SECOND / passed,
            },
            computed_at: later.timestamp,
        },
    )
}

/// The most recent rate of one counter of one core.
pub fn rate_of_partition(prepared: &Vec<TickSample>, counter: TickCounter, core_id: i32) -> (rate:
    Option<PartitionRate>)
    ensures
        rate == partition_rate(prepared@, counter, core_id),
        rate is Some ==> rate->Some_0.rate.millionths <= MAX_PAIR_RATE,
        rate is Some ==> rate->Some_0.counter == counter && rate->Some_0.core_id == core_id,
{
    let n = prepared.len();
    let mut previous: Option<TickSample> = None;
    let mut latest: Option<PartitionRate> = None;
    let mut i: usize = 0;
    while i < n
        invariant
            i <= n,
            n == prepared@.len(),
            previous == last_of(stream(prepared@.take(i as int), counter, core_id)),
            previous is Some ==> in_partition(previous->Some_0, counter, core_id),
            latest == partition_rate(prepared@.take(i as int), counter, core_id),
            latest is Some ==> latest->Some_0.rate.millionths <= MAX_PAIR_RATE,
            latest is Some ==> latest->Some_0.counter == counter && latest->Some_0.core_id
                == core_id,
        decreases n - i,
    {
        let sample = prepared[i];
        let ghost before = stream(prepared@.take(i as int), counter, core_id);
        assert(prepared@.take(i + 1).drop_last() =~= prepared@.take(i as int));
        if sample.counter == counter && sample.core_id == core_id {
            assert(before.push(sample).drop_last() =~= before);
            match previous {
                Some(earlier) => match rate_of_pair(&earlier, &sample) {
                    Some(rate) => {
                        latest = Some(rate);
                    },
                    None => {},
                },
                None => {},
            }
            previous = Some(sample);
        }
        i = i + 1;
    }
    assert(prepared@.take(n as int) =~= prepared@);
    latest
}

/// Keeps the samples of the window and puts them in time order.
pub fn prepare(samples: &Vec<TickSample>, now: i64, window_seconds: i64) -> (prepared: Vec<
    TickSample,
>)
    ensures
        prepared@ == prepared_samples(samples@, now, window_seconds),
{
    let n = samples.len();
    let opens: i128 = now as i128 - (window_seconds as i128) * 1000;
    let mut kept: Vec<TickSample> = Vec::new();
    let mut times: Vec<i64> = Vec::new();
    let mut i: usize = 0;
    while i < n
        invariant
            i <= n,
            n == samples@.len(),
            opens == window_opens(now, window_seconds),
            kept@ == windowed(samples@.take(i as int), now, window_seconds),
            times@ =~= timestamps(kept@),
        decreases n - i,
    {
        assert(samples@.take(i + 1).drop_last() =~= samples@.take(i as int));
        let sample = samples[i];
        if opens < sample.timestamp as i128 && sample.timestamp <= now {
            kept.push(sample);
            times.push(sample.timestamp);
        }
        i = i + 1;
    }
    assert(samples@.take(n as int) =~= samples@);
    let order = stable_order_of(&times);
    let m = kept.len();
    let mut prepared: Vec<TickSample> = Vec::new();
    let mut j: usize = 0;
    while j < m
        invariant
            j <= m,
            m == kept@.len(),
            order@ == stable_order(timestamps(kept@)),
            order@.len() == m,
            forall|k: int| 0 <= k < order@.len() ==> (#[trigger] order@[k]) < m,
            prepared@ =~= time_ordered(kept@).take(j as int),
        decreases m - j,
    {
        prepared.push(kept[order[j]]);
        j = j + 1;
    }
    assert(time_ordered(kept@).take(m as int) =~= time_ordered(kept@));
    prepared
}

/// The cores of the samples, in the order of the samples.
pub open spec fn core_keys(samples: Seq<TickSample>) -> Seq<i32> {
    Seq::new(samples.len(), |i: int| samples[i].core_id)
}

/// Whether `ids` lists the cores of the samples, each once, in ascending
/// order.
pub open spec fn lists_cores(ids: Seq<i32>, samples: Seq<TickSample>) -> bool {
    lists_distinct(ids, core_keys(samples))
}

/// Whether the partition of `a` comes before that of `b`: by core, then by
/// counter.
pub open spec fn partition_precedes(a: PartitionRate, b: PartitionRate) -> bool {
    a.core_id < b.core_id || (a.core_id == b.core_id && counter_rank(a.counter) < counter_rank(
        b.counter,
    ))
}

/// Whether `rates` holds the rate of every partition that has one, each once,
/// in ascending order of partition.
pub open spec fn is_partition_rates(rates: Seq<PartitionRate>, prepared: Seq<TickSample>) -> bool {
    &&& forall|j: int|
        0 <= j < rates.len() ==> partition_rate(
            prepared,
            (#[trigger] rates[j]).counter,
            rates[j].core_id,
        ) == Some(rates[j])
    &&& forall|a: int, b: int|
        0 <= a < b < rates.len() ==> partition_precedes(#[trigger] rates[a], #[trigger] rates[b])
    &&& forall|counter: TickCounter, core_id: i32|
        (#[trigger] partition_rate(prepared, counter, core_id)) is Some ==> exists|j: int|
            0 <= j < rates.len() && (#[trigger] rates[j]).counter == counter && rates[j].core_id
                == core_id
}

/// Every rate in the list of partition rates is one that a pair of samples
/// can give.
pub proof fn lemma_partition_rates_are_valid(rates: Seq<PartitionRate>, prepared: Seq<TickSample>)
    requires
        is_partition_rates(rates, prepared),
    ensures
        forall|j: int| 0 <= j < rates.len() ==> (#[trigger] rates[j]).rate.wf(),
{
    assert forall|j: int| 0 <= j < rates.len() implies (#[trigger] rates[j]).rate.wf() by {
        lemma_partition_rate_is_valid(prepared, rates[j].counter, rates[j].core_id);
    }
}

/// The place of a partition in the order of partitions, as a number.
pub open spec fn partition_number(rate: PartitionRate) -> int {
    rate.core_id * 4 + counter_rank(rate.counter)
}

/// The samples decide the list of partition rates: two lists that both hold
/// the rate of every partition that has one, in ascending order, are the
/// same list.
pub proof fn lemma_partition_rates_are_unique(
    first: Seq<PartitionRate>,
    second: Seq<PartitionRate>,
    prepared: Seq<TickSample>,
)
    requires
        is_partition_rates(first, prepared),
        is_partition_rates(second, prepared),
    ensures
        first == second,
{
    let a = Seq::new(first.len(), |i: int| partition_number(first[i]));
    let b = Seq::new(second.len(), |i: int| partition_number(second[i]));
    assert(ascends(a)) by {
        assert forall|i: int, j: int| 0 <= i < j < a.len() implies a[i] < a[j] by {
            assert(partition_precedes(first[i], first[j]));
        }
    }
    assert(ascends(b)) by {
        assert forall|i: int, j: int| 0 <= i < j < b.len() implies b[i] < b[j] by {
            assert(partition_precedes(second[i], second[j]));
        }
    }
    assert forall|x: int| a.contains(x) <==> b.contains(x) by {
        if a.contains(x) {
            let i = choose|i: int| 0 <= i < a.len() && a[i] == x;
            assert(partition_rate(prepared, first[i].counter, first[i].core_id) is Some);
            let j = choose|j: int|
                0 <= j < second.len() && (#[trigger] second[j]).counter == first[i].counter
                    && second[j].core_id == first[i].core_id;
            assert(b[j] == x);
        }
        if b.contains(x) {
            let j = choose|j: int| 0 <= j < b.len() && b[j] == x;
            assert(partition_rate(prepared, second[j].counter, second[j].core_id) is Some);
            let i = choose|i: int|
                0 <= i < first.len() && (#[trigger] first[i]).counter == second[j].counter
                    && first[i].core_id == second[j].core_id;
            assert(a[i] == x);
        }
    }
    lemma_ascending_lists_agree(a, b);
    assert(first.len() == a.len() && second.len() == b.len());
    assert forall|i: int| 0 <= i < first.len() implies first[i] == second[i] by {
        assert(a[i] == b[i]);
        assert(first[i].core_id == second[i].core_id && first[i].counter == second[i].counter);
        assert(partition_rate(prepared, first[i].counter, first[i].core_id) == Some(first[i]));
        assert(partition_rate(prepared, second[i].counter, second[i].core_id) == Some(second[i]));
    }
    assert(first =~= second);
}

/// A partition with a rate has a sample, so its core is among the samples.
pub proof fn lemma_rate_needs_samples(
    prepared: Seq<TickSample>,
    counter: TickCounter,
    core_id: i32,
)
    requires
        partition_rate(prepared, counter, core_id) is Some,
    ensures
        core_keys(prepared).contains(core_id),
{
    let s = stream(prepared, counter, core_id);
    assert(s.len() >= 2);
    lemma_stream_members(prepared, counter, core_id, 0);
    let i = choose|i: int| 0 <= i < prepared.len() && prepared[i] == s[0];
    assert(prepared[i].core_id == core_id);
    assert(core_keys(prepared)[i] == core_id);
}

/// The cores of the samples, each once, ascending.
pub fn core_ids(samples: &Vec<TickSample>) -> (ids: Vec<i32>)
    ensures
        lists_cores(ids@, samples@),
{
    let n = samples.len();
    let mut keys: Vec<i32> = Vec::new();
    let mut i: usize = 0;
    while i < n
        invariant
            i <= n,
            n == samples@.len(),
            keys@ =~= core_keys(samples@).take(i as int),
        decreases n - i,
    {
        keys.push(samples[i].core_id);
        i = i + 1;
    }
    assert(core_keys(samples@).take(n as int) =~= core_keys(samples@));
    distinct_ascending(&keys)
}

/// Appends the rate of one partition to `rates`, if it has one.
fn append_rate(
    rates: &mut Vec<PartitionRate>,
    prepared: &Vec<TickSample>,
    counter: TickCounter,
    core_id: i32,
)
    ensures
        final(rates)@ == match partition_rate(prepared@, counter, core_id) {
            Some(rate) => old(rates)@.push(rate),
            None => old(rates)@,
        },
        forall|j: int|
            old(rates)@.len() <= j < final(rates)@.len() ==> (#[trigger] final(rates)@[j]).counter
                == counter && final(rates)@[j].core_id == core_id,
{
    match rate_of_partition(prepared, counter, core_id) {
        Some(rate) => {
            rates.push(rate);
        },
        None => {},
    }
}

/// The most recent rate of every partition that has one, in ascending order
/// of core and, within a core, in the order user, system, nice, idle.
pub fn partition_rates(prepared: &Vec<TickSample>) -> (rates: Vec<PartitionRate>)
    ensures
        is_partition_rates(rates@, prepared@),
{
    let ids = core_ids(prepared);
    let mut rates: Vec<PartitionRate> = Vec::new();
    let mut k: usize = 0;
    while k < ids.len()
        invariant
            k <= ids@.len(),
            lists_cores(ids@, prepared@),
            forall|j: int|
                0 <= j < rates@.len() ==> partition_rate(
                    prepared@,
                    (#[trigger] rates@[j]).counter,
                    rates@[j].core_id,
                ) == Some(rates@[j]),
            forall|a: int, b: int|
                0 <= a < b < rates@.len() ==> partition_precedes(
                    #[trigger] rates@[a],
                    #[trigger] rates@[b],
                ),
            forall|j: int|
                0 <= j < rates@.len() && k < ids@.len() ==> (#[trigger] rates@[j]).core_id
                    < ids@[k as int],
            forall|m: int, counter: TickCounter|
                0 <= m < k && (#[trigger] partition_rate(prepared@, counter, ids@[m])) is Some
                    ==> exists|j: int|
                    0 <= j < rates@.len() && (#[trigger] rates@[j]).counter == counter
                        && rates@[j].core_id == ids@[m],
        decreases ids@.len() - k,
    {
        let id = ids[k];
        let ghost before = rates@;
        append_rate(&mut rates, prepared, TickCounter::User, id);
        let ghost with_user = rates@;
        append_rate(&mut rates, prepared, TickCounter::System, id);
        let ghost with_system = rates@;
        append_rate(&mut rates, prepared, TickCounter::Nice, id);
        let ghost with_nice = rates@;
        append_rate(&mut rates, prepared, TickCounter::Idle, id);
        proof {
            assert forall|m: int, counter: TickCounter|
                0 <= m < k + 1 && (#[trigger] partition_rate(
                    prepared@,
                    counter,
                    ids@[m],
                )) is Some implies exists|j: int|
                0 <= j < rates@.len() && (#[trigger] rates@[j]).counter == counter
                    && rates@[j].core_id == ids@[m] by {
                if m < k {
                    let j = choose|j: int|
                        0 <= j < before.len() && (#[trigger] before[j]).counter == counter
                            && before[j].core_id == ids@[m];
                    assert(rates@[j] == before[j]);
                } else {
                    match counter {
                        TickCounter::User => {
                            assert(rates@[before.len() as int] == with_user[before.len() as int]);
                        },
                        TickCounter::System => {
                            assert(rates@[with_user.len() as int] == with_system[with_user.len() as int]);
                        },
                        TickCounter::Nice => {
                            assert(rates@[with_system.len() as int] == with_nice[with_system.len() as int]);
                        },
                        TickCounter::Idle => {
                            assert(rates@[with_nice.len() as int].counter == TickCounter::Idle);
                        },
                    }
                }
            }
        }
        k = k + 1;
    }
    proof {
        assert forall|counter: TickCounter, core_id: i32|
            (#[trigger] partition_rate(prepared@, counter, core_id)) is Some implies exists|
            j: int,
        |
            0 <= j < rates@.len() && (#[trigger] rates@[j]).counter == counter && rates@[j].core_id
                == core_id by {
            lemma_rate_needs_samples(prepared@, counter, core_id);
            let i = choose|i: int|
                0 <= i < prepared@.len() && core_keys(prepared@)[i] == core_id;
            assert(ids@.contains(core_keys(prepared@)[i]));
            let m = choose|m: int| 0 <= m < ids@.len() && ids@[m] == core_id;
            assert(partition_rate(prepared@, counter, ids@[m]) is Some);
        }
    }
    rates
}

} // verus!
