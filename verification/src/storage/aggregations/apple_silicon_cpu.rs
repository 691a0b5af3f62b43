//! Utilization of the cores: one row per core, one per kind of core and one
//! per cluster.
//!
//! A row combines the most recent rates of the four counters of a core. A
//! counter without a rate counts as 0 in the row; a core none of whose
//! counters has a rate has no row. The cores of a kind, and those of each of
//! its clusters, are then summed, the three working counters on one side and
//! the idle counter on the other.
//!
//! A sum of rates is kept to ninety binary places: each rate enters rounded
//! down by less than a part in a thousand million of itself, and so does the
//! sum fall short of the sum of the quotients. A utilization is the share of
//! one such sum in another, stated as the two sums. Beside that, a sum is
//! given in millionths of a tick per second; a sum of more than `RATE_LIMIT`
//! millionths is refused.

use vstd::prelude::*;
use vstd::string::*;
use crate::collectors::types::{CoreType, Metric};
use crate::decimal::{decimal_value_within, parse_i64};
use crate::fixed::RATE_LIMIT;
use crate::order::{ascends, distinct_ascending, lemma_ascending_lists_agree, lists_distinct};
use crate::storage::aggregations::rates::{
    core_ids, core_keys, is_active, is_partition_rates, lemma_rate_needs_samples, lists_cores,
    lemma_partition_rate_is_valid, lemma_partition_rates_are_valid, no_rate, partition_rate,
    partition_rates, prepare, prepared_samples, rate_of_partition, PartitionRate, Rate,
    TickCounter, TickSample, UtilizationWindow, DEFAULT_WINDOW_SECONDS,
};
use crate::storage::aggregations::samples::{tick_samples, tick_samples_of};
use crate::storage::aggregations::{
    Aggregation, AggregationData, AggregationFailure, AggregationResult,
};
use crate::text::{find_value, value_of};
use crate::utilization::{share_of_sums, utilization_of_sums, Share};
use crate::wide::{
    lemma_terms_fit, lemma_wide_of_value, max_term, quotient_to_places, wide_of, wide_quotient,
    Wide,
};

verus! {

/// A sum of rates: to ninety binary places, each rate entering rounded down
/// to that many places, and in millionths of a tick per second, each rate
/// entering rounded down to a millionth.
#[derive(Debug, Clone, Copy, PartialEq, Eq)]
pub struct RateSum {
    /// The sum in steps of two to the minus ninetieth of a tick per second.
    pub wide: Wide,
    /// The sum in millionths of a tick per second.
    pub millionths: u128,
}

/// The rates of one core.
#[derive(Debug, Clone, Copy, PartialEq, Eq)]
pub struct CPURate {
    pub core_id: i32,
    pub core_type: CoreType,
    pub cluster_id: Option<i32>,
    pub user_rate: Rate,
    pub system_rate: Rate,
    pub nice_rate: Rate,
    pub idle_rate: Rate,
    /// The sum of the user, system and nice rates.
    pub total_active_rate: RateSum,
    /// The share of the active sum in the sum of all four rates, both to
    /// ninety binary places; a hundred times the share is the utilization
    /// in percent.
    pub utilization_percent: Share,
}

/// The summed rates of the cores of one kind, or of one cluster of a kind.
#[derive(Debug, Clone, Copy, PartialEq, Eq)]
pub struct ClusterAggregate {
    pub core_type: CoreType,
    /// The cluster that was summed; `None` for all cores of the kind.
    pub cluster_id: Option<i32>,
    /// How many different cores have a rate for a working counter.
    pub core_count: usize,
    /// The share of the active sum in both sums together, both to ninety
    /// binary places; a hundred times the share is the utilization in
    /// percent.
    pub avg_utilization: Share,
    /// The rates of the working counters, summed.
    pub total_active_ticks: RateSum,
    /// The rates of the idle counters, summed.
    pub total_idle_ticks: RateSum,
}

/// A class whose rates add up to more than `RATE_LIMIT` millionths: a kind
/// of core, or one cluster of a kind.
#[derive(Debug, Clone, Copy, PartialEq, Eq)]
pub struct SumOutOfRange {
    pub core_type: CoreType,
    pub cluster_id: Option<i32>,
}

/// The rate of a partition in millionths, 0 if it has none.
pub open spec fn rate_or_zero(rate: Option<PartitionRate>) -> int {
    match rate {
        Some(r) => r.rate.millionths as int,
        None => 0,
    }
}

/// A rate to ninety binary places, rounded down.
pub open spec fn wide_rate(rate: Rate) -> int {
    wide_quotient(rate.numerator as int, rate.denominator as int)
}

/// A sum of rates, given to ninety binary places and in millionths.
pub open spec fn rate_sum(wide: int, millionths: int) -> RateSum {
    RateSum { wide: wide_of(wide), millionths: millionths as u128 }
}

/// The rate of a partition without loss, 0 over 1 if it has none.
pub open spec fn rate_or_none(rate: Option<PartitionRate>) -> Rate {
    match rate {
        Some(r) => r.rate,
        None => no_rate(),
    }
}

/// The first of four rates that is there.
pub open spec fn first_present(
    user: Option<PartitionRate>,
    system: Option<PartitionRate>,
    nice: Option<PartitionRate>,
    idle: Option<PartitionRate>,
) -> Option<PartitionRate> {
    if user is Some {
        user
    } else if system is Some {
        system
    } else if nice is Some {
        nice
    } else {
        idle
    }
}

/// The row of a core: its four rates, their active sum and the utilization,
/// classified as the first counter that has a rate. A core without any rate
/// has no row.
pub open spec fn core_rate_of(prepared: Seq<TickSample>, core_id: i32) -> Option<CPURate> {
    let user = partition_rate(prepared, TickCounter::User, core_id);
    let system = partition_rate(prepared, TickCounter::System, core_id);
    let nice = partition_rate(prepared, TickCounter::Nice, core_id);
    let idle = partition_rate(prepared, TickCounter::Idle, core_id);
    match first_present(user, system, nice, idle) {
        None => None,
        Some(first) => {
            let active = rate_or_zero(user) + rate_or_zero(system) + rate_or_zero(nice);
            let wide_active = wide_rate(rate_or_none(user)) + wide_rate(rate_or_none(system))
                + wide_rate(rate_or_none(nice));
            Some(
                CPURate {
                    core_id,
                    core_type: first.core_type,
                    cluster_id: first.cluster_id,
                    user_rate: rate_or_none(user),
                    system_rate: rate_or_none(system),
                    nice_rate: rate_or_none(nice),
                    idle_rate: rate_or_none(idle),
                    total_active_rate: rate_sum(wide_active, active),
                    utilization_percent: share_of_sums(
                        wide_active,
                        wide_rate(rate_or_none(idle)),
                    ),
                },
            )
        },
    }
}

/// Whether `rows` holds the row of every core that has one, each once, in
/// ascending order of core.
pub open spec fn is_per_core_rates(rows: Seq<CPURate>, prepared: Seq<TickSample>) -> bool {
    &&& forall|j: int|
        0 <= j < rows.len() ==> core_rate_of(prepared, (#[trigger] rows[j]).core_id) == Some(
            rows[j],
        )
    &&& forall|a: int, b: int|
        0 <= a < b < rows.len() ==> (#[trigger] rows[a]).core_id < (#[trigger] rows[b]).core_id
    &&& forall|core_id: i32|
        (#[trigger] core_rate_of(prepared, core_id)) is Some ==> exists|j: int|
            0 <= j < rows.len() && (#[trigger] rows[j]).core_id == core_id
}

/// The samples decide the rows of the cores: two lists that both hold the
/// row of every core that has one, in ascending order, are the same list.
pub proof fn lemma_per_core_rates_are_unique(
    first: Seq<CPURate>,
    second: Seq<CPURate>,
    prepared: Seq<TickSample>,
)
    requires
        is_per_core_rates(first, prepared),
        is_per_core_rates(second, prepared),
    ensures
        first == second,
{
    let a = Seq::new(first.len(), |i: int| first[i].core_id as int);
    let b = Seq::new(second.len(), |i: int| second[i].core_id as int);
    assert(ascends(a)) by {
        assert forall|i: int, j: int| 0 <= i < j < a.len() implies a[i] < a[j] by {
            assert(first[i].core_id < first[j].core_id);
        }
    }
    assert(ascends(b)) by {
        assert forall|i: int, j: int| 0 <= i < j < b.len() implies b[i] < b[j] by {
            assert(second[i].core_id < second[j].core_id);
        }
    }
    assert forall|x: int| a.contains(x) <==> b.contains(x) by {
        if a.contains(x) {
            let i = choose|i: int| 0 <= i < a.len() && a[i] == x;
            assert(core_rate_of(prepared, first[i].core_id) is Some);
            let j = choose|j: int|
                0 <= j < second.len() && (#[trigger] second[j]).core_id == first[i].core_id;
            assert(b[j] == x);
        }
        if b.contains(x) {
            let j = choose|j: int| 0 <= j < b.len() && b[j] == x;
            assert(core_rate_of(prepared, second[j].core_id) is Some);
            let i = choose|i: int|
                0 <= i < first.len() && (#[trigger] first[i]).core_id == second[j].core_id;
            assert(a[i] == x);
        }
    }
    lemma_ascending_lists_agree(a, b);
    assert(first.len() == a.len() && second.len() == b.len());
    assert forall|i: int| 0 <= i < first.len() implies first[i] == second[i] by {
        assert(a[i] == b[i]);
        assert(core_rate_of(prepared, first[i].core_id) == Some(first[i]));
        assert(core_rate_of(prepared, second[i].core_id) == Some(second[i]));
    }
    assert(first =~= second);
}

/// A core with a row has a sample.
proof fn lemma_row_needs_samples(prepared: Seq<TickSample>, core_id: i32)
    requires
        core_rate_of(prepared, core_id) is Some,
    ensures
        core_keys(prepared).contains(core_id),
{
    if partition_rate(prepared, TickCounter::User, core_id) is Some {
        lemma_rate_needs_samples(prepared, TickCounter::User, core_id);
    } else if partition_rate(prepared, TickCounter::System, core_id) is Some {
        lemma_rate_needs_samples(prepared, TickCounter::System, core_id);
    } else if partition_rate(prepared, TickCounter::Nice, core_id) is Some {
        lemma_rate_needs_samples(prepared, TickCounter::Nice, core_id);
    } else {
        lemma_rate_needs_samples(prepared, TickCounter::Idle, core_id);
    }
}

/// The row of one core, if any of its counters has a rate.
pub fn core_rate(prepared: &Vec<TickSample>, core_id: i32) -> (row: Option<CPURate>)
    ensures
        row == core_rate_of(prepared@, core_id),
{
    let user = rate_of_partition(prepared, TickCounter::User, core_id);
    let system = rate_of_partition(prepared, TickCounter::System, core_id);
    let nice = rate_of_partition(prepared, TickCounter::Nice, core_id);
    let idle = rate_of_partition(prepared, TickCounter::Idle, core_id);
    let first = if user.is_some() {
        user
    } else if system.is_some() {
        system
    } else if nice.is_some() {
        nice
    } else {
        idle
    };
    match first {
        None => None,
        Some(first) => {
            let none = Rate { numerator: 0, denominator: 1, millionths: 0 };
            let user_rate: Rate = match user {
                Some(r) => r.rate,
                None => none,
            };
            let system_rate: Rate = match system {
                Some(r) => r.rate,
                None => none,
            };
            let nice_rate: Rate = match nice {
                Some(r) => r.rate,
                None => none,
            };
            let idle_rate: Rate = match idle {
                Some(r) => r.rate,
                None => none,
            };
            proof {
                if user is Some {
                    lemma_partition_rate_is_valid(prepared@, TickCounter::User, core_id);
                }
                if system is Some {
                    lemma_partition_rate_is_valid(prepared@, TickCounter::System, core_id);
                }
                if nice is Some {
                    lemma_partition_rate_is_valid(prepared@, TickCounter::Nice, core_id);
                }
                if idle is Some {
                    lemma_partition_rate_is_valid(prepared@, TickCounter::Idle, core_id);
                }
                lemma_terms_fit(4);
            }
            let active: u128 = user_rate.millionths + system_rate.millionths
                + nice_rate.millionths;
            let wide_user = quotient_to_places(user_rate.numerator, user_rate.denominator);
            let wide_system = quotient_to_places(system_rate.numerator, system_rate.denominator);
            let wide_nice = quotient_to_places(nice_rate.numerator, nice_rate.denominator);
            let wide_idle = quotient_to_places(idle_rate.numerator, idle_rate.denominator);
            let wide_active = wide_user.plus(&wide_system).plus(&wide_nice);
            let share = utilization_of_sums(&wide_active, &wide_idle);
            proof {
                lemma_wide_of_value(wide_active);
            }
            Some(
                CPURate {
                    core_id,
                    core_type: first.core_type,
                    cluster_id: first.cluster_id,
                    user_rate,
                    system_rate,
                    nice_rate,
                    idle_rate,
                    total_active_rate: RateSum { wide: wide_active, millionths: active },
                    utilization_percent: share,
                },
            )
        },
    }
}

/// The rows of all cores that have one, in ascending order of core.
pub fn per_core_rates(prepared: &Vec<TickSample>) -> (rows: Vec<CPURate>)
    ensures
        is_per_core_rates(rows@, prepared@),
{
    let ids = core_ids(prepared);
    let mut rows: Vec<CPURate> = Vec::new();
    let mut k: usize = 0;
    while k < ids.len()
        invariant
            k <= ids@.len(),
            lists_cores(ids@, prepared@),
            forall|j: int|
                0 <= j < rows@.len() ==> core_rate_of(prepared@, (#[trigger] rows@[j]).core_id)
                    == Some(rows@[j]),
            forall|a: int, b: int|
                0 <= a < b < rows@.len() ==> (#[trigger] rows@[a]).core_id < (
                #[trigger] rows@[b]).core_id,
            forall|j: int|
                0 <= j < rows@.len() && k < ids@.len() ==> (#[trigger] rows@[j]).core_id
                    < ids@[k as int],
            forall|m: int|
                0 <= m < k && core_rate_of(prepared@, #[trigger] ids@[m]) is Some ==> exists|
                    j: int,
                | 0 <= j < rows@.len() && (#[trigger] rows@[j]).core_id == ids@[m],
        decreases ids@.len() - k,
    {
        let id = ids[k];
        let ghost before = rows@;
        match core_rate(prepared, id) {
            Some(row) => {
                rows.push(row);
                proof {
                    assert(rows@[before.len() as int] == row);
                    assert forall|m: int|
                        0 <= m < k + 1 && core_rate_of(
                            prepared@,
                            #[trigger] ids@[m],
                        ) is Some implies exists|j: int|
                        0 <= j < rows@.len() && (#[trigger] rows@[j]).core_id == ids@[m] by {
                        if m < k {
                            let j = choose|j: int|
                                0 <= j < before.len() && (#[trigger] before[j]).core_id == ids@[m];
                            assert(rows@[j].core_id == ids@[m]);
                        } else {
                            assert(rows@[before.len() as int].core_id == ids@[m]);
                        }
                    }
                }
            },
            None => {},
        }
        k = k + 1;
    }
    proof {
        assert forall|core_id: i32| (#[trigger] core_rate_of(prepared@, core_id)) is Some implies exists|
            j: int,
        | 0 <= j < rows@.len() && (#[trigger] rows@[j]).core_id == core_id by {
            lemma_row_needs_samples(prepared@, core_id);
            let i = choose|i: int|
                0 <= i < prepared@.len() && core_keys(prepared@)[i] == core_id;
            assert(ids@.contains(core_keys(prepared@)[i]));
            let m = choose|m: int| 0 <= m < ids@.len() && ids@[m] == core_id;
            assert(core_rate_of(prepared@, ids@[m]) is Some);
        }
    }
    rows
}

/// Whether a rate belongs to a class: to a kind of core and, where a cluster
/// is named, to that cluster.
pub open spec fn in_class(rate: PartitionRate, core_type: CoreType, cluster_id: Option<i32>)
    -> bool {
    rate.core_type == core_type && (cluster_id is None || rate.cluster_id == cluster_id)
}

/// Whether a rate enters the active or the idle sum of a class.
pub open spec fn counts_toward(
    rate: PartitionRate,
    core_type: CoreType,
    cluster_id: Option<i32>,
    active: bool,
) -> bool {
    in_class(rate, core_type, cluster_id) && is_active(rate.counter) == active
}

/// The sum of the active rates, or of the idle rates, of a class, each rate
/// in millionths of a tick per second.
pub open spec fn class_total(
    rates: Seq<PartitionRate>,
    core_type: CoreType,
    cluster_id: Option<i32>,
    active: bool,
) -> int
    decreases rates.len(),
{
    if rates.len() == 0 {
        0
    } else if counts_toward(rates.last(), core_type, cluster_id, active) {
        class_total(rates.drop_last(), core_type, cluster_id, active)
            + rates.last().rate.millionths
    } else {
        class_total(rates.drop_last(), core_type, cluster_id, active)
    }
}

/// The sum of the active rates, or of the idle rates, of a class, each rate
/// to ninety binary places.
pub open spec fn class_wide_total(
    rates: Seq<PartitionRate>,
    core_type: CoreType,
    cluster_id: Option<i32>,
    active: bool,
) -> int
    decreases rates.len(),
{
    if rates.len() == 0 {
        0
    } else if counts_toward(rates.last(), core_type, cluster_id, active) {
        class_wide_total(rates.drop_last(), core_type, cluster_id, active) + wide_rate(
            rates.last().rate,
        )
    } else {
        class_wide_total(rates.drop_last(), core_type, cluster_id, active)
    }
}

/// Whether every rate of a list is one that a pair of samples can give.
pub open spec fn all_valid(rates: Seq<PartitionRate>) -> bool {
    forall|i: int| 0 <= i < rates.len() ==> (#[trigger] rates[i]).rate.wf()
}

/// The cores of a class that have a rate for a working counter.
pub open spec fn class_cores(
    rates: Seq<PartitionRate>,
    core_type: CoreType,
    cluster_id: Option<i32>,
) -> Set<i32>
    decreases rates.len(),
{
    if rates.len() == 0 {
        Set::empty()
    } else if counts_toward(rates.last(), core_type, cluster_id, true) {
        class_cores(rates.drop_last(), core_type, cluster_id).insert(rates.last().core_id)
    } else {
        class_cores(rates.drop_last(), core_type, cluster_id)
    }
}

/// Whether any rate belongs to a class.
pub open spec fn class_present(
    rates: Seq<PartitionRate>,
    core_type: CoreType,
    cluster_id: Option<i32>,
) -> bool {
    exists|i: int| 0 <= i < rates.len() && in_class(#[trigger] rates[i], core_type, cluster_id)
}

/// Whether both sums of a class are rates that the utilization calculator
/// accepts.
pub open spec fn class_in_range(
    rates: Seq<PartitionRate>,
    core_type: CoreType,
    cluster_id: Option<i32>,
) -> bool {
    class_total(rates, core_type, cluster_id, true) <= RATE_LIMIT && class_total(
        rates,
        core_type,
        cluster_id,
        false,
    ) <= RATE_LIMIT
}

/// The aggregate of a class.
pub open spec fn class_aggregate(
    rates: Seq<PartitionRate>,
    core_type: CoreType,
    cluster_id: Option<i32>,
) -> ClusterAggregate {
    ClusterAggregate {
        core_type,
        cluster_id,
        core_count: class_cores(rates, core_type, cluster_id).len() as usize,
        avg_utilization: share_of_sums(
            class_wide_total(rates, core_type, cluster_id, true),
            class_wide_total(rates, core_type, cluster_id, false),
        ),
        total_active_ticks: rate_sum(
            class_wide_total(rates, core_type, cluster_id, true),
            class_total(rates, core_type, cluster_id, true),
        ),
        total_idle_ticks: rate_sum(
            class_wide_total(rates, core_type, cluster_id, false),
            class_total(rates, core_type, cluster_id, false),
        ),
    }
}

/// The aggregate of a kind of core if any rate belongs to it.
pub open spec fn class_aggregate_if_present(rates: Seq<PartitionRate>, core_type: CoreType)
    -> Seq<ClusterAggregate> {
    if class_present(rates, core_type, None) {
        seq![class_aggregate(rates, core_type, None)]
    } else {
        Seq::empty()
    }
}

/// The aggregates of the kinds of core that occur, efficiency before
/// performance. Cores of unknown kind enter none.
pub open spec fn class_aggregates(rates: Seq<PartitionRate>) -> Seq<ClusterAggregate> {
    class_aggregate_if_present(rates, CoreType::Efficiency) + class_aggregate_if_present(
        rates,
        CoreType::Performance,
    )
}

/// Whether the sums of both kinds of core are in range.
pub open spec fn kinds_in_range(rates: Seq<PartitionRate>) -> bool {
    class_in_range(rates, CoreType::Efficiency, None) && class_in_range(
        rates,
        CoreType::Performance,
        None,
    )
}

/// The first kind of core whose sums are out of range, efficiency before
/// performance.
pub open spec fn kind_out_of_range(rates: Seq<PartitionRate>) -> Option<SumOutOfRange> {
    if !class_in_range(rates, CoreType::Efficiency, None) {
        Some(SumOutOfRange { core_type: CoreType::Efficiency, cluster_id: None })
    } else if !class_in_range(rates, CoreType::Performance, None) {
        Some(SumOutOfRange { core_type: CoreType::Performance, cluster_id: None })
    } else {
        None
    }
}

/// Whether a cluster of a kind of core is the first, in ascending order,
/// whose sums are out of range.
pub open spec fn is_first_cluster_out_of_range(
    rates: Seq<PartitionRate>,
    core_type: CoreType,
    cluster_id: i32,
) -> bool {
    &&& class_present(rates, core_type, Some(cluster_id))
    &&& !class_in_range(rates, core_type, Some(cluster_id))
    &&& forall|smaller: i32|
        smaller < cluster_id && #[trigger] class_present(rates, core_type, Some(smaller))
            ==> class_in_range(rates, core_type, Some(smaller))
}

/// The clusters that the rates of a kind of core name, in the order of the
/// rates.
pub open spec fn cluster_keys(rates: Seq<PartitionRate>, core_type: CoreType) -> Seq<i32>
    decreases rates.len(),
{
    if rates.len() == 0 {
        Seq::empty()
    } else {
        let earlier = cluster_keys(rates.drop_last(), core_type);
        if rates.last().core_type == core_type && rates.last().cluster_id is Some {
            earlier.push(rates.last().cluster_id->Some_0)
        } else {
            earlier
        }
    }
}

/// Whether `aggregates` holds the aggregate of every cluster of a kind of
/// core that has a rate, each once, in ascending order of cluster.
pub open spec fn is_per_cluster(
    aggregates: Seq<ClusterAggregate>,
    rates: Seq<PartitionRate>,
    core_type: CoreType,
) -> bool {
    &&& forall|j: int|
        0 <= j < aggregates.len() ==> (#[trigger] aggregates[j]).cluster_id is Some
            && class_present(rates, core_type, aggregates[j].cluster_id) && aggregates[j]
            == class_aggregate(rates, core_type, aggregates[j].cluster_id)
    &&& forall|a: int, b: int|
        0 <= a < b < aggregates.len() ==> (#[trigger] aggregates[a]).cluster_id->Some_0 < (
        #[trigger] aggregates[b]).cluster_id->Some_0
    &&& forall|cluster_id: i32| #[trigger]
        class_present(rates, core_type, Some(cluster_id)) ==> exists|j: int|
            0 <= j < aggregates.len() && (#[trigger] aggregates[j]).cluster_id == Some(cluster_id)
}

/// The rates decide the aggregates of the clusters: two lists that both hold
/// the aggregate of every cluster that has a rate, in ascending order, are
/// the same list.
pub proof fn lemma_per_cluster_is_unique(
    first: Seq<ClusterAggregate>,
    second: Seq<ClusterAggregate>,
    rates: Seq<PartitionRate>,
    core_type: CoreType,
)
    requires
        is_per_cluster(first, rates, core_type),
        is_per_cluster(second, rates, core_type),
    ensures
        first == second,
{
    let a = Seq::new(first.len(), |i: int| first[i].cluster_id->Some_0 as int);
    let b = Seq::new(second.len(), |i: int| second[i].cluster_id->Some_0 as int);
    assert(ascends(a)) by {
        assert forall|i: int, j: int| 0 <= i < j < a.len() implies a[i] < a[j] by {
            assert(first[i].cluster_id->Some_0 < first[j].cluster_id->Some_0);
        }
    }
    assert(ascends(b)) by {
        assert forall|i: int, j: int| 0 <= i < j < b.len() implies b[i] < b[j] by {
            assert(second[i].cluster_id->Some_0 < second[j].cluster_id->Some_0);
        }
    }
    assert forall|x: int| a.contains(x) <==> b.contains(x) by {
        if a.contains(x) {
            let i = choose|i: int| 0 <= i < a.len() && a[i] == x;
            let id = first[i].cluster_id->Some_0;
            assert(first[i].cluster_id == Some(id));
            assert(class_present(rates, core_type, Some(id)));
            let j = choose|j: int|
                0 <= j < second.len() && (#[trigger] second[j]).cluster_id == Some(id);
            assert(b[j] == x);
        }
        if b.contains(x) {
            let j = choose|j: int| 0 <= j < b.len() && b[j] == x;
            let id = second[j].cluster_id->Some_0;
            assert(second[j].cluster_id == Some(id));
            assert(class_present(rates, core_type, Some(id)));
            let i = choose|i: int|
                0 <= i < first.len() && (#[trigger] first[i]).cluster_id == Some(id);
            assert(a[i] == x);
        }
    }
    lemma_ascending_lists_agree(a, b);
    assert(first.len() == a.len() && second.len() == b.len());
    assert forall|i: int| 0 <= i < first.len() implies first[i] == second[i] by {
        assert(a[i] == b[i]);
        assert(first[i].cluster_id is Some && second[i].cluster_id is Some);
        assert(first[i].cluster_id == second[i].cluster_id);
    }
    assert(first =~= second);
}

/// Whether the sums of every cluster of a kind of core are in range.
pub open spec fn clusters_in_range(rates: Seq<PartitionRate>, core_type: CoreType) -> bool {
    forall|cluster_id: i32| #[trigger]
        class_present(rates, core_type, Some(cluster_id)) ==> class_in_range(
            rates,
            core_type,
            Some(cluster_id),
        )
}

/// A sum over the first rates is never above the sum over all of them, and
/// no sum is negative.
proof fn lemma_class_total_grows(
    rates: Seq<PartitionRate>,
    core_type: CoreType,
    cluster_id: Option<i32>,
    active: bool,
    i: int,
)
    requires
        0 <= i <= rates.len(),
    ensures
        0 <= class_total(rates.take(i), core_type, cluster_id, active) <= class_total(
            rates,
            core_type,
            cluster_id,
            active,
        ),
    decreases rates.len(),
{
    if i == rates.len() {
        assert(rates.take(i) =~= rates);
        if rates.len() > 0 {
            lemma_class_total_grows(rates.drop_last(), core_type, cluster_id, active, i - 1);
            assert(rates.drop_last().take(i - 1) =~= rates.drop_last());
        }
    } else {
        lemma_class_total_grows(rates.drop_last(), core_type, cluster_id, active, i);
        assert(rates.drop_last().take(i) =~= rates.take(i));
    }
}

/// The cores of a class are finitely many, no more than there are rates, and
/// they are the cores of the rates that count toward its active sum.
proof fn lemma_class_cores(
    rates: Seq<PartitionRate>,
    core_type: CoreType,
    cluster_id: Option<i32>,
)
    ensures
        class_cores(rates, core_type, cluster_id).finite(),
        class_cores(rates, core_type, cluster_id).len() <= rates.len(),
        forall|core_id: i32|
            class_cores(rates, core_type, cluster_id).contains(core_id) <==> exists|i: int|
                0 <= i < rates.len() && counts_toward(
                    #[trigger] rates[i],
                    core_type,
                    cluster_id,
                    true,
                ) && rates[i].core_id == core_id,
    decreases rates.len(),
{
    if rates.len() > 0 {
        let front = rates.drop_last();
        lemma_class_cores(front, core_type, cluster_id);
        assert forall|core_id: i32|
            class_cores(rates, core_type, cluster_id).contains(core_id) <==> exists|i: int|
                0 <= i < rates.len() && counts_toward(
                    #[trigger] rates[i],
                    core_type,
                    cluster_id,
                    true,
                ) && rates[i].core_id == core_id by {
            if class_cores(rates, core_type, cluster_id).contains(core_id) {
                if class_cores(front, core_type, cluster_id).contains(core_id) {
                    let i = choose|i: int|
                        0 <= i < front.len() && counts_toward(
                            #[trigger] front[i],
                            core_type,
                            cluster_id,
                            true,
                        ) && front[i].core_id == core_id;
                    assert(rates[i] == front[i]);
                } else {
                    assert(counts_toward(rates[rates.len() - 1], core_type, cluster_id, true));
                }
            }
            if exists|i: int|
                0 <= i < rates.len() && counts_toward(
                    #[trigger] rates[i],
                    core_type,
                    cluster_id,
                    true,
                ) && rates[i].core_id == core_id {
                let i = choose|i: int|
                    0 <= i < rates.len() && counts_toward(
                        #[trigger] rates[i],
                        core_type,
                        cluster_id,
                        true,
                    ) && rates[i].core_id == core_id;
                if i < front.len() {
                    assert(front[i] == rates[i]);
                }
            }
        }
    }
}

/// The sums of a cluster are never above those of its kind of core, so
/// where the kinds are in range the clusters are.
pub proof fn lemma_cluster_within_kind(
    rates: Seq<PartitionRate>,
    core_type: CoreType,
    cluster_id: i32,
    active: bool,
)
    ensures
        0 <= class_total(rates, core_type, Some(cluster_id), active) <= class_total(
            rates,
            core_type,
            None,
            active,
        ),
    decreases rates.len(),
{
    if rates.len() > 0 {
        lemma_cluster_within_kind(rates.drop_last(), core_type, cluster_id, active);
    }
}

/// The clusters named by the rates of a kind of core are the clusters that
/// have a rate of that kind.
proof fn lemma_cluster_keys(rates: Seq<PartitionRate>, core_type: CoreType)
    ensures
        forall|cluster_id: i32|
            cluster_keys(rates, core_type).contains(cluster_id) <==> class_present(
                rates,
                core_type,
                Some(cluster_id),
            ),
    decreases rates.len(),
{
    let keys = cluster_keys(rates, core_type);
    if rates.len() > 0 {
        let front = rates.drop_last();
        let earlier = cluster_keys(front, core_type);
        lemma_cluster_keys(front, core_type);
        assert forall|cluster_id: i32|
            keys.contains(cluster_id) <==> class_present(rates, core_type, Some(cluster_id)) by {
            if keys.contains(cluster_id) {
                let k = choose|k: int| 0 <= k < keys.len() && keys[k] == cluster_id;
                if k < earlier.len() {
                    assert(earlier[k] == cluster_id);
                    assert(earlier.contains(cluster_id));
                    let i = choose|i: int|
                        0 <= i < front.len() && in_class(
                            #[trigger] front[i],
                            core_type,
                            Some(cluster_id),
                        );
                    assert(rates[i] == front[i]);
                } else {
                    assert(in_class(rates[rates.len() - 1], core_type, Some(cluster_id)));
                }
            }
            if class_present(rates, core_type, Some(cluster_id)) {
                let i = choose|i: int|
                    0 <= i < rates.len() && in_class(
                        #[trigger] rates[i],
                        core_type,
                        Some(cluster_id),
                    );
                if i < front.len() {
                    assert(front[i] == rates[i]);
                    assert(class_present(front, core_type, Some(cluster_id)));
                    assert(earlier.contains(cluster_id));
                    let k = choose|k: int| 0 <= k < earlier.len() && earlier[k] == cluster_id;
                    assert(keys[k] == cluster_id);
                } else {
                    assert(keys[earlier.len() as int] == cluster_id);
                }
            }
        }
    } else {
        assert forall|cluster_id: i32|
            keys.contains(cluster_id) <==> class_present(rates, core_type, Some(cluster_id)) by {}
    }
}

/// Sums the rates of one class.
///
/// The aggregate is there if any rate belongs to the class. A sum beyond
/// `RATE_LIMIT` is refused.
pub fn aggregate_class(
    rates: &Vec<PartitionRate>,
    core_type: CoreType,
    cluster_id: Option<i32>,
) -> (aggregate: Result<Option<ClusterAggregate>, SumOutOfRange>)
    requires
        all_valid(rates@),
    ensures
        class_in_range(rates@, core_type, cluster_id) ==> aggregate == Ok::<
            Option<ClusterAggregate>,
            SumOutOfRange,
        >(
            if class_present(rates@, core_type, cluster_id) {
                Some(class_aggregate(rates@, core_type, cluster_id))
            } else {
                None
            },
        ),
        !class_in_range(rates@, core_type, cluster_id) ==> aggregate == Err::<
            Option<ClusterAggregate>,
            SumOutOfRange,
        >(SumOutOfRange { core_type, cluster_id }),
{
    let n = rates.len();
    let mut active: u128 = 0;
    let mut idle: u128 = 0;
    let mut wide_active = Wide::zero();
    let mut wide_idle = Wide::zero();
    let mut cores: usize = 0;
    let mut present = false;
    let mut i: usize = 0;
    proof {
        lemma_terms_fit(0);
    }
    while i < n
        invariant
            i <= n,
            n == rates@.len(),
            all_valid(rates@),
            wide_active.value() == class_wide_total(
                rates@.take(i as int),
                core_type,
                cluster_id,
                true,
            ),
            wide_idle.value() == class_wide_total(
                rates@.take(i as int),
                core_type,
                cluster_id,
                false,
            ),
            0 <= wide_active.value(),
            0 <= wide_idle.value(),
            wide_active.value() + wide_idle.value() <= i * max_term(),
            active == class_total(rates@.take(i as int), core_type, cluster_id, true),
            idle == class_total(rates@.take(i as int), core_type, cluster_id, false),
            active <= RATE_LIMIT,
            idle <= RATE_LIMIT,
            cores == class_cores(rates@.take(i as int), core_type, cluster_id).len(),
            cores <= i,
            present == class_present(rates@.take(i as int), core_type, cluster_id),
        decreases n - i,
    {
        let rate = rates[i];
        let ghost seen = rates@.take(i as int);
        let ghost more = rates@.take(i + 1);
        proof {
            assert(more.drop_last() =~= seen);
            lemma_class_total_grows(rates@, core_type, cluster_id, true, i + 1);
            lemma_class_total_grows(rates@, core_type, cluster_id, false, i + 1);
            lemma_class_cores(seen, core_type, cluster_id);
            lemma_class_cores(more, core_type, cluster_id);
            assert(rates@[i as int].rate.wf());
            lemma_terms_fit(i + 1);
            assert((i + 1) * max_term() == i * max_term() + max_term()) by (nonlinear_arith);
        }
        if rate_in_class(&rate, core_type, cluster_id) {
            let term = quotient_to_places(rate.rate.numerator, rate.rate.denominator);
            if rate.counter.is_active() {
                if rate.rate.millionths > (RATE_LIMIT as u128) - active {
                    return Err(SumOutOfRange { core_type, cluster_id });
                }
                active = active + rate.rate.millionths;
                wide_active = wide_active.plus(&term);
                let mut counted = false;
                let mut k: usize = 0;
                while k < i
                    invariant
                        k <= i,
                        i < n,
                        n == rates@.len(),
                        rate == rates@[i as int],
                        counted == exists|j: int|
                            0 <= j < k && counts_toward(
                                #[trigger] rates@[j],
                                core_type,
                                cluster_id,
                                true,
                            ) && rates@[j].core_id == rate.core_id,
                    decreases i - k,
                {
                    let other = rates[k];
                    if rate_in_class(&other, core_type, cluster_id) && other.counter.is_active()
                        && other.core_id == rate.core_id {
                        counted = true;
                    }
                    k = k + 1;
                }
                proof {
                    if counted {
                        let j = choose|j: int|
                            0 <= j < i && counts_toward(
                                #[trigger] rates@[j],
                                core_type,
                                cluster_id,
                                true,
                            ) && rates@[j].core_id == rate.core_id;
                        assert(seen[j] == rates@[j]);
                        assert(class_cores(seen, core_type, cluster_id).contains(rate.core_id));
                        assert(class_cores(seen, core_type, cluster_id).insert(rate.core_id)
                            =~= class_cores(seen, core_type, cluster_id));
                    } else {
                        if class_cores(seen, core_type, cluster_id).contains(rate.core_id) {
                            let j = choose|j: int|
                                0 <= j < seen.len() && counts_toward(
                                    #[trigger] seen[j],
                                    core_type,
                                    cluster_id,
                                    true,
                                ) && seen[j].core_id == rate.core_id;
                            assert(rates@[j] == seen[j]);
                        }
                    }
                }
                if !counted {
                    cores = cores + 1;
                }
            } else {
                if rate.rate.millionths > (RATE_LIMIT as u128) - idle {
                    return Err(SumOutOfRange { core_type, cluster_id });
                }
                idle = idle + rate.rate.millionths;
                wide_idle = wide_idle.plus(&term);
            }
            present = true;
            assert(in_class(more[i as int], core_type, cluster_id));
        } else {
            proof {
                if class_present(more, core_type, cluster_id) {
                    let j = choose|j: int|
                        0 <= j < more.len() && in_class(#[trigger] more[j], core_type, cluster_id);
                    assert(seen[j] == more[j]);
                }
            }
        }
        proof {
            if class_present(seen, core_type, cluster_id) {
                let j = choose|j: int|
                    0 <= j < seen.len() && in_class(#[trigger] seen[j], core_type, cluster_id);
                assert(more[j] == seen[j]);
            }
        }
        i = i + 1;
    }
    assert(rates@.take(n as int) =~= rates@);
    if !present {
        return Ok(None);
    }
    proof {
        lemma_terms_fit(n as int);
        lemma_wide_of_value(wide_active);
        lemma_wide_of_value(wide_idle);
    }
    let share = utilization_of_sums(&wide_active, &wide_idle);
    Ok(
        Some(
            ClusterAggregate {
                core_type,
                cluster_id,
                core_count: cores,
                avg_utilization: share,
                total_active_ticks: RateSum { wide: wide_active, millionths: active },
                total_idle_ticks: RateSum { wide: wide_idle, millionths: idle },
            },
        ),
    )
}

/// Whether a rate belongs to a class.
pub fn rate_in_class(rate: &PartitionRate, core_type: CoreType, cluster_id: Option<i32>) -> (yes:
    bool)
    ensures
        yes == in_class(*rate, core_type, cluster_id),
{
    if rate.core_type != core_type {
        return false;
    }
    match cluster_id {
        None => true,
        Some(wanted) => match rate.cluster_id {
            Some(cluster) => cluster == wanted,
            None => false,
        },
    }
}

/// Sums the rates by kind of core.
///
/// The kinds that occur among the rates each get an aggregate, efficiency
/// before performance; cores of unknown kind enter none. The whole is refused
/// if a sum of either kind lies beyond `RATE_LIMIT`, with the first kind of
/// which that is so.
pub fn cluster_aggregates(rates: &Vec<PartitionRate>) -> (aggregates: Result<
    Vec<ClusterAggregate>,
    SumOutOfRange,
>)
    requires
        all_valid(rates@),
    ensures
        match kind_out_of_range(rates@) {
            None => aggregates is Ok && aggregates->Ok_0@ == class_aggregates(rates@),
            Some(kind) => aggregates == Err::<Vec<ClusterAggregate>, SumOutOfRange>(kind),
        },
{
    let mut aggregates: Vec<ClusterAggregate> = Vec::new();
    match aggregate_class(rates, CoreType::Efficiency, None) {
        Ok(Some(aggregate)) => {
            aggregates.push(aggregate);
        },
        Ok(None) => {},
        Err(e) => {
            return Err(e);
        },
    }
    match aggregate_class(rates, CoreType::Performance, None) {
        Ok(Some(aggregate)) => {
            aggregates.push(aggregate);
        },
        Ok(None) => {},
        Err(e) => {
            return Err(e);
        },
    }
    assert(aggregates@ =~= class_aggregates(rates@));
    Ok(aggregates)
}

/// Sums the rates of a kind of core by cluster.
///
/// Every cluster that a rate of the kind names gets an aggregate, in
/// ascending order of cluster; rates that name no cluster enter none. The
/// whole is refused if a sum of any cluster lies beyond `RATE_LIMIT`, with
/// the first cluster of which that is so.
pub fn per_cluster_aggregates(rates: &Vec<PartitionRate>, core_type: CoreType) -> (aggregates:
    Result<Vec<ClusterAggregate>, SumOutOfRange>)
    requires
        all_valid(rates@),
    ensures
        clusters_in_range(rates@, core_type) ==> aggregates is Ok && is_per_cluster(
            aggregates->Ok_0@,
            rates@,
            core_type,
        ),
        !clusters_in_range(rates@, core_type) ==> aggregates is Err && aggregates->Err_0.core_type
            == core_type && aggregates->Err_0.cluster_id is Some && is_first_cluster_out_of_range(
            rates@,
            core_type,
            aggregates->Err_0.cluster_id->Some_0,
        ),
{
    let n = rates.len();
    let mut keys: Vec<i32> = Vec::new();
    let mut i: usize = 0;
    while i < n
        invariant
            i <= n,
            n == rates@.len(),
            keys@ == cluster_keys(rates@.take(i as int), core_type),
        decreases n - i,
    {
        assert(rates@.take(i + 1).drop_last() =~= rates@.take(i as int));
        let rate = rates[i];
        if rate.core_type == core_type {
            match rate.cluster_id {
                Some(cluster) => {
                    keys.push(cluster);
                },
                None => {},
            }
        }
        i = i + 1;
    }
    assert(rates@.take(n as int) =~= rates@);
    let ids = distinct_ascending(&keys);
    proof {
        lemma_cluster_keys(rates@, core_type);
    }
    let mut aggregates: Vec<ClusterAggregate> = Vec::new();
    let mut k: usize = 0;
    while k < ids.len()
        invariant
            k <= ids@.len(),
            all_valid(rates@),
            lists_distinct(ids@, keys@),
            keys@ == cluster_keys(rates@, core_type),
            forall|cluster_id: i32|
                keys@.contains(cluster_id) <==> class_present(
                    rates@,
                    core_type,
                    Some(cluster_id),
                ),
            aggregates@.len() == k,
            forall|j: int|
                0 <= j < k ==> (#[trigger] aggregates@[j]) == class_aggregate(
                    rates@,
                    core_type,
                    Some(ids@[j]),
                ) && class_in_range(rates@, core_type, Some(ids@[j])),
        decreases ids@.len() - k,
    {
        let cluster = ids[k];
        assert(keys@.contains(ids@[k as int]));
        assert(class_present(rates@, core_type, Some(cluster)));
        match aggregate_class(rates, core_type, Some(cluster)) {
            Ok(Some(aggregate)) => {
                aggregates.push(aggregate);
            },
            Ok(None) => {},
            Err(e) => {
                proof {
                    assert forall|smaller: i32|
                        smaller < cluster && #[trigger] class_present(
                            rates@,
                            core_type,
                            Some(smaller),
                        ) implies class_in_range(rates@, core_type, Some(smaller)) by {
                        assert(keys@.contains(smaller));
                        let i = choose|i: int| 0 <= i < keys@.len() && keys@[i] == smaller;
                        assert(ids@.contains(keys@[i]));
                        let j = choose|j: int| 0 <= j < ids@.len() && ids@[j] == smaller;
                        if j > k {
                            assert(ids@[k as int] < ids@[j]);
                        }
                        assert(j < k);
                        assert(aggregates@[j] == class_aggregate(
                            rates@,
                            core_type,
                            Some(ids@[j]),
                        ));
                    }
                }
                return Err(e);
            },
        }
        k = k + 1;
    }
    proof {
        assert forall|cluster_id: i32| #[trigger]
            class_present(rates@, core_type, Some(cluster_id)) implies class_in_range(
            rates@,
            core_type,
            Some(cluster_id),
        ) && exists|j: int|
            0 <= j < aggregates@.len() && (#[trigger] aggregates@[j]).cluster_id == Some(
                cluster_id,
            ) by {
            assert(keys@.contains(cluster_id));
            let i = choose|i: int| 0 <= i < keys@.len() && keys@[i] == cluster_id;
            assert(ids@.contains(keys@[i]));
            let j = choose|j: int| 0 <= j < ids@.len() && ids@[j] == cluster_id;
            assert(aggregates@[j].cluster_id == Some(cluster_id));
        }
        assert forall|j: int| 0 <= j < aggregates@.len() implies (
        #[trigger] aggregates@[j]).cluster_id is Some && class_present(
            rates@,
            core_type,
            aggregates@[j].cluster_id,
        ) && aggregates@[j] == class_aggregate(rates@, core_type, aggregates@[j].cluster_id) by {
            assert(keys@.contains(ids@[j]));
        }
    }
    Ok(aggregates)
}

/// The aggregation of core utilization.
pub struct AppleSiliconCPU;

/// The window that the parameters ask for, in seconds: the number under
/// `window_seconds`, or the default where there is none or it cannot be read.
pub open spec fn window_seconds_of(params: Seq<(String, String)>) -> i64 {
    match value_of(params, "window_seconds"@) {
        Some(text) => match decimal_value_within(text, i64::MIN as int, i64::MAX as int) {
            Some(v) => v as i64,
            None => DEFAULT_WINDOW_SECONDS,
        },
        None => DEFAULT_WINDOW_SECONDS,
    }
}

/// Whether `data` is the aggregation of the prepared samples: the rates and
/// rows that the samples decide, with all sums in range.
pub open spec fn is_cpu_aggregation(
    data: AggregationData,
    prepared: Seq<TickSample>,
    window_seconds: i64,
) -> bool {
    &&& is_per_core_rates(data.per_core_rates@, prepared)
    &&& is_partition_rates(data.partition_rates@, prepared)
    &&& kind_out_of_range(data.partition_rates@) is None
    &&& data.cluster_aggregates@ == class_aggregates(data.partition_rates@)
    &&& is_per_cluster(data.efficiency_clusters@, data.partition_rates@, CoreType::Efficiency)
    &&& is_per_cluster(data.performance_clusters@, data.partition_rates@, CoreType::Performance)
    &&& data.window_seconds == window_seconds
}

/// Whether `kind` is the first kind of core for which the rates of the
/// prepared samples add up to more than `RATE_LIMIT` millionths.
pub open spec fn sums_out_of_range(prepared: Seq<TickSample>, kind: SumOutOfRange) -> bool {
    exists|rates: Seq<PartitionRate>|
        #![trigger is_partition_rates(rates, prepared)]
        is_partition_rates(rates, prepared) && kind_out_of_range(rates) == Some(kind)
}

/// Whether `result` is what the aggregation of core utilization gives.
///
/// A window that is not positive is refused, then the first malformed tick
/// sample inside the window, then the first kind of core whose rates add up
/// out of range. Otherwise the result holds the rows of the samples inside
/// the window. Samples outside the window are not looked at.
pub open spec fn cpu_aggregation_gives(
    metrics: Seq<Metric>,
    now: i64,
    params: Seq<(String, String)>,
    result: Result<AggregationResult, AggregationFailure>,
) -> bool {
    let window = window_seconds_of(params);
    if window <= 0 {
        result is Err && result->Err_0 == (AggregationFailure::WindowNotPositive {
            window_seconds: window,
        })
    } else {
        match tick_samples_of(metrics, now, window) {
            Err((position, reason)) => result is Err && result->Err_0
                == (AggregationFailure::MalformedSample { position: position as usize, reason }),
            Ok(samples) => {
                let prepared = prepared_samples(samples, now, window);
                match result {
                    Ok(found) => found.name@ == "apple_silicon_cpu"@ && is_cpu_aggregation(
                        found.data,
                        prepared,
                        window,
                    ),
                    Err(AggregationFailure::SumOutOfRange { core_type, cluster_id }) =>
                        sums_out_of_range(prepared, SumOutOfRange { core_type, cluster_id }),
                    Err(_) => false,
                }
            },
        }
    }
}

impl AppleSiliconCPU {
    /// The aggregation of core utilization.
    pub fn new() -> Self {
        Self
    }

    /// The window that the parameters ask for, in seconds.
    pub fn window_seconds(params: &Vec<(String, String)>) -> (seconds: i64)
        ensures
            seconds == window_seconds_of(params@),
    {
        match find_value(params, "window_seconds") {
            Some(text) => match parse_i64(text.as_str()) {
                Some(v) => v,
                None => DEFAULT_WINDOW_SECONDS,
            },
            None => DEFAULT_WINDOW_SECONDS,
        }
    }
}

impl Aggregation for AppleSiliconCPU {
    open spec fn label(&self) -> Seq<char> {
        "apple_silicon_cpu"@
    }

    open spec fn summary(&self) -> Seq<char> {
        "Calculate CPU utilization rates for Apple Silicon processors with per-core and cluster aggregations"@
    }

    open spec fn produces(
        &self,
        metrics: Seq<Metric>,
        now: i64,
        params: Seq<(String, String)>,
        result: Result<AggregationResult, AggregationFailure>,
    ) -> bool {
        cpu_aggregation_gives(metrics, now, params, result)
    }

    fn name(&self) -> (name: &str) {
        "apple_silicon_cpu"
    }

    fn description(&self) -> (description: &str) {
        "Calculate CPU utilization rates for Apple Silicon processors with per-core and cluster aggregations"
    }

    fn execute(&self, metrics: &Vec<Metric>, now: i64, params: &Vec<(String, String)>) -> (result:
        Result<AggregationResult, AggregationFailure>) {
        let asked = AppleSiliconCPU::window_seconds(params);
        let window_seconds = match UtilizationWindow::new(asked) {
            Ok(window) => window.window_seconds,
            Err(_) => {
                return Err(AggregationFailure::WindowNotPositive { window_seconds: asked });
            },
        };
        let samples = match tick_samples(metrics, now, window_seconds) {
            Ok(samples) => samples,
            Err(refused) => {
                return Err(
                    AggregationFailure::MalformedSample {
                        position: refused.position,
                        reason: refused.reason,
                    },
                );
            },
        };
        let prepared = prepare(&samples, now, window_seconds);
        let per_core_rates = per_core_rates(&prepared);
        let partition_rates = partition_rates(&prepared);
        proof {
            lemma_partition_rates_are_valid(partition_rates@, prepared@);
        }
        let cluster_aggregates = match cluster_aggregates(&partition_rates) {
            Ok(aggregates) => aggregates,
            Err(kind) => {
                proof {
                    assert(is_partition_rates(partition_rates@, prepared@) && kind_out_of_range(
                        partition_rates@,
                    ) == Some(kind));
                    assert(sums_out_of_range(prepared@, kind));
                }
                return Err(
                    AggregationFailure::SumOutOfRange {
                        core_type: kind.core_type,
                        cluster_id: kind.cluster_id,
                    },
                );
            },
        };
        proof {
            assert forall|cluster_id: i32| #[trigger]
                class_present(
                    partition_rates@,
                    CoreType::Efficiency,
                    Some(cluster_id),
                ) implies class_in_range(partition_rates@, CoreType::Efficiency, Some(cluster_id)) by {
                lemma_cluster_within_kind(partition_rates@, CoreType::Efficiency, cluster_id, true);
                lemma_cluster_within_kind(partition_rates@, CoreType::Efficiency, cluster_id, false);
            }
            assert forall|cluster_id: i32| #[trigger]
                class_present(
                    partition_rates@,
                    CoreType::Performance,
                    Some(cluster_id),
                ) implies class_in_range(partition_rates@, CoreType::Performance, Some(cluster_id)) by {
                lemma_cluster_within_kind(partition_rates@, CoreType::Performance, cluster_id, true);
                lemma_cluster_within_kind(
                    partition_rates@,
                    CoreType::Performance,
                    cluster_id,
                    false,
                );
            }
        }
        let efficiency_clusters = match per_cluster_aggregates(
            &partition_rates,
            CoreType::Efficiency,
        ) {
            Ok(aggregates) => aggregates,
            Err(_) => Vec::new(),
        };
        let performance_clusters = match per_cluster_aggregates(
            &partition_rates,
            CoreType::Performance,
        ) {
            Ok(aggregates) => aggregates,
            Err(_) => Vec::new(),
        };
        Ok(
            AggregationResult {
                name: String::from_str(self.name()),
                data: AggregationData {
                    per_core_rates,
                    cluster_aggregates,
                    efficiency_clusters,
                    performance_clusters,
                    partition_rates,
                    window_seconds,
                },
            },
        )
    }
}

} // verus!
