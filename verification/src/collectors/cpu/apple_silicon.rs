//! The counters of the cores, turned into samples.
//!
//! A snapshot names the cores and gives four tick counts for each. Every core
//! that the snapshot knows yields its idle and its total count, the cores of
//! each kind are summed, and so are the cores of each cluster.

use vstd::prelude::*;
use crate::clock::now_millis;
use crate::collectors::types::{
    models, numbered, numbered_name, text_sample, CoreType, Metric, MetricModel,
};
use crate::decimal::decimal_text;

verus! {

/// A core as the snapshot describes it.
#[derive(Debug, Clone, Copy, PartialEq, Eq)]
pub struct CoreInfo {
    pub id: i32,
    /// 1 for an efficiency core, 2 for a performance core.
    pub core_type: i32,
    pub cluster_id: i32,
}

/// The four tick counts of a core.
#[derive(Debug, Clone, Copy, PartialEq, Eq)]
pub struct CoreTickCounts {
    pub core_id: i32,
    pub user_ticks: i32,
    pub system_ticks: i32,
    pub nice_ticks: i32,
    pub idle_ticks: i32,
}

/// One snapshot of the counters.
#[derive(Debug, Clone, PartialEq, Eq)]
pub struct CPUMetricsData {
    pub cores: Vec<CoreInfo>,
    pub tick_counts: Vec<CoreTickCounts>,
}

/// The idle and total ticks summed for one cluster.
#[derive(Debug, Clone, Copy, PartialEq, Eq)]
pub struct ClusterTicks {
    pub cluster_id: i32,
    pub idle: i128,
    pub total: i128,
}

/// The collector of the cores' counters.
pub struct AppleSiliconCPUCollector;

/// The kind of core that a snapshot's number stands for.
pub open spec fn kind_of(core_type: i32) -> CoreType {
    if core_type == 1 {
        CoreType::Efficiency
    } else if core_type == 2 {
        CoreType::Performance
    } else {
        CoreType::Unknown
    }
}

/// The first core of the snapshot with the given id.
pub open spec fn found_core(cores: Seq<CoreInfo>, core_id: i32) -> Option<CoreInfo>
    decreases cores.len(),
{
    if cores.len() == 0 {
        None
    } else if cores[0].id == core_id {
        Some(cores[0])
    } else {
        found_core(cores.drop_first(), core_id)
    }
}

/// The ticks in which a core did nothing.
pub open spec fn idle_of(ticks: CoreTickCounts) -> int {
    ticks.idle_ticks as int
}

/// All ticks of a core.
pub open spec fn total_of(ticks: CoreTickCounts) -> int {
    ticks.user_ticks + ticks.system_ticks + ticks.nice_ticks + ticks.idle_ticks
}

/// The idle ticks or all ticks of a core.
pub open spec fn ticks_of(ticks: CoreTickCounts, idle: bool) -> int {
    if idle {
        idle_of(ticks)
    } else {
        total_of(ticks)
    }
}

/// How the name of a core's sample begins.
pub open spec fn core_prefix(kind: CoreType) -> Seq<char> {
    match kind {
        CoreType::Efficiency => "cpu.efficiency_core."@,
        CoreType::Performance => "cpu.performance_core."@,
        CoreType::Unknown => "cpu.unknown_core."@,
    }
}

/// How the name of a cluster's sample begins.
pub open spec fn cluster_prefix(kind: CoreType) -> Seq<char> {
    match kind {
        CoreType::Efficiency => "cpu.efficiency_cluster."@,
        CoreType::Performance => "cpu.performance_cluster."@,
        CoreType::Unknown => "cpu.unknown_cluster."@,
    }
}

/// How the name of a sample ends.
pub open spec fn ticks_suffix(idle: bool) -> Seq<char> {
    if idle {
        ".idle_ticks"@
    } else {
        ".total_ticks"@
    }
}

/// The two samples of one core: idle ticks, then all ticks. A core that the
/// snapshot does not describe has none.
pub open spec fn core_samples(cores: Seq<CoreInfo>, ticks: CoreTickCounts, timestamp: i64) -> Seq<
    MetricModel,
> {
    match found_core(cores, ticks.core_id) {
        None => Seq::empty(),
        Some(core) => seq![
            text_sample(
                numbered(core_prefix(kind_of(core.core_type)), ticks.core_id as int, ticks_suffix(true)),
                decimal_text(idle_of(ticks)),
                timestamp,
            ),
            text_sample(
                numbered(core_prefix(kind_of(core.core_type)), ticks.core_id as int, ticks_suffix(false)),
                decimal_text(total_of(ticks)),
                timestamp,
            ),
        ],
    }
}

/// The samples of all cores, in the order of the tick counts.
pub open spec fn per_core_samples(
    cores: Seq<CoreInfo>,
    tick_counts: Seq<CoreTickCounts>,
    timestamp: i64,
) -> Seq<MetricModel>
    decreases tick_counts.len(),
{
    if tick_counts.len() == 0 {
        Seq::empty()
    } else {
        per_core_samples(cores, tick_counts.drop_last(), timestamp) + core_samples(
            cores,
            tick_counts.last(),
            timestamp,
        )
    }
}

/// Whether tick counts belong to a described core of the given kind.
pub open spec fn counts_for(cores: Seq<CoreInfo>, ticks: CoreTickCounts, kind: CoreType) -> bool {
    match found_core(cores, ticks.core_id) {
        Some(core) => kind_of(core.core_type) == kind,
        None => false,
    }
}

/// Whether tick counts belong to a described core of the given kind and
/// cluster.
pub open spec fn in_cluster(
    cores: Seq<CoreInfo>,
    ticks: CoreTickCounts,
    kind: CoreType,
    cluster_id: i32,
) -> bool {
    match found_core(cores, ticks.core_id) {
        Some(core) => kind_of(core.core_type) == kind && core.cluster_id == cluster_id,
        None => false,
    }
}

/// The idle ticks, or all ticks, summed over the cores of a kind.
pub open spec fn kind_sum(
    cores: Seq<CoreInfo>,
    tick_counts: Seq<CoreTickCounts>,
    kind: CoreType,
    idle: bool,
) -> int
    decreases tick_counts.len(),
{
    if tick_counts.len() == 0 {
        0
    } else if counts_for(cores, tick_counts.last(), kind) {
        kind_sum(cores, tick_counts.drop_last(), kind, idle) + ticks_of(tick_counts.last(), idle)
    } else {
        kind_sum(cores, tick_counts.drop_last(), kind, idle)
    }
}

/// The idle ticks, or all ticks, summed over the cores of a kind in one
/// cluster.
pub open spec fn cluster_sum(
    cores: Seq<CoreInfo>,
    tick_counts: Seq<CoreTickCounts>,
    kind: CoreType,
    cluster_id: i32,
    idle: bool,
) -> int
    decreases tick_counts.len(),
{
    if tick_counts.len() == 0 {
        0
    } else if in_cluster(cores, tick_counts.last(), kind, cluster_id) {
        cluster_sum(cores, tick_counts.drop_last(), kind, cluster_id, idle) + ticks_of(
            tick_counts.last(),
            idle,
        )
    } else {
        cluster_sum(cores, tick_counts.drop_last(), kind, cluster_id, idle)
    }
}

/// The clusters that hold a core of a kind, each once, in the order in which
/// the tick counts first reach them.
pub open spec fn clusters(cores: Seq<CoreInfo>, tick_counts: Seq<CoreTickCounts>, kind: CoreType)
    -> Seq<i32>
    decreases tick_counts.len(),
{
    if tick_counts.len() == 0 {
        Seq::empty()
    } else {
        let earlier = clusters(cores, tick_counts.drop_last(), kind);
        match found_core(cores, tick_counts.last().core_id) {
            Some(core) => if kind_of(core.core_type) == kind && !earlier.contains(core.cluster_id) {
                earlier.push(core.cluster_id)
            } else {
                earlier
            },
            None => earlier,
        }
    }
}

/// The four samples of the kinds: idle and all ticks of the efficiency
/// cores, then of the performance cores.
pub open spec fn kind_samples(
    cores: Seq<CoreInfo>,
    tick_counts: Seq<CoreTickCounts>,
    timestamp: i64,
) -> Seq<MetricModel> {
    seq![
        text_sample(
            "cpu.efficiency.idle_ticks"@,
            decimal_text(kind_sum(cores, tick_counts, CoreType::Efficiency, true)),
            timestamp,
        ),
        text_sample(
            "cpu.efficiency.total_ticks"@,
            decimal_text(kind_sum(cores, tick_counts, CoreType::Efficiency, false)),
            timestamp,
        ),
        text_sample(
            "cpu.performance.idle_ticks"@,
            decimal_text(kind_sum(cores, tick_counts, CoreType::Performance, true)),
            timestamp,
        ),
        text_sample(
            "cpu.performance.total_ticks"@,
            decimal_text(kind_sum(cores, tick_counts, CoreType::Performance, false)),
            timestamp,
        ),
    ]
}

/// One sample of a cluster.
pub open spec fn cluster_sample(
    cores: Seq<CoreInfo>,
    tick_counts: Seq<CoreTickCounts>,
    kind: CoreType,
    cluster_id: i32,
    idle: bool,
    timestamp: i64,
) -> MetricModel {
    text_sample(
        numbered(cluster_prefix(kind), cluster_id as int, ticks_suffix(idle)),
        decimal_text(cluster_sum(cores, tick_counts, kind, cluster_id, idle)),
        timestamp,
    )
}

/// The samples of the clusters of a kind: for each cluster its idle ticks,
/// then all its ticks.
pub open spec fn cluster_samples(
    cores: Seq<CoreInfo>,
    tick_counts: Seq<CoreTickCounts>,
    kind: CoreType,
    timestamp: i64,
) -> Seq<MetricModel> {
    let ids = clusters(cores, tick_counts, kind);
    Seq::new(
        2 * ids.len(),
        |j: int| cluster_sample(cores, tick_counts, kind, ids[j / 2], j % 2 == 0, timestamp),
    )
}

/// All samples of a snapshot: the cores, the kinds, the efficiency clusters,
/// the performance clusters.
pub open spec fn cpu_samples(data: CPUMetricsData, timestamp: i64) -> Seq<MetricModel> {
    per_core_samples(data.cores@, data.tick_counts@, timestamp) + kind_samples(
        data.cores@,
        data.tick_counts@,
        timestamp,
    ) + cluster_samples(data.cores@, data.tick_counts@, CoreType::Efficiency, timestamp)
        + cluster_samples(data.cores@, data.tick_counts@, CoreType::Performance, timestamp)
}

/// The cluster ids of a list of sums.
pub open spec fn ids_of(sums: Seq<ClusterTicks>) -> Seq<i32> {
    Seq::new(sums.len(), |k: int| sums[k].cluster_id)
}

/// Whether `sums` holds the sums of the clusters of a kind over the given
/// tick counts.
pub open spec fn sums_clusters(
    sums: Seq<ClusterTicks>,
    cores: Seq<CoreInfo>,
    tick_counts: Seq<CoreTickCounts>,
    kind: CoreType,
) -> bool {
    &&& ids_of(sums) == clusters(cores, tick_counts, kind)
    &&& forall|k: int|
        0 <= k < sums.len() ==> (#[trigger] sums[k]).idle == cluster_sum(
            cores,
            tick_counts,
            kind,
            sums[k].cluster_id,
            true,
        ) && sums[k].total == cluster_sum(cores, tick_counts, kind, sums[k].cluster_id, false)
}

/// The largest magnitude of a sum over the first `n` tick counts.
pub open spec fn sum_bound(n: int) -> int {
    n * 0x2_0000_0000
}

/// Whether every sum in `sums` is within the bound for `n` tick counts.
pub open spec fn sums_bounded(sums: Seq<ClusterTicks>, n: int) -> bool {
    forall|k: int|
        0 <= k < sums.len() ==> -sum_bound(n) <= (#[trigger] sums[k]).idle <= sum_bound(n)
            && -sum_bound(n) <= sums[k].total <= sum_bound(n)
}

impl AppleSiliconCPUCollector {
    /// A collector of the cores' counters.
    pub fn new() -> Self {
        Self
    }

    /// The name of this collector.
    pub fn name(&self) -> (name: &'static str)
        ensures
            name@ == "apple_silicon_cpu"@,
    {
        "apple_silicon_cpu"
    }

    /// The first core of the snapshot with the given id.
    pub fn find_core(cores: &Vec<CoreInfo>, core_id: i32) -> (core: Option<CoreInfo>)
        ensures
            core == found_core(cores@, core_id),
    {
        let mut i: usize = 0;
        assert(cores@.skip(0) =~= cores@);
        while i < cores.len()
            invariant
                i <= cores@.len(),
                found_core(cores@, core_id) == found_core(cores@.skip(i as int), core_id),
            decreases cores@.len() - i,
        {
            assert(cores@.skip(i as int).drop_first() =~= cores@.skip(i + 1));
            if cores[i].id == core_id {
                return Some(cores[i]);
            }
            i = i + 1;
        }
        None
    }

    /// The kind of core that a snapshot's number stands for.
    pub fn core_kind(core_type: i32) -> (kind: CoreType)
        ensures
            kind == kind_of(core_type),
    {
        if core_type == 1 {
            CoreType::Efficiency
        } else if core_type == 2 {
            CoreType::Performance
        } else {
            CoreType::Unknown
        }
    }

    /// Adds the ticks of one core to the sums of its cluster.
    fn add_to_cluster(
        sums: &mut Vec<ClusterTicks>,
        cluster_id: i32,
        idle: i128,
        total: i128,
        Ghost(n): Ghost<int>,
    )
        requires
            0 <= n < 0x1_0000_0000_0000_0000,
            sums_bounded(old(sums)@, n),
            -0x2_0000_0000 <= idle <= 0x2_0000_0000,
            -0x2_0000_0000 <= total <= 0x2_0000_0000,
        ensures
            sums_bounded(final(sums)@, n + 1),
            ids_of(old(sums)@).contains(cluster_id) ==> ids_of(final(sums)@) == ids_of(old(sums)@),
            !ids_of(old(sums)@).contains(cluster_id) ==> ids_of(final(sums)@) == ids_of(old(sums)@).push(
                cluster_id,
            ),
            final(sums)@.len() >= old(sums)@.len(),
            forall|k: int|
                0 <= k < old(sums)@.len() && old(sums)@[k].cluster_id != cluster_id ==> (
                #[trigger] final(sums)@[k]) == old(sums)@[k],
            forall|k: int|
                0 <= k < old(sums)@.len() && old(sums)@[k].cluster_id == cluster_id ==> (
                #[trigger] final(sums)@[k]).idle == old(sums)@[k].idle + idle
                    && final(sums)@[k].total == old(sums)@[k].total + total,
            !ids_of(old(sums)@).contains(cluster_id) ==> final(sums)@.last() == (ClusterTicks {
                cluster_id,
                idle,
                total,
            }),
    {
        let ghost before = sums@;
        let mut k: usize = 0;
        let mut found = false;
        while k < sums.len()
            invariant
                k <= sums@.len(),
                sums@.len() == before.len(),
                ids_of(sums@) == ids_of(before),
                0 <= n < 0x1_0000_0000_0000_0000,
                sums_bounded(before, n),
                -0x2_0000_0000 <= idle <= 0x2_0000_0000,
                -0x2_0000_0000 <= total <= 0x2_0000_0000,
                found == exists|j: int| 0 <= j < k && before[j].cluster_id == cluster_id,
                forall|j: int| k <= j < sums@.len() ==> (#[trigger] sums@[j]) == before[j],
                forall|j: int|
                    0 <= j < k && before[j].cluster_id != cluster_id ==> (#[trigger] sums@[j])
                        == before[j],
                forall|j: int|
                    0 <= j < k && before[j].cluster_id == cluster_id ==> (
                    #[trigger] sums@[j]).idle == before[j].idle + idle && sums@[j].total
                        == before[j].total + total,
            decreases sums@.len() - k,
        {
            let entry = sums[k];
            if entry.cluster_id == cluster_id {
                let ghost was = sums@;
                sums.set(
                    k,
                    ClusterTicks {
                        cluster_id,
                        idle: entry.idle + idle,
                        total: entry.total + total,
                    },
                );
                assert(ids_of(sums@) =~= ids_of(was));
                found = true;
            }
            k = k + 1;
        }
        if !found {
            sums.push(ClusterTicks { cluster_id, idle, total });
            assert(ids_of(sums@) =~= ids_of(before).push(cluster_id));
            proof {
                if ids_of(before).contains(cluster_id) {
                    let j = choose|j: int| 0 <= j < before.len() && ids_of(before)[j] == cluster_id;
                    assert(before[j].cluster_id == cluster_id);
                }
            }
        } else {
            proof {
                let j = choose|j: int| 0 <= j < before.len() && before[j].cluster_id == cluster_id;
                assert(ids_of(before)[j] == cluster_id);
            }
        }
        assert(sums_bounded(sums@, n + 1)) by {
            assert forall|j: int| 0 <= j < sums@.len() implies -sum_bound(n + 1) <= (
            #[trigger] sums@[j]).idle <= sum_bound(n + 1) && -sum_bound(n + 1) <= sums@[j].total
                <= sum_bound(n + 1) by {
                if j < before.len() {
                    assert(-sum_bound(n) <= before[j].idle <= sum_bound(n));
                }
            }
        }
    }

    /// Appends the two samples of each cluster to `metrics`.
    fn push_cluster_metrics(
        metrics: &mut Vec<Metric>,
        sums: &Vec<ClusterTicks>,
        kind: CoreType,
        timestamp: i64,
        Ghost(cores): Ghost<Seq<CoreInfo>>,
        Ghost(tick_counts): Ghost<Seq<CoreTickCounts>>,
    )
        requires
            sums_clusters(sums@, cores, tick_counts, kind),
            kind != CoreType::Unknown,
        ensures
            models(final(metrics)@) == models(old(metrics)@) + cluster_samples(
                cores,
                tick_counts,
                kind,
                timestamp,
            ),
    {
        let ghost start = models(metrics@);
        let ghost wanted = cluster_samples(cores, tick_counts, kind, timestamp);
        let mut k: usize = 0;
        assert(models(metrics@) =~= start + wanted.take(0));
        while k < sums.len()
            invariant
                k <= sums@.len(),
                sums_clusters(sums@, cores, tick_counts, kind),
                kind != CoreType::Unknown,
                wanted == cluster_samples(cores, tick_counts, kind, timestamp),
                wanted.len() == 2 * sums@.len(),
                models(metrics@) == start + wanted.take(2 * k),
            decreases sums@.len() - k,
        {
            let entry = sums[k];
            let prefix = match kind {
                CoreType::Efficiency => "cpu.efficiency_cluster.",
                _ => "cpu.performance_cluster.",
            };
            let ghost before = metrics@;
            assert(ids_of(sums@)[k as int] == entry.cluster_id);
            let idle = Metric::counted(
                numbered_name(prefix, entry.cluster_id as i128, ".idle_ticks"),
                entry.idle,
                timestamp,
            );
            let total = Metric::counted(
                numbered_name(prefix, entry.cluster_id as i128, ".total_ticks"),
                entry.total,
                timestamp,
            );
            assert(idle@ == wanted[2 * k]);
            assert(total@ == wanted[2 * k + 1]);
            metrics.push(idle);
            metrics.push(total);
            assert(models(metrics@) =~= models(before).push(idle@).push(total@));
            assert(wanted.take(2 * (k + 1)) =~= wanted.take(2 * k).push(wanted[2 * k]).push(
                wanted[2 * k + 1],
            ));
            k = k + 1;
        }
        assert(wanted.take(2 * (sums@.len() as int)) =~= wanted);
    }

    /// The samples of one snapshot, stamped with `timestamp`.
    pub fn metrics_at(&self, data: &CPUMetricsData, timestamp: i64) -> (metrics: Vec<Metric>)
        ensures
            models(metrics@) == cpu_samples(*data, timestamp),
    {
        let ghost cores = data.cores@;
        let ghost all = data.tick_counts@;
        let n = data.tick_counts.len();
        let mut metrics: Vec<Metric> = Vec::new();
        let mut efficiency_idle: i128 = 0;
        let mut efficiency_total: i128 = 0;
        let mut performance_idle: i128 = 0;
        let mut performance_total: i128 = 0;
        let mut efficiency_clusters: Vec<ClusterTicks> = Vec::new();
        let mut performance_clusters: Vec<ClusterTicks> = Vec::new();
        let mut i: usize = 0;
        assert(models(metrics@) =~= Seq::empty());
        assert(ids_of(efficiency_clusters@) =~= Seq::empty());
        assert(ids_of(performance_clusters@) =~= Seq::empty());
        while i < n
            invariant
                i <= n,
                n == data.tick_counts@.len(),
                cores == data.cores@,
                all == data.tick_counts@,
                models(metrics@) == per_core_samples(cores, all.take(i as int), timestamp),
                efficiency_idle == kind_sum(cores, all.take(i as int), CoreType::Efficiency, true),
                efficiency_total == kind_sum(
                    cores,
                    all.take(i as int),
                    CoreType::Efficiency,
                    false,
                ),
                performance_idle == kind_sum(
                    cores,
                    all.take(i as int),
                    CoreType::Performance,
                    true,
                ),
                performance_total == kind_sum(
                    cores,
                    all.take(i as int),
                    CoreType::Performance,
                    false,
                ),
                -sum_bound(i as int) <= efficiency_idle <= sum_bound(i as int),
                -sum_bound(i as int) <= efficiency_total <= sum_bound(i as int),
                -sum_bound(i as int) <= performance_idle <= sum_bound(i as int),
                -sum_bound(i as int) <= performance_total <= sum_bound(i as int),
                sums_clusters(efficiency_clusters@, cores, all.take(i as int), CoreType::Efficiency),
                sums_clusters(
                    performance_clusters@,
                    cores,
                    all.take(i as int),
                    CoreType::Performance,
                ),
                sums_bounded(efficiency_clusters@, i as int),
                sums_bounded(performance_clusters@, i as int),
            decreases n - i,
        {
            let ticks = data.tick_counts[i];
            let ghost seen = all.take(i as int);
            let ghost more = all.take(i + 1);
            assert(more.drop_last() =~= seen);
            assert(more.last() == ticks);
            let idle: i128 = ticks.idle_ticks as i128;
            let total: i128 = ticks.user_ticks as i128 + ticks.system_ticks as i128
                + ticks.nice_ticks as i128 + ticks.idle_ticks as i128;
            let ghost before = metrics@;
            let ghost efficiency_before = efficiency_clusters@;
            let ghost performance_before = performance_clusters@;
            match Self::find_core(&data.cores, ticks.core_id) {
                Some(core) => {
                    let kind = Self::core_kind(core.core_type);
                    let prefix = match kind {
                        CoreType::Efficiency => "cpu.efficiency_core.",
                        CoreType::Performance => "cpu.performance_core.",
                        CoreType::Unknown => "cpu.unknown_core.",
                    };
                    let idle_sample = Metric::counted(
                        numbered_name(prefix, ticks.core_id as i128, ".idle_ticks"),
                        idle,
                        timestamp,
                    );
                    let total_sample = Metric::counted(
                        numbered_name(prefix, ticks.core_id as i128, ".total_ticks"),
                        total,
                        timestamp,
                    );
                    assert(seq![idle_sample@, total_sample@] =~= core_samples(
                        cores,
                        ticks,
                        timestamp,
                    ));
                    metrics.push(idle_sample);
                    metrics.push(total_sample);
                    assert(models(metrics@) =~= models(before) + seq![
                        idle_sample@,
                        total_sample@,
                    ]);
                    match kind {
                        CoreType::Efficiency => {
                            efficiency_idle = efficiency_idle + idle;
                            efficiency_total = efficiency_total + total;
                            Self::add_to_cluster(
                                &mut efficiency_clusters,
                                core.cluster_id,
                                idle,
                                total,
                                Ghost(i as int),
                            );
                        },
                        CoreType::Performance => {
                            performance_idle = performance_idle + idle;
                            performance_total = performance_total + total;
                            Self::add_to_cluster(
                                &mut performance_clusters,
                                core.cluster_id,
                                idle,
                                total,
                                Ghost(i as int),
                            );
                        },
                        CoreType::Unknown => {},
                    }
                },
                None => {
                    assert(models(metrics@) =~= models(before) + core_samples(
                        cores,
                        ticks,
                        timestamp,
                    ));
                },
            }
            proof {
                Self::lemma_sums_follow(
                    efficiency_before,
                    efficiency_clusters@,
                    cores,
                    more,
                    CoreType::Efficiency,
                );
                Self::lemma_sums_follow(
                    performance_before,
                    performance_clusters@,
                    cores,
                    more,
                    CoreType::Performance,
                );
                Self::lemma_bound_grows(efficiency_clusters@, efficiency_before, i as int);
                Self::lemma_bound_grows(performance_clusters@, performance_before, i as int);
            }
            i = i + 1;
        }
        assert(all.take(n as int) =~= all);
        let ghost cores_part = models(metrics@);
        metrics.push(
            Metric::counted(
                String::from_str("cpu.efficiency.idle_ticks"),
                efficiency_idle,
                timestamp,
            ),
        );
        metrics.push(
            Metric::counted(
                String::from_str("cpu.efficiency.total_ticks"),
                efficiency_total,
                timestamp,
            ),
        );
        metrics.push(
            Metric::counted(
                String::from_str("cpu.performance.idle_ticks"),
                performance_idle,
                timestamp,
            ),
        );
        metrics.push(
            Metric::counted(
                String::from_str("cpu.performance.total_ticks"),
                performance_total,
                timestamp,
            ),
        );
        assert(models(metrics@) =~= cores_part + kind_samples(cores, all, timestamp));
        Self::push_cluster_metrics(
            &mut metrics,
            &efficiency_clusters,
            CoreType::Efficiency,
            timestamp,
            Ghost(cores),
            Ghost(all),
        );
        Self::push_cluster_metrics(
            &mut metrics,
            &performance_clusters,
            CoreType::Performance,
            timestamp,
            Ghost(cores),
            Ghost(all),
        );
        metrics
    }

    /// The samples of one snapshot, stamped with the present instant.
    ///
    /// The clock decides the timestamp; the samples are those of `metrics_at`
    /// for it.
    pub fn metrics_now(&self, data: &CPUMetricsData) -> (metrics: Vec<Metric>)
        ensures
            exists|timestamp: i64| models(metrics@) == #[trigger] cpu_samples(*data, timestamp),
    {
        let timestamp = now_millis();
        let metrics = self.metrics_at(data, timestamp);
        assert(models(metrics@) == cpu_samples(*data, timestamp));
        metrics
    }

    /// Sums that were kept for the tick counts but the last, and then took the
    /// last in as `add_to_cluster` does, are the sums for all of them.
    proof fn lemma_sums_follow(
        before: Seq<ClusterTicks>,
        after: Seq<ClusterTicks>,
        cores: Seq<CoreInfo>,
        tick_counts: Seq<CoreTickCounts>,
        kind: CoreType,
    )
        requires
            tick_counts.len() > 0,
            sums_clusters(before, cores, tick_counts.drop_last(), kind),
            counts_for(cores, tick_counts.last(), kind) ==> {
                let cluster_id = found_core(cores, tick_counts.last().core_id)->Some_0.cluster_id;
                &&& ids_of(before).contains(cluster_id) ==> ids_of(after) == ids_of(before)
                &&& !ids_of(before).contains(cluster_id) ==> ids_of(after) == ids_of(before).push(
                    cluster_id,
                )
                &&& after.len() >= before.len()
                &&& forall|k: int|
                    0 <= k < before.len() && before[k].cluster_id != cluster_id ==> (
                    #[trigger] after[k]) == before[k]
                &&& forall|k: int|
                    0 <= k < before.len() && before[k].cluster_id == cluster_id ==> (
                    #[trigger] after[k]).idle == before[k].idle + idle_of(tick_counts.last())
                        && after[k].total == before[k].total + total_of(tick_counts.last())
                &&& !ids_of(before).contains(cluster_id) ==> after.last() == (ClusterTicks {
                    cluster_id,
                    idle: idle_of(tick_counts.last()) as i128,
                    total: total_of(tick_counts.last()) as i128,
                })
            },
            !counts_for(cores, tick_counts.last(), kind) ==> after == before,
        ensures
            sums_clusters(after, cores, tick_counts, kind),
    {
        let earlier = tick_counts.drop_last();
        let last = tick_counts.last();
        if counts_for(cores, last, kind) {
            let cluster_id = found_core(cores, last.core_id)->Some_0.cluster_id;
            assert forall|k: int| 0 <= k < after.len() implies (#[trigger] after[k]).idle
                == cluster_sum(cores, tick_counts, kind, after[k].cluster_id, true)
                && after[k].total == cluster_sum(
                cores,
                tick_counts,
                kind,
                after[k].cluster_id,
                false,
            ) by {
                assert(ids_of(after).len() == after.len());
                assert(ids_of(before).len() == before.len());
                if k < before.len() {
                    assert(ids_of(after)[k] == ids_of(before)[k]);
                    assert(after[k].cluster_id == before[k].cluster_id);
                } else {
                    assert(!ids_of(before).contains(cluster_id));
                    assert(k == before.len());
                    assert(ids_of(after)[k] == cluster_id);
                    assert(after[k] == after.last());
                    Self::lemma_new_cluster_is_empty(cores, earlier, kind, cluster_id);
                }
            }
        } else {
            assert forall|k: int| 0 <= k < after.len() implies (#[trigger] after[k]).idle
                == cluster_sum(cores, tick_counts, kind, after[k].cluster_id, true)
                && after[k].total == cluster_sum(
                cores,
                tick_counts,
                kind,
                after[k].cluster_id,
                false,
            ) by {}
        }
    }

    /// A cluster that the tick counts have not reached has sums of 0.
    proof fn lemma_new_cluster_is_empty(
        cores: Seq<CoreInfo>,
        tick_counts: Seq<CoreTickCounts>,
        kind: CoreType,
        cluster_id: i32,
    )
        requires
            !clusters(cores, tick_counts, kind).contains(cluster_id),
        ensures
            cluster_sum(cores, tick_counts, kind, cluster_id, true) == 0,
            cluster_sum(cores, tick_counts, kind, cluster_id, false) == 0,
        decreases tick_counts.len(),
    {
        if tick_counts.len() > 0 {
            let earlier = clusters(cores, tick_counts.drop_last(), kind);
            let all = clusters(cores, tick_counts, kind);
            if earlier.contains(cluster_id) {
                let j = choose|j: int| 0 <= j < earlier.len() && earlier[j] == cluster_id;
                assert(all[j] == cluster_id);
            }
            if in_cluster(cores, tick_counts.last(), kind, cluster_id) {
                if !earlier.contains(cluster_id) {
                    assert(all[earlier.len() as int] == cluster_id);
                }
            }
            Self::lemma_new_cluster_is_empty(cores, tick_counts.drop_last(), kind, cluster_id);
        }
    }

    /// Sums within the bound for `n` tick counts are within that for `n + 1`.
    proof fn lemma_bound_grows(after: Seq<ClusterTicks>, before: Seq<ClusterTicks>, n: int)
        requires
            n >= 0,
            sums_bounded(before, n),
            after == before || sums_bounded(after, n + 1),
        ensures
            sums_bounded(after, n + 1),
    {
        if after == before {
            assert forall|k: int| 0 <= k < after.len() implies -sum_bound(n + 1) <= (
            #[trigger] after[k]).idle <= sum_bound(n + 1) && -sum_bound(n + 1) <= after[k].total
                <= sum_bound(n + 1) by {
                assert(-sum_bound(n) <= before[k].idle <= sum_bound(n));
            }
        }
    }
}

} // verus!
