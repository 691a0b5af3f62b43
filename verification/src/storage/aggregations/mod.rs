//! Aggregations over the stored samples, and the registry that holds them.

use vstd::prelude::*;
use crate::collectors::types::{CoreType, Metric};
use crate::storage::aggregations::apple_silicon_cpu::{AppleSiliconCPU, CPURate, ClusterAggregate};
use crate::storage::aggregations::rates::PartitionRate;
use crate::text::same_text;
use crate::validation::ValidationError;

pub mod rates;
pub mod samples;
pub mod apple_silicon_cpu;

verus! {

/// What an aggregation computed.
#[derive(Debug, Clone, PartialEq, Eq)]
pub struct AggregationData {
    /// One row per core that has a rate, ascending by core.
    pub per_core_rates: Vec<CPURate>,
    /// One row per kind of core that has a rate.
    pub cluster_aggregates: Vec<ClusterAggregate>,
    /// One row per cluster of efficiency cores that has a rate, ascending by
    /// cluster.
    pub efficiency_clusters: Vec<ClusterAggregate>,
    /// One row per cluster of performance cores that has a rate, ascending
    /// by cluster.
    pub performance_clusters: Vec<ClusterAggregate>,
    /// The most recent rate of every partition that has one, ascending by
    /// core and counter.
    pub partition_rates: Vec<PartitionRate>,
    /// The window that was used, in seconds.
    pub window_seconds: i64,
}

/// The outcome of an aggregation, under the aggregation's name.
#[derive(Debug, Clone, PartialEq, Eq)]
pub struct AggregationResult {
    pub name: String,
    pub data: AggregationData,
}

/// Why an aggregation has no result, and where the fault lies.
#[derive(Debug, Clone, Copy, PartialEq, Eq)]
pub enum AggregationFailure {
    /// The window that was asked for has no length.
    WindowNotPositive { window_seconds: i64 },
    /// A sample of the window is malformed: its position among the
    /// samples, and what is wrong with it.
    MalformedSample { position: usize, reason: ValidationError },
    /// The rates of a kind of core, or of one of its clusters, add up to more
    /// than `RATE_LIMIT` millionths of a tick per second.
    SumOutOfRange { core_type: CoreType, cluster_id: Option<i32> },
}

/// Why the registry has no result.
#[derive(Debug, Clone, Copy, PartialEq, Eq)]
pub enum AggregationError {
    /// No aggregation is registered under the name.
    UnknownAggregation,
    /// The aggregation refused its input.
    Invalid(AggregationFailure),
}

/// A computation over the stored samples.
pub trait Aggregation {
    /// The name, as a sequence of characters.
    spec fn label(&self) -> Seq<char>;

    /// The description, as a sequence of characters.
    spec fn summary(&self) -> Seq<char>;

    /// Whether `result` is what the aggregation gives for the samples, the
    /// present instant and the parameters.
    spec fn produces(
        &self,
        metrics: Seq<Metric>,
        now: i64,
        params: Seq<(String, String)>,
        result: Result<AggregationResult, AggregationFailure>,
    ) -> bool;

    /// Name of the aggregation.
    fn name(&self) -> (name: &str)
        ensures
            name@ == self.label(),
    ;

    /// Runs the aggregation over the samples as they stand at `now`.
    fn execute(&self, metrics: &Vec<Metric>, now: i64, params: &Vec<(String, String)>) -> (result:
        Result<AggregationResult, AggregationFailure>)
        ensures
            self.produces(metrics@, now, params@, result),
    ;

    /// Description of the aggregation.
    fn description(&self) -> (description: &str)
        ensures
            description@ == self.summary(),
    ;
}

/// The aggregations that can be run, each under its own name.
///
/// A registry holds aggregations of one type; an enum that implements
/// `Aggregation` lets it hold several kinds.
pub struct AggregationRegistry<A: Aggregation> {
    /// In the order in which the names were first registered.
    pub aggregations: Vec<A>,
}

/// Whether `i` is the first place at which `name` stands among the
/// aggregations.
pub open spec fn is_first_named<A: Aggregation>(aggregations: Seq<A>, name: Seq<char>, i: int)
    -> bool {
    &&& 0 <= i < aggregations.len()
    &&& aggregations[i].label() == name
    &&& forall|k: int| 0 <= k < i ==> (#[trigger] aggregations[k]).label() != name
}

/// The first place at which `name` stands among the aggregations, if it
/// stands anywhere.
pub open spec fn position_of<A: Aggregation>(aggregations: Seq<A>, name: Seq<char>) -> Option<
    int,
> {
    if exists|i: int| is_first_named(aggregations, name, i) {
        Some(choose|i: int| is_first_named(aggregations, name, i))
    } else {
        None
    }
}

/// The first place of a name is its position, and a name that stands nowhere
/// has none.
proof fn lemma_position_of<A: Aggregation>(
    aggregations: Seq<A>,
    name: Seq<char>,
    found: Option<int>,
)
    requires
        match found {
            Some(i) => is_first_named(aggregations, name, i),
            None => forall|k: int|
                0 <= k < aggregations.len() ==> (#[trigger] aggregations[k]).label() != name,
        },
    ensures
        position_of(aggregations, name) == found,
{
    match found {
        Some(i) => {
            let chosen = choose|c: int| is_first_named(aggregations, name, c);
            if chosen < i {
                assert(aggregations[chosen].label() != name);
            } else if chosen > i {
                assert(aggregations[i].label() != name);
            }
        },
        None => {
            if exists|i: int| is_first_named(aggregations, name, i) {
                let i = choose|i: int| is_first_named(aggregations, name, i);
                assert(aggregations[i].label() != name);
            }
        },
    }
}

impl AggregationRegistry<AppleSiliconCPU> {
    /// A registry with the built-in aggregation.
    pub fn new() -> (registry: Self)
        ensures
            registry.wf(),
            registry.aggregations@.len() == 1,
            registry.aggregations@[0].label() == "apple_silicon_cpu"@,
    {
        let mut registry = Self { aggregations: Vec::new() };
        proof {
            lemma_position_of(registry.aggregations@, AppleSiliconCPU.label(), None);
        }
        registry.register(AppleSiliconCPU::new());
        registry
    }
}

impl<A: Aggregation> AggregationRegistry<A> {
    /// Whether no name is registered twice.
    pub open spec fn wf(&self) -> bool {
        forall|i: int, j: int|
            0 <= i < j < self.aggregations@.len() ==> (#[trigger] self.aggregations@[i]).label() != (
            #[trigger] self.aggregations@[j]).label()
    }

    /// Whether no name is registered twice.
    pub fn is_consistent(&self) -> (consistent: bool)
        ensures
            consistent == self.wf(),
    {
        let n = self.aggregations.len();
        let mut j: usize = 0;
        while j < n
            invariant
                j <= n,
                n == self.aggregations@.len(),
                forall|a: int, b: int|
                    0 <= a < b < j ==> (#[trigger] self.aggregations@[a]).label() != (
                    #[trigger] self.aggregations@[b]).label(),
            decreases n - j,
        {
            let mut i: usize = 0;
            while i < j
                invariant
                    i <= j < n,
                    n == self.aggregations@.len(),
                    forall|a: int|
                        0 <= a < i ==> (#[trigger] self.aggregations@[a]).label()
                            != self.aggregations@[j as int].label(),
                decreases j - i,
            {
                if same_text(self.aggregations[i].name(), self.aggregations[j].name()) {
                    return false;
                }
                i = i + 1;
            }
            j = j + 1;
        }
        true
    }

    /// The first position of an aggregation registered under `name`.
    pub fn find(&self, name: &str) -> (position: Option<usize>)
        ensures
            position_of(self.aggregations@, name@) == match position {
                Some(i) => Some(i as int),
                None => None,
            },
            match position {
                Some(i) => is_first_named(self.aggregations@, name@, i as int),
                None => forall|k: int|
                    0 <= k < self.aggregations@.len() ==> (
                    #[trigger] self.aggregations@[k]).label() != name@,
            },
    {
        let mut i: usize = 0;
        while i < self.aggregations.len()
            invariant
                i <= self.aggregations@.len(),
                forall|k: int| 0 <= k < i ==> (#[trigger] self.aggregations@[k]).label() != name@,
            decreases self.aggregations@.len() - i,
        {
            if same_text(self.aggregations[i].name(), name) {
                proof {
                    lemma_position_of(self.aggregations@, name@, Some(i as int));
                }
                return Some(i);
            }
            i = i + 1;
        }
        proof {
            lemma_position_of(self.aggregations@, name@, None);
        }
        None
    }

    /// Registers an aggregation under its name; one that was registered
    /// under the same name gives way to it.
    pub fn register(&mut self, aggregation: A)
        ensures
            old(self).wf() ==> final(self).wf(),
            match position_of(old(self).aggregations@, aggregation.label()) {
                Some(i) => final(self).aggregations@ == old(self).aggregations@.update(
                    i,
                    aggregation,
                ),
                None => final(self).aggregations@ == old(self).aggregations@.push(aggregation),
            },
    {
        let ghost before = self.aggregations@;
        let ghost label = aggregation.label();
        match self.find(aggregation.name()) {
            Some(i) => {
                self.aggregations.set(i, aggregation);
                proof {
                    if old(self).wf() {
                        assert forall|a: int, b: int|
                            0 <= a < b < self.aggregations@.len() implies (
                        #[trigger] self.aggregations@[a]).label() != (
                        #[trigger] self.aggregations@[b]).label() by {
                            assert(before[a].label() != before[b].label());
                            assert(before[i as int].label() == label);
                        }
                    }
                }
            },
            None => {
                self.aggregations.push(aggregation);
                proof {
                    if old(self).wf() {
                        assert forall|a: int, b: int|
                            0 <= a < b < self.aggregations@.len() implies (
                        #[trigger] self.aggregations@[a]).label() != (
                        #[trigger] self.aggregations@[b]).label() by {
                            if b < before.len() {
                                assert(before[a].label() != before[b].label());
                            } else {
                                assert(before[a].label() != label);
                            }
                        }
                    }
                }
            },
        }
    }

    /// Runs the first aggregation registered under `name`.
    pub fn execute(
        &self,
        name: &str,
        metrics: &Vec<Metric>,
        now: i64,
        params: &Vec<(String, String)>,
    ) -> (result: Result<AggregationResult, AggregationError>)
        ensures
            match position_of(self.aggregations@, name@) {
                None => result is Err && result->Err_0 == AggregationError::UnknownAggregation,
                Some(i) => match result {
                    Ok(found) => self.aggregations@[i].produces(
                        metrics@,
                        now,
                        params@,
                        Ok(found),
                    ),
                    Err(AggregationError::Invalid(e)) => self.aggregations@[i].produces(
                        metrics@,
                        now,
                        params@,
                        Err(e),
                    ),
                    Err(AggregationError::UnknownAggregation) => false,
                },
            },
    {
        match self.find(name) {
            None => Err(AggregationError::UnknownAggregation),
            Some(i) => match self.aggregations[i].execute(metrics, now, params) {
                Ok(found) => Ok(found),
                Err(e) => Err(AggregationError::Invalid(e)),
            },
        }
    }

    /// The name and the description of every aggregation, in the order of
    /// registration.
    pub fn list(&self) -> (entries: Vec<(&str, &str)>)
        ensures
            entries@.len() == self.aggregations@.len(),
            forall|i: int|
                0 <= i < entries@.len() ==> (#[trigger] entries@[i]).0@ == self.aggregations@[i].label()
                    && entries@[i].1@ == self.aggregations@[i].summary(),
    {
        let mut entries: Vec<(&str, &str)> = Vec::new();
        let mut i: usize = 0;
        while i < self.aggregations.len()
            invariant
                i <= self.aggregations@.len(),
                entries@.len() == i,
                forall|k: int|
                    0 <= k < i ==> (#[trigger] entries@[k]).0@ == self.aggregations@[k].label()
                        && entries@[k].1@ == self.aggregations@[k].summary(),
            decreases self.aggregations@.len() - i,
        {
            entries.push((self.aggregations[i].name(), self.aggregations[i].description()));
            i = i + 1;
        }
        entries
    }
}

impl Default for AggregationRegistry<AppleSiliconCPU> {
    fn default() -> (registry: Self)
        ensures
            registry.wf(),
            registry.aggregations@.len() == 1,
            registry.aggregations@[0].label() == "apple_silicon_cpu"@,
    {
        Self::new()
    }
}

} // verus!
