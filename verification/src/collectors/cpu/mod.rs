//! The processor's counters.

use vstd::prelude::*;
use crate::collectors::cpu::apple_silicon::{cpu_samples, AppleSiliconCPUCollector, CPUMetricsData};
use crate::collectors::types::{models, Metric};

pub mod apple_silicon;

verus! {

/// The collector of processor counters.
pub struct CPUCollector {
    pub apple_silicon: AppleSiliconCPUCollector,
}

impl CPUCollector {
    /// A collector of processor counters.
    pub fn new() -> Self {
        Self { apple_silicon: AppleSiliconCPUCollector::new() }
    }

    /// The name of this collector.
    pub fn name(&self) -> (name: &'static str)
        ensures
            name@ == "cpu"@,
    {
        "cpu"
    }

    /// The samples of one snapshot of the counters; without a snapshot there
    /// are none.
    pub fn metrics_at(&self, snapshot: Option<&CPUMetricsData>, timestamp: i64) -> (metrics: Vec<
        Metric,
    >)
        ensures
            models(metrics@) == match snapshot {
                Some(data) => cpu_samples(*data, timestamp),
                None => Seq::empty(),
            },
    {
        match snapshot {
            Some(data) => self.apple_silicon.metrics_at(data, timestamp),
            None => {
                let metrics: Vec<Metric> = Vec::new();
                assert(models(metrics@) =~= Seq::empty());
                metrics
            },
        }
    }
}

} // verus!
