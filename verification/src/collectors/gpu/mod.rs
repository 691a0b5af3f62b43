//! The graphics processor's figures.

use vstd::prelude::*;
use crate::collectors::gpu::apple_silicon::{gpu_samples, AppleSiliconGPUCollector, GPUInfo};
use crate::collectors::types::{models, Metric};

pub mod apple_silicon;

verus! {

/// The collector of graphics processor figures.
pub struct GPUCollector {
    pub apple_silicon: AppleSiliconGPUCollector,
}

impl GPUCollector {
    /// A collector of graphics processor figures.
    pub fn new() -> Self {
        Self { apple_silicon: AppleSiliconGPUCollector::new() }
    }

    /// The name of this collector.
    pub fn name(&self) -> (name: &'static str)
        ensures
            name@ == "gpu"@,
    {
        "gpu"
    }

    /// The samples of one snapshot; without a snapshot there are none.
    pub fn metrics_at(&self, snapshot: Option<&Vec<GPUInfo>>, timestamp: i64) -> (metrics: Vec<
        Metric,
    >)
        ensures
            models(metrics@) == match snapshot {
                Some(infos) => gpu_samples(infos@, timestamp),
                None => Seq::empty(),
            },
    {
        match snapshot {
            Some(infos) => self.apple_silicon.metrics_at(infos, timestamp),
            None => {
                let metrics: Vec<Metric> = Vec::new();
                assert(models(metrics@) =~= Seq::empty());
                metrics
            },
        }
    }
}

} // verus!
