//! The figures of the graphics processors, turned into samples.

use vstd::prelude::*;
use vstd::string::*;
use crate::clock::now_millis;
use crate::collectors::types::{models, tags_model, Metric, MetricModel, MetricValue, ValueModel};
use crate::decimal::{decimal_string, decimal_text};

verus! {

/// A graphics processor as the snapshot describes it. The two figures are
/// double-precision numbers, held as their IEEE 754 bit patterns.
#[derive(Debug, Clone, PartialEq, Eq)]
pub struct GPUInfo {
    pub name: String,
    pub utilization: Option<u64>,
    pub temperature: Option<u64>,
}

/// The collector of the graphics processors' figures.
pub struct AppleSiliconGPUCollector;

/// The tags of a processor's samples: its name and its place in the snapshot.
pub open spec fn gpu_tags(name: Seq<char>, index: int) -> Seq<(Seq<char>, Seq<char>)> {
    seq![("gpu_name"@, name), ("gpu_index"@, decimal_text(index))]
}

/// One figure of a processor as a sample.
pub open spec fn gpu_sample(
    metric: Seq<char>,
    bits: u64,
    name: Seq<char>,
    index: int,
    timestamp: i64,
) -> MetricModel {
    MetricModel {
        name: metric,
        value: ValueModel::Float(bits),
        timestamp,
        metadata: gpu_tags(name, index),
    }
}

/// The samples of one processor: its utilization and its temperature, each
/// where the snapshot has it.
pub open spec fn gpu_samples_of(info: GPUInfo, index: int, timestamp: i64) -> Seq<MetricModel> {
    let utilization = match info.utilization {
        Some(bits) => seq![gpu_sample("gpu_utilization"@, bits, info.name@, index, timestamp)],
        None => Seq::empty(),
    };
    let temperature = match info.temperature {
        Some(bits) => seq![gpu_sample("gpu_temperature"@, bits, info.name@, index, timestamp)],
        None => Seq::empty(),
    };
    utilization + temperature
}

/// The samples of all processors, in the order of the snapshot.
pub open spec fn gpu_samples(infos: Seq<GPUInfo>, timestamp: i64) -> Seq<MetricModel>
    decreases infos.len(),
{
    if infos.len() == 0 {
        Seq::empty()
    } else {
        gpu_samples(infos.drop_last(), timestamp) + gpu_samples_of(
            infos.last(),
            infos.len() - 1,
            timestamp,
        )
    }
}

impl AppleSiliconGPUCollector {
    /// A collector of the graphics processors' figures.
    pub fn new() -> Self {
        Self
    }

    /// The name of this collector.
    pub fn name(&self) -> (name: &'static str)
        ensures
            name@ == "apple_silicon_gpu"@,
    {
        "apple_silicon_gpu"
    }

    /// The tags of a processor's samples.
    pub fn tags(name: &String, index: usize) -> (metadata: Vec<(String, String)>)
        ensures
            tags_model(metadata@) == gpu_tags(name@, index as int),
    {
        let mut metadata: Vec<(String, String)> = Vec::new();
        metadata.push((String::from_str("gpu_name"), name.clone()));
        metadata.push((String::from_str("gpu_index"), decimal_string(index as i128)));
        assert(tags_model(metadata@) =~= gpu_tags(name@, index as int));
        metadata
    }

    /// The samples of one snapshot, stamped with `timestamp`.
    pub fn metrics_at(&self, infos: &Vec<GPUInfo>, timestamp: i64) -> (metrics: Vec<Metric>)
        ensures
            models(metrics@) == gpu_samples(infos@, timestamp),
    {
        let n = infos.len();
        let mut metrics: Vec<Metric> = Vec::new();
        let mut i: usize = 0;
        assert(models(metrics@) =~= Seq::empty());
        while i < n
            invariant
                i <= n,
                n == infos@.len(),
                models(metrics@) == gpu_samples(infos@.take(i as int), timestamp),
            decreases n - i,
        {
            let info = &infos[i];
            assert(infos@.take(i + 1).drop_last() =~= infos@.take(i as int));
            assert(infos@.take(i + 1).last() == *info);
            let ghost before = models(metrics@);
            let ghost utilization: Seq<MetricModel> = match info.utilization {
                Some(bits) => seq![
                    gpu_sample("gpu_utilization"@, bits, info.name@, i as int, timestamp),
                ],
                None => Seq::empty(),
            };
            match info.utilization {
                Some(bits) => {
                    let ghost was = metrics@;
                    let sample = Metric {
                        name: String::from_str("gpu_utilization"),
                        value: MetricValue::Float(bits),
                        timestamp,
                        metadata: Self::tags(&info.name, i),
                    };
                    metrics.push(sample);
                    assert(models(metrics@) =~= models(was).push(sample@));
                },
                None => {},
            }
            assert(models(metrics@) =~= before + utilization);
            match info.temperature {
                Some(bits) => {
                    let ghost was = metrics@;
                    let sample = Metric {
                        name: String::from_str("gpu_temperature"),
                        value: MetricValue::Float(bits),
                        timestamp,
                        metadata: Self::tags(&info.name, i),
                    };
                    metrics.push(sample);
                    assert(models(metrics@) =~= models(was).push(sample@));
                },
                None => {},
            }
            assert(models(metrics@) =~= before + gpu_samples_of(*info, i as int, timestamp));
            i = i + 1;
        }
        assert(infos@.take(n as int) =~= infos@);
        metrics
    }

    /// The samples of one snapshot, stamped with the present instant.
    ///
    /// The clock decides the timestamp; the samples are those of `metrics_at`
    /// for it.
    pub fn metrics_now(&self, infos: &Vec<GPUInfo>) -> (metrics: Vec<Metric>)
        ensures
            exists|timestamp: i64| models(metrics@) == #[trigger] gpu_samples(infos@, timestamp),
    {
        let timestamp = now_millis();
        let metrics = self.metrics_at(infos, timestamp);
        assert(models(metrics@) == gpu_samples(infos@, timestamp));
        metrics
    }
}

} // verus!
