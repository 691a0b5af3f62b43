//! What the collectors produce.

pub mod types;
pub mod cpu;
pub mod gpu;
pub mod summary;
pub mod schedule;

pub use crate::collectors::cpu::CPUCollector;
pub use crate::collectors::gpu::GPUCollector;
pub use crate::collectors::types::{CoreType, Metric, MetricValue};
