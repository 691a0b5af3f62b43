//! Sampling of hardware counters turned into utilization figures and compact
//! charts.
//!
//! The crate holds the computing half of a metrics collector: the rate engine
//! that differences cumulative tick counters inside a trailing window, the
//! utilization calculator, the two chart encoders and the chart cache, together
//! with the value types they share. No quantity is a floating-point number
//! here. A rate is stated without loss, as a numerator over a denominator; a
//! sum of rates to ninety binary places (see [`wide`]); a utilization as the
//! share of one sum in another; the values of a chart in fixed point (see
//! [`fixed`]). Each result is so stated exactly in the contracts.
//!
//! Reading counters from the machine and reading or writing the database is
//! the caller's part; the library takes and returns plain values.

pub mod text;
pub mod decimal;
pub mod fixed;
pub mod wide;
pub mod ieee754;
pub mod order;
pub mod validation;
pub mod utilization;
pub mod clock;
pub mod ident;
pub mod collectors;
pub mod storage;

