//! Why an input is refused.

use vstd::prelude::*;

verus! {

/// An input that the library refuses at its boundary.
#[derive(Debug, Clone, Copy, PartialEq, Eq, Structural)]
pub enum ValidationError {
    /// A rate lies beyond the magnitude that the calculator accepts.
    RateOutOfRange,
    /// A tick counter carries a value that is not an integer.
    NotAnInteger,
    /// A tick counter has no readable `core_id` in its metadata.
    MissingCoreId,
    /// A window of zero or fewer seconds.
    WindowNotPositive,
    /// A number that is not finite.
    NotFinite,
    /// A number too large for fixed point.
    OutOfRange,
    /// A collection interval of zero or less.
    IntervalNotPositive,
}

} // verus!
