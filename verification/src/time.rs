//! Points in time and spans of time, in whole nanoseconds.
use vstd::prelude::*;

verus! {

/// Nanoseconds: a span, or a point counted from a start that the caller chooses.
pub type Nanos = u64;

/// Nanoseconds per millisecond.
pub const NANOS_PER_MILLI: u64 = 1_000_000;

/// Nanoseconds per second.
pub const NANOS_PER_SEC: u64 = 1_000_000_000;

/// A span of whole milliseconds.
pub fn millis(count: u64) -> (span: Nanos)
    requires
        count * NANOS_PER_MILLI <= u64::MAX,
    ensures
        span == count * NANOS_PER_MILLI,
{
    count * NANOS_PER_MILLI
}

/// A span of whole seconds.
pub fn secs(count: u64) -> (span: Nanos)
    requires
        count * NANOS_PER_SEC <= u64::MAX,
    ensures
        span == count * NANOS_PER_SEC,
{
    count * NANOS_PER_SEC
}

} // verus!
