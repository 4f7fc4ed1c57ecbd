//! Time as the collector reasons about it: points on a monotonic clock and
//! the lengths of time between them, both in whole nanoseconds.

use vstd::prelude::*;

verus! {

/// A point on a monotonic clock, in nanoseconds from an arbitrary origin.
#[derive(Debug, Clone, Copy, PartialEq, Eq, Structural)]
pub struct Moment {
    pub nanos: u64,
}

/// A length of time, in nanoseconds.
#[derive(Debug, Clone, Copy, PartialEq, Eq, Structural)]
pub struct Span {
    pub nanos: u64,
}

/// Nanoseconds in a second.
pub const NANOS_PER_SECOND: u64 = 1_000_000_000;

/// The time from `earlier` to `later`, or nothing when `earlier` is the
/// later of the two, as a monotonic clock's `duration_since` saturates.
pub open spec fn elapsed(earlier: Moment, later: Moment) -> int {
    if later.nanos >= earlier.nanos {
        later.nanos - earlier.nanos
    } else {
        0
    }
}

impl Span {
    /// `seconds` whole seconds.
    pub fn from_secs(seconds: u64) -> (span: Span)
        requires
            seconds * NANOS_PER_SECOND <= u64::MAX,
        ensures
            span.nanos == seconds * NANOS_PER_SECOND,
    {
        Span { nanos: seconds * NANOS_PER_SECOND }
    }

    /// `millis` milliseconds.
    pub fn from_millis(millis: u64) -> (span: Span)
        requires
            millis * 1_000_000 <= u64::MAX,
        ensures
            span.nanos == millis * 1_000_000,
    {
        Span { nanos: millis * 1_000_000 }
    }
}

impl Moment {
    /// The time since `earlier`, or zero when `earlier` is later than this.
    pub fn duration_since(self, earlier: Moment) -> (span: Span)
        ensures
            span.nanos == elapsed(earlier, self),
    {
        if self.nanos >= earlier.nanos {
            Span { nanos: self.nanos - earlier.nanos }
        } else {
            Span { nanos: 0 }
        }
    }
}

} // verus!
