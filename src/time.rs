//! Monotonic instants and durations, counted in nanoseconds.

use vstd::prelude::*;

verus! {

/// Nanoseconds in one millisecond.
pub const NANOS_PER_MILLI: u64 = 1_000_000;

/// Nanoseconds in one second.
pub const NANOS_PER_SEC: u64 = 1_000_000_000;

/// A point on a monotonic clock, in nanoseconds since the clock's origin.
#[derive(Clone, Copy, Debug, PartialEq, Eq, Structural)]
pub struct Instant {
    pub nanos: u64,
}

/// A span of time, in nanoseconds.
#[derive(Clone, Copy, Debug, PartialEq, Eq, Structural)]
pub struct Duration {
    pub nanos: u64,
}

impl Instant {
    /// The instant `nanos` nanoseconds after the clock's origin.
    pub fn from_nanos(nanos: u64) -> (r: Instant)
        ensures
            r.nanos == nanos,
    {
        Instant { nanos }
    }

    /// The time elapsed from `earlier` to `self`, or zero if `earlier` is later.
    pub fn duration_since(&self, earlier: Instant) -> (r: Duration)
        ensures
            earlier.nanos <= self.nanos ==> r.nanos == self.nanos - earlier.nanos,
            earlier.nanos > self.nanos ==> r.nanos == 0,
    {
        if earlier.nanos <= self.nanos {
            Duration { nanos: self.nanos - earlier.nanos }
        } else {
            Duration { nanos: 0 }
        }
    }

    /// The instant `d` after `self`, if the clock can represent it.
    pub fn checked_add(&self, d: Duration) -> (r: Option<Instant>)
        ensures
            self.nanos + d.nanos <= u64::MAX ==> r == Some(Instant { nanos: (self.nanos + d.nanos) as u64 }),
            self.nanos + d.nanos > u64::MAX ==> r is None,
    {
        if d.nanos <= u64::MAX - self.nanos {
            Some(Instant { nanos: self.nanos + d.nanos })
        } else {
            None
        }
    }
}

impl Duration {
    /// A duration of `nanos` nanoseconds.
    pub fn from_nanos(nanos: u64) -> (r: Duration)
        ensures
            r.nanos == nanos,
    {
        Duration { nanos }
    }

    /// A duration of `millis` milliseconds.
    pub fn from_millis(millis: u64) -> (r: Duration)
        requires
            millis * NANOS_PER_MILLI <= u64::MAX,
        ensures
            r.nanos == millis * NANOS_PER_MILLI,
    {
        Duration { nanos: millis * NANOS_PER_MILLI }
    }

    /// The whole number of nanoseconds in this duration.
    pub fn as_nanos(&self) -> (r: u64)
        ensures
            r == self.nanos,
    {
        self.nanos
    }

    /// The whole number of microseconds in this duration.
    pub fn as_micros(&self) -> (r: u64)
        ensures
            r == self.nanos / 1000,
    {
        self.nanos / 1000
    }
}

} // verus!
