//! Timestamps as integer Unix seconds plus a sub-second nanosecond count.
//!
//! The service speaks of instants as fractional Unix seconds; this library
//! models such an instant exactly, as whole seconds since the epoch (UTC)
//! together with nanoseconds, and converts to and from the wire's decimal
//! text in `num`.

use vstd::prelude::*;

verus! {

/// Nanoseconds in one second.
pub const NANOS_PER_SEC: u32 = 1_000_000_000;

/// Largest second count a `Timestamp` may carry (far beyond any plausible
/// service timestamp, and small enough that whole-nanosecond arithmetic
/// stays within `i64`).
pub const MAX_SECS: i64 = 9_000_000_000;

/// An instant: whole Unix seconds (UTC) and nanoseconds within the second.
#[derive(Clone, Copy, PartialEq, Eq, Structural, Debug)]
pub struct Timestamp {
    /// Whole seconds since the Unix epoch.
    pub secs: i64,
    /// Nanoseconds within the second.
    pub nanos: u32,
}

impl Timestamp {
    /// A timestamp is well formed when the nanosecond part is a proper
    /// sub-second count and the second count is a bounded, non-negative
    /// epoch offset.
    pub open spec fn wf(self) -> bool {
        0 <= self.secs <= MAX_SECS && self.nanos < NANOS_PER_SEC
    }

    /// The instant as a whole number of nanoseconds since the epoch.
    pub open spec fn total_nanos(self) -> int {
        self.secs * (NANOS_PER_SEC as int) + self.nanos
    }

    /// Build a timestamp from its parts.
    pub fn new(secs: i64, nanos: u32) -> (r: Timestamp)
        requires
            0 <= secs <= MAX_SECS,
            nanos < NANOS_PER_SEC,
        ensures
            r == (Timestamp { secs, nanos }),
            r.wf(),
    {
        Timestamp { secs, nanos }
    }

    /// Build a timestamp from whole seconds, as the rate-limit reset header
    /// is given: no sub-second part.
    pub fn from_unix_seconds(secs: i64) -> (r: Timestamp)
        requires
            0 <= secs <= MAX_SECS,
        ensures
            r == (Timestamp { secs, nanos: 0u32 }),
            r.wf(),
            r.total_nanos() == secs * (NANOS_PER_SEC as int),
    {
        Timestamp { secs, nanos: 0 }
    }

    /// Magnitude of the difference between two instants, in whole
    /// milliseconds (the fraction of a millisecond is dropped).
    pub fn abs_diff_millis(&self, other: &Timestamp) -> (r: u64)
        requires
            self.wf(),
            other.wf(),
        ensures
            r == abs_diff(self.total_nanos(), other.total_nanos()) / 1_000_000,
    {
        let a: i64 = self.secs * (NANOS_PER_SEC as i64) + (self.nanos as i64);
        let b: i64 = other.secs * (NANOS_PER_SEC as i64) + (other.nanos as i64);
        let d: i64 = if a >= b {
            a - b
        } else {
            b - a
        };
        (d / 1_000_000) as u64
    }
}

/// Magnitude of the difference of two mathematical integers.
pub open spec fn abs_diff(a: int, b: int) -> int {
    if a >= b {
        a - b
    } else {
        b - a
    }
}

} // verus!
