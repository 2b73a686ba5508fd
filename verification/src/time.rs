//! Spans of time.
use vstd::prelude::*;

verus! {

/// A span of time, in nanoseconds.
#[derive(Clone, Copy, Debug, PartialEq, Eq, Structural)]
pub struct Duration {
    /// The nanoseconds.
    pub nanos: u128,
}

impl Duration {
    /// Whole seconds.
    pub fn from_secs(secs: u64) -> (r: Self)
        ensures
            r.nanos == secs * 1_000_000_000,
    {
        Duration { nanos: secs as u128 * 1_000_000_000u128 }
    }

    /// Whole milliseconds.
    pub fn from_millis(millis: u64) -> (r: Self)
        ensures
            r.nanos == millis * 1_000_000,
    {
        Duration { nanos: millis as u128 * 1_000_000u128 }
    }

    /// What is left of this span after another one, or none of it.
    pub fn saturating_sub(self, other: Duration) -> (r: Self)
        ensures
            r.nanos == (if other.nanos <= self.nanos {
                self.nanos - other.nanos
            } else {
                0
            }),
    {
        Duration { nanos: self.nanos.saturating_sub(other.nanos) }
    }
}

} // verus!
