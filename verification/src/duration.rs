//! Spans of time with nanosecond resolution.

use vstd::prelude::*;

verus! {

pub const NANOS_PER_SEC: u32 = 1_000_000_000;

/// A non-negative span of time: whole seconds and the nanoseconds beyond them.
#[derive(Debug, Clone, Copy, PartialEq, Eq, Structural)]
pub struct Duration {
    pub secs: u64,
    pub nanos: u32,
}

impl Duration {
    /// The nanoseconds beyond the whole seconds stay below one second.
    pub open spec fn wf(self) -> bool {
        self.nanos < NANOS_PER_SEC
    }

    /// The length in nanoseconds.
    pub open spec fn total_nanos(self) -> nat {
        (self.secs * NANOS_PER_SEC + self.nanos) as nat
    }

    pub fn from_millis(millis: u64) -> (d: Self)
        ensures
            d.wf(),
            d.total_nanos() == millis * 1_000_000,
    {
        Duration { secs: millis / 1000, nanos: (millis % 1000) as u32 * 1_000_000 }
    }

    /// The whole milliseconds in this span.
    pub fn as_millis(&self) -> (millis: u128)
        requires
            self.wf(),
        ensures
            millis == self.total_nanos() / 1_000_000,
    {
        self.secs as u128 * 1000 + (self.nanos / 1_000_000) as u128
    }
}

/// Two well-formed spans of equal length are equal.
pub proof fn lemma_duration_is_its_length(a: Duration, b: Duration)
    requires
        a.wf(),
        b.wf(),
        a.total_nanos() == b.total_nanos(),
    ensures
        a == b,
{
}

/// A span made of milliseconds holds exactly that many of them.
pub proof fn lemma_millis_round_trip(millis: u64, d: Duration)
    requires
        d.wf(),
        d.total_nanos() == millis * 1_000_000,
    ensures
        d.total_nanos() / 1_000_000 == millis,
{
}

} // verus!
