//! Points in time and spans of time, in whole nanoseconds.

use vstd::prelude::*;

verus! {

/// A point in time, counted in nanoseconds from an origin that is the same for
/// all the instants handed to one sender.
#[derive(Debug, Clone, Copy, PartialEq, Eq, Structural)]
pub struct Instant {
    /// Nanoseconds since the origin.
    pub nanos: u128,
}

impl View for Instant {
    type V = nat;

    open spec fn view(&self) -> nat {
        self.nanos as nat
    }
}

/// A span of time.
#[derive(Debug, Clone, Copy, PartialEq, Eq, Structural)]
pub struct Duration {
    /// Length of the span in nanoseconds.
    pub nanos: u128,
}

impl View for Duration {
    type V = nat;

    open spec fn view(&self) -> nat {
        self.nanos as nat
    }
}

/// Instants and spans are counted in nanoseconds, so an instant a span later
/// differs by the nanoseconds of the span.
pub proof fn law_time_counts_nanoseconds(at: Instant, span: Duration)
    ensures
        at@ == at.nanos,
        span@ == span.nanos,
        at@ + span@ == at.nanos + span.nanos,
{
}

impl Duration {
    /// The span of the given number of milliseconds.
    pub fn from_millis(millis: u64) -> (r: Duration)
        ensures
            r@ == millis * 1_000_000,
            r.nanos == millis * 1_000_000,
    {
        Duration { nanos: millis as u128 * 1_000_000 }
    }

    /// The whole microseconds contained in the span.
    pub fn as_micros(&self) -> (r: u128)
        ensures
            r == self@ / 1_000,
            r == self.nanos as int / 1_000,
    {
        self.nanos / 1_000
    }
}

impl Instant {
    /// The instant that lies `span` later.
    pub fn plus(&self, span: Duration) -> (r: Instant)
        requires
            self@ + span@ <= u128::MAX,
        ensures
            r@ == self@ + span@,
            r.nanos == self.nanos + span.nanos,
    {
        Instant { nanos: self.nanos + span.nanos }
    }
}

} // verus!
