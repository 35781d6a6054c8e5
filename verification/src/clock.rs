//! Points in time and spans of time, counted in nanoseconds.
use vstd::prelude::*;

verus! {

/// A span of time.
#[derive(Clone, Copy, Debug, PartialEq, Eq, Structural)]
pub struct Duration {
    /// Length of the span in nanoseconds.
    pub nanos: u128,
}

/// A point in time, counted from the start of a [`Clock`].
#[derive(Clone, Copy, Debug, PartialEq, Eq, Structural)]
pub struct Moment {
    /// Nanoseconds since the clock started.
    pub nanos: u64,
}

impl Duration {
    /// A span of whole seconds.
    pub fn from_secs(secs: u64) -> (d: Duration)
        ensures
            d.nanos == secs * 1_000_000_000,
    {
        Duration { nanos: secs as u128 * 1_000_000_000 }
    }

    /// A span of whole milliseconds.
    pub fn from_millis(millis: u64) -> (d: Duration)
        ensures
            d.nanos == millis * 1_000_000,
    {
        Duration { nanos: millis as u128 * 1_000_000 }
    }

    /// Whether the span is empty.
    pub fn is_zero(self) -> (r: bool)
        ensures
            r == (self.nanos == 0),
    {
        self.nanos == 0
    }

    /// The shorter of two spans.
    pub fn min(self, other: Duration) -> (r: Duration)
        ensures
            r == if self.nanos <= other.nanos { self } else { other },
    {
        if self.nanos <= other.nanos {
            self
        } else {
            other
        }
    }
}

impl Moment {
    /// Nanoseconds from `earlier` to `self`; zero where `earlier` is the later one.
    pub open spec fn nanos_since(self, earlier: Moment) -> nat {
        if self.nanos >= earlier.nanos {
            (self.nanos - earlier.nanos) as nat
        } else {
            0
        }
    }

    /// Whether `self` lies at least `span` after `earlier`.
    pub open spec fn at_least_after(self, earlier: Moment, span: Duration) -> bool {
        self.nanos_since(earlier) >= span.nanos
    }

    /// Whether `self` lies more than `span` after `earlier`.
    pub open spec fn more_than_after(self, earlier: Moment, span: Duration) -> bool {
        self.nanos_since(earlier) > span.nanos
    }

    /// The span from `earlier` to `self`; empty where `earlier` is the later one.
    pub fn duration_since(self, earlier: Moment) -> (d: Duration)
        ensures
            d.nanos == self.nanos_since(earlier),
            d.nanos <= u64::MAX,
    {
        if self.nanos >= earlier.nanos {
            Duration { nanos: (self.nanos - earlier.nanos) as u128 }
        } else {
            Duration { nanos: 0 }
        }
    }

    /// The moment at which a clock has run for a number of nanoseconds.
    pub fn after_start(nanos: u64) -> (t: Moment)
        ensures
            t.nanos == nanos,
    {
        Moment { nanos }
    }

    /// Whether the instant `span` after `self` can be counted.
    pub fn can_advance(self, span: Duration) -> (r: bool)
        ensures
            r == (self.nanos + span.nanos <= u64::MAX),
    {
        span.nanos <= (u64::MAX - self.nanos) as u128
    }

    /// The instant that lies `span` after `self`.
    pub fn advance(self, span: Duration) -> (t: Moment)
        requires
            self.nanos + span.nanos <= u64::MAX,
        ensures
            t.nanos == self.nanos + span.nanos,
    {
        Moment { nanos: self.nanos + span.nanos as u64 }
    }
}

/// The time between two moments, added to the earlier, is the later; from a later to an earlier moment
/// there is none. A moment lies at least a span after another if and only if the span, added to the
/// other, does not pass it, and more than the span if and only if that does not reach it.
pub proof fn law_time_between_moments(a: Moment, b: Moment, span: Duration)
    ensures
        a.nanos <= b.nanos ==> a.nanos + b.nanos_since(a) == b.nanos,
        a.nanos >= b.nanos ==> b.nanos_since(a) == 0,
        span.nanos > 0 ==> (b.at_least_after(a, span) <==> a.nanos + span.nanos <= b.nanos),
        span.nanos == 0 ==> b.at_least_after(a, span),
        b.more_than_after(a, span) <==> a.nanos + span.nanos < b.nanos,
{
}

/// `quanta::Instant`, a reading of the process clock.
#[verifier::external_type_specification]
#[verifier::external_body]
pub struct ExReading(quanta::Instant);

/// `quanta::Instant::now` reads the process clock. Which reading it gives is left open.
pub assume_specification[ quanta::Instant::now ]() -> quanta::Instant
;

/// `quanta::Instant::elapsed`: the nanoseconds between a reading and the present, which is zero
/// where the clock ran backwards. The value depends on the time of the call, so nothing is
/// claimed of it.
#[verifier::external_body]
fn nanos_elapsed(since: &quanta::Instant) -> u64 {
    since.elapsed().as_nanos() as u64
}

/// A monotonic clock.
pub struct Clock {
    origin: quanta::Instant,
}

impl Clock {
    /// Starts a clock.
    pub fn start() -> Clock {
        Clock { origin: quanta::Instant::now() }
    }

    /// The present, counted from the start of the clock.
    pub fn now(&self) -> Moment {
        Moment::after_start(nanos_elapsed(&self.origin))
    }
}

} // verus!
