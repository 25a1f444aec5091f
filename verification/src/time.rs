//! Spans of time and points on a monotonic clock.

use vstd::prelude::*;

verus! {

/// Nanoseconds in one second.
pub const NANOS_PER_SEC: u32 = 1_000_000_000;

/// A span of time, as whole seconds and a remainder in nanoseconds.
#[derive(Clone, Copy, Debug, Eq, PartialEq, Structural)]
pub struct Duration {
    pub secs: u64,
    pub nanos: u32,
}

impl Duration {
    /// The longest span that can be written down.
    pub open spec fn longest() -> nat {
        (u64::MAX as nat) * 1_000_000_000 + 999_999_999
    }

    /// The length of the span in nanoseconds.
    pub open spec fn length(self) -> nat {
        (self.secs as nat) * 1_000_000_000 + self.nanos as nat
    }

    pub fn from_secs(secs: u64) -> (r: Self)
        ensures
            r == (Duration { secs, nanos: 0 }),
            r.length() == secs * 1_000_000_000,
    {
        Duration { secs, nanos: 0 }
    }

    pub fn from_millis(millis: u64) -> (r: Self)
        ensures
            r == (Duration { secs: millis / 1000, nanos: ((millis % 1000) * 1_000_000) as u32 }),
            r.length() == millis * 1_000_000,
    {
        Duration { secs: millis / 1000, nanos: ((millis % 1000) * 1_000_000) as u32 }
    }

    /// The span of `nanos` nanoseconds, cut to the longest one.
    pub fn from_nanos(nanos: u128) -> (r: Self)
        ensures
            r.nanos < NANOS_PER_SEC,
            r.length() == if nanos <= Self::longest() { nanos as nat } else { Self::longest() },
    {
        let longest: u128 = (u64::MAX as u128) * 1_000_000_000 + 999_999_999;
        if nanos > longest {
            return Duration { secs: u64::MAX, nanos: 999_999_999 };
        }
        let secs: u128 = nanos / 1_000_000_000;
        let rest: u128 = nanos % 1_000_000_000;
        Duration { secs: secs as u64, nanos: rest as u32 }
    }

    pub fn as_nanos(&self) -> (r: u128)
        ensures
            r == self.length(),
    {
        (self.secs as u128) * 1_000_000_000 + self.nanos as u128
    }

    pub fn as_millis(&self) -> (r: u128)
        ensures
            r == self.length() / 1_000_000,
    {
        self.as_nanos() / 1_000_000
    }

    pub fn is_zero(&self) -> (r: bool)
        ensures
            r == (self.length() == 0),
    {
        self.secs == 0 && self.nanos == 0
    }

    /// This span `factor` times over, cut to the longest one.
    pub fn saturating_mul(&self, factor: u32) -> (r: Self)
        ensures
            r.length() == if self.length() * factor <= Self::longest() {
                (self.length() * factor) as nat
            } else {
                Self::longest()
            },
    {
        let span: u128 = self.as_nanos();
        proof {
            assert(span * factor <= (u64::MAX as u128 * 1_000_000_000 + u32::MAX as u128)
                * u32::MAX as u128) by (nonlinear_arith)
                requires
                    span <= u64::MAX as u128 * 1_000_000_000 + u32::MAX as u128,
                    factor <= u32::MAX,
            ;
        }
        Duration::from_nanos(span * (factor as u128))
    }
}

/// A point on the host's monotonic clock, in nanoseconds since an origin of the
/// host's own choice.
#[derive(Clone, Copy, Debug, Eq, PartialEq, Structural)]
pub struct Instant {
    pub nanos: u64,
}

/// Nanoseconds from `then` to `now`, or none when `then` is not in the past.
pub open spec fn elapsed(now: Instant, then: Instant) -> nat {
    if now.nanos >= then.nanos {
        (now.nanos - then.nanos) as nat
    } else {
        0
    }
}

impl Instant {
    pub fn from_nanos(nanos: u64) -> (r: Self)
        ensures
            r == (Instant { nanos }),
    {
        Instant { nanos }
    }

    /// The span since `earlier`, zero when `earlier` lies ahead.
    pub fn saturating_duration_since(&self, earlier: Instant) -> (r: Duration)
        ensures
            r.length() == elapsed(*self, earlier),
    {
        if self.nanos >= earlier.nanos {
            Duration::from_nanos((self.nanos - earlier.nanos) as u128)
        } else {
            Duration { secs: 0, nanos: 0 }
        }
    }

    /// The point `span` after this one, in nanoseconds since the clock's origin.
    pub fn plus(&self, span: Duration) -> (r: u128)
        ensures
            r == self.nanos + span.length(),
    {
        self.nanos as u128 + span.as_nanos()
    }
}

impl View for Instant {
    type V = Instant;

    open spec fn view(&self) -> Instant {
        *self
    }
}

} // verus!
