//! Time as plain numbers: spans, points on a monotonic scale, and the clock
//! that reads them.
//!
//! A [`Duration`] is a count of nanoseconds. An [`Instant`] is the number of
//! nanoseconds between a clock's origin and a point in time, so instants of
//! one clock are ordered like the numbers they hold. A clock fixes its origin
//! when it is started and measures every reading from there; each timer has
//! one of its own.

use vstd::prelude::*;

verus! {

/// Nanoseconds in one millisecond.
pub const NANOS_PER_MILLI: u128 = 1_000_000;

/// Nanoseconds in one second.
pub const NANOS_PER_SEC: u128 = 1_000_000_000;

/// The nanoseconds in `millis` milliseconds.
pub open spec fn nanos_of_millis(millis: nat) -> nat {
    millis * (NANOS_PER_MILLI as nat)
}

/// The nanoseconds in `secs` seconds.
pub open spec fn nanos_of_secs(secs: nat) -> nat {
    secs * (NANOS_PER_SEC as nat)
}

/// The whole milliseconds in `nanos` nanoseconds; what is left of a
/// millisecond is dropped.
pub open spec fn whole_millis(nanos: nat) -> nat {
    nanos / (NANOS_PER_MILLI as nat)
}

/// `n` where it fits into 32 bits, else the largest 32-bit number.
pub open spec fn saturated_u32(n: nat) -> u32 {
    if n <= u32::MAX {
        n as u32
    } else {
        u32::MAX
    }
}

/// The nanoseconds from the instant `earlier` to the instant `later`, both
/// given in nanoseconds from one origin; nothing where `later` is in fact the
/// earlier of the two.
pub open spec fn nanos_between(earlier: nat, later: nat) -> nat {
    if earlier <= later {
        (later - earlier) as nat
    } else {
        0
    }
}

/// A non-negative span of time, counted in whole nanoseconds.
#[derive(Clone, Copy, Debug, PartialEq, Eq, Structural)]
pub struct Duration {
    nanos: u128,
}

impl View for Duration {
    type V = nat;

    /// The length of the span in nanoseconds.
    closed spec fn view(&self) -> nat {
        self.nanos as nat
    }
}

impl Duration {
    /// No span is longer than 128 bits of nanoseconds.
    pub proof fn lemma_in_range(self)
        ensures
            self@ <= u128::MAX,
    {
    }

    /// The span of `nanos` nanoseconds.
    pub fn from_nanos(nanos: u128) -> (d: Duration)
        ensures
            d@ == nanos,
    {
        Duration { nanos }
    }

    /// The span of `millis` milliseconds.
    pub fn from_millis(millis: u64) -> (d: Duration)
        ensures
            d@ == nanos_of_millis(millis as nat),
    {
        let wide: u128 = millis as u128;
        assert(wide * NANOS_PER_MILLI <= u128::MAX) by (nonlinear_arith)
            requires
                wide <= u64::MAX,
                NANOS_PER_MILLI == 1_000_000,
        ;
        Duration { nanos: wide * NANOS_PER_MILLI }
    }

    /// The span of `secs` seconds.
    pub fn from_secs(secs: u64) -> (d: Duration)
        ensures
            d@ == nanos_of_secs(secs as nat),
    {
        let wide: u128 = secs as u128;
        assert(wide * NANOS_PER_SEC <= u128::MAX) by (nonlinear_arith)
            requires
                wide <= u64::MAX,
                NANOS_PER_SEC == 1_000_000_000,
        ;
        Duration { nanos: wide * NANOS_PER_SEC }
    }

    /// The length of the span in nanoseconds.
    pub fn as_nanos(&self) -> (nanos: u128)
        ensures
            nanos == self@,
    {
        self.nanos
    }

    /// The length of the span in whole milliseconds. A span of more
    /// milliseconds than 32 bits hold gives `u32::MAX`.
    pub fn as_millis(&self) -> (millis: u32)
        ensures
            millis == saturated_u32(whole_millis(self@)),
    {
        let whole: u128 = self.nanos / NANOS_PER_MILLI;
        if whole <= u32::MAX as u128 {
            whole as u32
        } else {
            u32::MAX
        }
    }

    /// The two spans one after the other, or the longest span there is where
    /// the sum is beyond it.
    pub fn saturating_add(&self, other: Duration) -> (sum: Duration)
        ensures
            sum@ == if self@ + other@ <= u128::MAX {
                self@ + other@
            } else {
                u128::MAX as nat
            },
    {
        match self.nanos.checked_add(other.nanos) {
            Some(nanos) => Duration { nanos },
            None => Duration { nanos: u128::MAX },
        }
    }
}

/// Milliseconds survive the way into a span and back: a span made of
/// `millis` milliseconds holds `millis` whole milliseconds again, as long as
/// the count fits into the 32 bits that come back.
pub proof fn lemma_millis_round_trip(millis: u64)
    requires
        millis <= u32::MAX,
    ensures
        saturated_u32(whole_millis(nanos_of_millis(millis as nat))) == millis,
{
    assert((millis as nat * 1_000_000) / 1_000_000 == millis as nat) by (nonlinear_arith);
}

/// Only what is left of a millisecond is lost on the way back: a span of
/// `millis` milliseconds and `rest` nanoseconds, `rest` less than a
/// millisecond, holds `millis` whole milliseconds.
pub proof fn lemma_millis_truncate(millis: u64, rest: nat)
    requires
        millis <= u32::MAX,
        rest < NANOS_PER_MILLI,
    ensures
        saturated_u32(whole_millis(nanos_of_millis(millis as nat) + rest)) == millis,
{
    assert((millis as nat * 1_000_000 + rest) / 1_000_000 == millis as nat) by (nonlinear_arith)
        requires
            rest < 1_000_000,
    ;
}

/// A point in time on a monotonic scale: the nanoseconds from a clock's
/// origin to that point. It has no meaning on the wall clock.
#[derive(Clone, Copy, Debug, PartialEq, Eq, Structural)]
pub struct Instant {
    nanos: u128,
}

impl View for Instant {
    type V = nat;

    /// The nanoseconds from the origin to this point.
    closed spec fn view(&self) -> nat {
        self.nanos as nat
    }
}

impl Instant {
    /// No point lies further from the origin than 128 bits of nanoseconds.
    pub proof fn lemma_in_range(self)
        ensures
            self@ <= u128::MAX,
    {
    }

    /// The point `nanos` nanoseconds after the origin.
    pub fn from_nanos(nanos: u128) -> (t: Instant)
        ensures
            t@ == nanos,
    {
        Instant { nanos }
    }

    /// The nanoseconds from the origin to this point.
    pub fn as_nanos(&self) -> (nanos: u128)
        ensures
            nanos == self@,
    {
        self.nanos
    }

    /// The span from `earlier` to this point, or the empty span where
    /// `earlier` is in fact the later of the two.
    pub fn since(&self, earlier: Instant) -> (d: Duration)
        ensures
            d@ == nanos_between(earlier@, self@),
    {
        if earlier.nanos <= self.nanos {
            Duration { nanos: self.nanos - earlier.nanos }
        } else {
            Duration { nanos: 0 }
        }
    }
}

/// `std::time::Instant`, as a type that Verus does not look into.
#[verifier::external_type_specification]
#[verifier::external_body]
pub struct ExInstant(std::time::Instant);

/// A monotonic clock. Its origin is the moment it was started, and its
/// readings are the time that has passed since.
pub(crate) struct Clock {
    origin: std::time::Instant,
}

impl Clock {
    /// A clock whose origin is now.
    ///
    /// Calls `std::time::Instant::now`. Nothing is claimed of the moment
    /// that comes back: it depends on when the call is made.
    #[verifier::external_body]
    pub(crate) fn start() -> (clock: Clock) {
        Clock { origin: std::time::Instant::now() }
    }

    /// The present moment on this clock.
    ///
    /// Calls `std::time::Instant::elapsed` on the origin and takes the
    /// nanoseconds of the span that it returns. Nothing is claimed of the
    /// reading: it depends on when the call is made.
    #[verifier::external_body]
    pub(crate) fn now(&self) -> (t: Instant) {
        Instant { nanos: self.origin.elapsed().as_nanos() }
    }
}

} // verus!
