//! Timing primitives for a running process: a stopwatch, a fixed-rate
//! limiter, a stopwatch that sums up its ticks for a log, and named timers
//! that other parts of a program can observe through a shared registry.
//!
//! Every timer owns a monotonic clock. A function that reads the clock has a
//! twin whose name ends in `_at` and which takes the reading as an argument:
//! the twin says exactly what happens at a given instant, and the function
//! without the suffix does the same at the instant its clock shows.

pub mod clock;
pub mod log_timer;
pub mod name_map;
pub mod shared_timers;

use crate::clock::Clock;
use crate::clock::Duration;
use crate::clock::Instant;
use crate::clock::nanos_between;
use crate::clock::saturated_u32;
use crate::clock::whole_millis;
use vstd::prelude::*;

verus! {

/// A stopwatch: it remembers the instant of its last tick and tells how much
/// time has passed since.
pub struct RateTimer {
    clock: Clock,
    last: Instant,
}

impl RateTimer {
    /// The instant of the last tick.
    pub closed spec fn last(&self) -> Instant {
        self.last
    }

    /// The stopwatch as a tick at `now` leaves it: the same stopwatch on the
    /// same clock, with `now` as the instant of its last tick.
    pub closed spec fn ticked_at(self, now: Instant) -> RateTimer {
        RateTimer { clock: self.clock, last: now }
    }

    /// A stopwatch on `clock`, ticked at `now`.
    fn made(clock: Clock, now: Instant) -> (timer: RateTimer)
        ensures
            timer.last() == now,
    {
        RateTimer { clock, last: now }
    }

    /// A stopwatch with a clock of its own, ticked once as it is made.
    pub fn new() -> (timer: RateTimer) {
        let clock = Clock::start();
        let now = clock.now();
        RateTimer::made(clock, now)
    }

    /// A stopwatch with a clock of its own, ticked at `now`.
    pub fn new_at(now: Instant) -> (timer: RateTimer)
        ensures
            timer.last() == now,
    {
        RateTimer::made(Clock::start(), now)
    }

    /// Ticks at the instant the clock shows: the stopwatch is then as a tick
    /// at some instant leaves it. Which instant that is, the clock alone says.
    pub fn tick(&mut self)
        ensures
            exists|now: Instant|
                *final(self) == #[trigger] old(self).ticked_at(now) && final(self).last() == now,
    {
        let now = self.clock.now();
        self.tick_at(now);
    }

    /// Ticks at `now`: `now` becomes the instant of the last tick, and nothing
    /// else changes.
    pub fn tick_at(&mut self, now: Instant)
        ensures
            final(self).last() == now,
            *final(self) == old(self).ticked_at(now),
    {
        self.last = now;
    }

    /// The time since the last tick, by the clock: the time from the last
    /// tick to some instant. Which instant that is, the clock alone says.
    pub fn elapsed(&self) -> (d: Duration)
        ensures
            exists|now: Instant| d@ == #[trigger] nanos_between(self.last()@, now@),
    {
        self.elapsed_at(self.clock.now())
    }

    /// The time from the last tick to `now`.
    pub fn elapsed_at(&self, now: Instant) -> (d: Duration)
        ensures
            d@ == nanos_between(self.last()@, now@),
    {
        now.since(self.last)
    }

    /// The whole milliseconds since the last tick, by the clock: those from
    /// the last tick to some instant, `u32::MAX` where there are more than 32
    /// bits hold. Which instant that is, the clock alone says.
    pub fn elapsed_ms(&self) -> (millis: u32)
        ensures
            exists|now: Instant|
                millis == saturated_u32(
                    whole_millis(#[trigger] nanos_between(self.last()@, now@)),
                ),
    {
        self.elapsed_ms_at(self.clock.now())
    }

    /// The whole milliseconds from the last tick to `now`, `u32::MAX` where
    /// there are more than 32 bits hold.
    pub fn elapsed_ms_at(&self, now: Instant) -> (millis: u32)
        ensures
            millis == saturated_u32(whole_millis(nanos_between(self.last()@, now@))),
    {
        self.elapsed_at(now).as_millis()
    }
}

/// A rate limiter. It holds a period and a deadline; once the deadline is
/// reached, the next one is set a period after the instant at which that was
/// seen, not a period after the old deadline.
///
/// The deadline is kept as the instant at which the running window began;
/// the deadline itself, [`Rate::next`], lies one period later.
pub struct Rate {
    clock: Clock,
    time_step: Duration,
    start: Instant,
}

impl Rate {
    /// The period.
    pub closed spec fn time_step(&self) -> Duration {
        self.time_step
    }

    /// The instant at which the running window began.
    pub closed spec fn window_start(&self) -> Instant {
        self.start
    }

    /// The deadline, in nanoseconds from the clock's origin: one period after
    /// the window began.
    pub open spec fn next(&self) -> nat {
        self.window_start()@ + self.time_step()@
    }

    /// Whether the deadline is reached at `now`.
    pub open spec fn due_at(&self, now: Instant) -> bool {
        self.next() <= now@
    }

    /// How many nanoseconds the deadline is still away at `now`: `None` once
    /// it is reached, and no more than 128 bits hold.
    pub open spec fn left_at(&self, now: Instant) -> Option<nat> {
        if self.due_at(now) {
            None
        } else if self.next() - now@ <= u128::MAX {
            Some((self.next() - now@) as nat)
        } else {
            Some(u128::MAX as nat)
        }
    }

    /// The limiter as the beginning of a new window at `now` leaves it: the
    /// same limiter on the same clock, with the same period.
    pub closed spec fn restarted_at(self, now: Instant) -> Rate {
        Rate { clock: self.clock, time_step: self.time_step, start: now }
    }

    /// A limiter on `clock` with the period `time_step`, whose first window
    /// begins at `now`.
    fn begun(clock: Clock, time_step: Duration, now: Instant) -> (rate: Rate)
        ensures
            rate.time_step() == time_step,
            rate.window_start() == now,
    {
        Rate { clock, time_step, start: now }
    }

    /// A limiter with the period `time_step` and a clock of its own. Its first
    /// window begins as it is made.
    pub fn from_time(time_step: Duration) -> (rate: Rate)
        ensures
            rate.time_step() == time_step,
    {
        let clock = Clock::start();
        let now = clock.now();
        Rate::begun(clock, time_step, now)
    }

    /// A limiter with the period `time_step` and a clock of its own. Its first
    /// window begins at `now`: the deadline is `now` plus the period.
    pub fn from_time_at(time_step: Duration, now: Instant) -> (rate: Rate)
        ensures
            rate.time_step() == time_step,
            rate.window_start() == now,
    {
        Rate::begun(Clock::start(), time_step, now)
    }

    /// Polls the limiter at the instant the clock shows. Before the deadline
    /// this returns `false` and changes nothing. From the deadline on it
    /// returns `true` and begins a new window, so the new deadline lies at
    /// least a period after the old one. Result and window go by one and the
    /// same instant; which instant that is, the clock alone says.
    pub fn check(&mut self) -> (due: bool)
        ensures
            exists|now: Instant|
                #![trigger old(self).due_at(now)]
                due == old(self).due_at(now) && (due ==> *final(self) == old(self).restarted_at(
                    now,
                ) && final(self).window_start() == now),
            final(self).time_step() == old(self).time_step(),
            !due ==> *final(self) == *old(self),
            due ==> final(self).next() >= old(self).next() + old(self).time_step()@,
    {
        let now = self.clock.now();
        self.check_at(now)
    }

    /// Polls the limiter at `now`. While the deadline lies after `now` this
    /// returns `false` and changes nothing. Else it returns `true` and begins
    /// a new window at `now`: the deadline becomes `now` plus the period.
    pub fn check_at(&mut self, now: Instant) -> (due: bool)
        ensures
            due == old(self).due_at(now),
            final(self).time_step() == old(self).time_step(),
            due ==> final(self).window_start() == now,
            due ==> *final(self) == old(self).restarted_at(now),
            !due ==> *final(self) == *old(self),
    {
        if self.reached_at(now) {
            self.start = now;
            true
        } else {
            false
        }
    }

    /// Whether the deadline is reached at `now`.
    fn reached_at(&self, now: Instant) -> (due: bool)
        ensures
            due == self.due_at(now),
    {
        let now_nanos: u128 = now.as_nanos();
        let start_nanos: u128 = self.start.as_nanos();
        start_nanos <= now_nanos && self.time_step.as_nanos() <= now_nanos - start_nanos
    }

    /// How long the deadline is still away at the instant the clock shows:
    /// what [`Rate::left_at`] gives for some instant. Which instant that is,
    /// the clock alone says.
    pub fn pending(&self) -> (wait: Option<Duration>)
        ensures
            exists|now: Instant|
                #![trigger self.left_at(now)]
                match wait {
                    Some(d) => self.left_at(now) == Some(d@),
                    None => self.left_at(now) is None,
                },
    {
        self.pending_at(self.clock.now())
    }

    /// How long the deadline is still away at `now`: nothing once it is
    /// reached, else the time from `now` to the deadline (the longest span
    /// there is, should the time be longer still).
    pub fn pending_at(&self, now: Instant) -> (wait: Option<Duration>)
        ensures
            self.due_at(now) ==> wait is None,
            !self.due_at(now) ==> wait is Some && wait->0@ == if self.next() - now@ <= u128::MAX {
                (self.next() - now@) as nat
            } else {
                u128::MAX as nat
            },
            match wait {
                Some(d) => self.left_at(now) == Some(d@),
                None => self.left_at(now) is None,
            },
    {
        if self.reached_at(now) {
            None
        } else {
            let now_nanos: u128 = now.as_nanos();
            let start_nanos: u128 = self.start.as_nanos();
            let step_nanos: u128 = self.time_step.as_nanos();
            if start_nanos <= now_nanos {
                Some(Duration::from_nanos(step_nanos - (now_nanos - start_nanos)))
            } else {
                Some(self.time_step.saturating_add(Duration::from_nanos(start_nanos - now_nanos)))
            }
        }
    }

    /// Begins a new window at the instant the clock shows: the limiter is
    /// then as the beginning of a window at some instant leaves it. Which
    /// instant that is, the clock alone says.
    pub fn restart(&mut self)
        ensures
            exists|now: Instant|
                *final(self) == #[trigger] old(self).restarted_at(now)
                    && final(self).window_start() == now,
            final(self).time_step() == old(self).time_step(),
    {
        let now = self.clock.now();
        self.restart_at(now);
    }

    /// Begins a new window at `now`: the deadline becomes `now` plus the
    /// period, and nothing else changes.
    pub fn restart_at(&mut self, now: Instant)
        ensures
            final(self).time_step() == old(self).time_step(),
            final(self).window_start() == now,
            *final(self) == old(self).restarted_at(now),
    {
        self.start = now;
    }
}

/// Whether each instant of `wakes` lies at least `step` after the one before
/// it.
pub open spec fn paced(wakes: Seq<Instant>, step: Duration) -> bool {
    forall|i: int, j: int|
        0 <= i && j == i + 1 && j < wakes.len() ==> (#[trigger] wakes[i])@ + step@ <= (
        #[trigger] wakes[j])@
}

/// A limiter comes due at most once in a period: after a poll that began a
/// window at `now`, no poll at an instant less than a period after `now` finds
/// the deadline reached.
pub proof fn lemma_once_per_period(rate: Rate, now: Instant, later: Instant)
    requires
        rate.window_start() == now,
        later@ < now@ + rate.time_step()@,
    ensures
        !rate.due_at(later),
{
}

/// A limiter whose deadline lies beyond the end of the scale is never found
/// due, whatever instant its clock shows.
pub proof fn lemma_never_due(rate: Rate, now: Instant)
    requires
        rate.next() > u128::MAX,
    ensures
        !rate.due_at(now),
        rate.left_at(now) is Some,
{
    now.lemma_in_range();
}

/// A wait that lasts as long as was asked for reaches the deadline: where
/// `left_at(now)` asks for a span and the waiting ends at `wake`, no sooner
/// than that span after `now`, the limiter is due at `wake`. That a sleep
/// lasts as long as it was asked to is for the one who sleeps to see to.
pub proof fn lemma_wait_reaches_deadline(rate: Rate, now: Instant, wake: Instant)
    requires
        rate.next() <= u128::MAX,
        match rate.left_at(now) {
            Some(span) => now@ + span <= wake@,
            None => now@ <= wake@,
        },
    ensures
        rate.due_at(wake),
        paced(seq![rate.window_start(), wake], rate.time_step()),
{
}

/// The instant at which a limiter is found due and the instant at which its
/// window began are a period apart or more; so the instants at which one
/// limiter is found due, one poll after the other, are paced by its period.
pub proof fn lemma_due_is_paced(rate: Rate, now: Instant)
    requires
        rate.due_at(now),
    ensures
        paced(seq![rate.window_start(), now], rate.time_step()),
{
}

/// Instants that are paced by `step` span at least one `step` for each of
/// them but the first.
pub proof fn lemma_paced_span(wakes: Seq<Instant>, step: Duration)
    requires
        paced(wakes, step),
        wakes.len() >= 1,
    ensures
        wakes[0]@ + (wakes.len() - 1) * step@ <= wakes.last()@,
    decreases wakes.len(),
{
    let n = wakes.len() as int;
    let step_nanos = step@ as int;
    if n > 1 {
        let front = wakes.drop_last();
        assert(paced(front, step)) by {
            assert forall|i: int, j: int| 0 <= i && j == i + 1 && j < front.len() implies (
            #[trigger] front[i])@ + step@ <= (#[trigger] front[j])@ by {
                assert(wakes[i]@ + step@ <= wakes[j]@);
            }
        }
        lemma_paced_span(front, step);
        assert(wakes[n - 2]@ + step@ <= wakes[n - 1]@);
        assert(front[0] == wakes[0] && front.last() == wakes[n - 2]);
        assert(front.len() - 1 == n - 2);
        assert((n - 1) * step_nanos == (n - 2) * step_nanos + step_nanos) by (nonlinear_arith);
    } else {
        assert((n - 1) * step_nanos == 0) by (nonlinear_arith)
            requires
                n == 1,
        ;
    }
}

} // verus!
