//! A stopwatch that sums up its ticks and, at most once a second, hands out
//! their mean length for a log. Each tick is summed and counted first; a
//! tick that reports is part of the mean that it reports.

use crate::clock::Clock;
use crate::clock::Duration;
use crate::clock::Instant;
use crate::clock::nanos_between;
use crate::clock::saturated_u32;
use crate::clock::whole_millis;
use crate::clock::NANOS_PER_SEC;
use vstd::prelude::*;

verus! {

/// The mean of `ticks` tick lengths that add up to `total` nanoseconds, cut to
/// a whole nanosecond; nothing where there was no tick.
pub open spec fn mean_nanos(total: nat, ticks: nat) -> nat {
    if ticks == 0 {
        0
    } else {
        total / ticks
    }
}

/// `n` where it fits into 128 bits, else the largest 128-bit number.
pub open spec fn saturated_u128(n: nat) -> nat {
    if n <= u128::MAX {
        n
    } else {
        u128::MAX as nat
    }
}

/// `n` where it fits into a `usize`, else the largest `usize`.
pub open spec fn saturated_usize(n: nat) -> nat {
    if n <= usize::MAX {
        n
    } else {
        usize::MAX as nat
    }
}

/// A stopwatch with a label. Besides the instant of its last tick it keeps,
/// for the time since it last reported, the number of ticks and the sum of
/// their lengths.
pub struct TraceTimer {
    clock: Clock,
    name: &'static str,
    last: Instant,
    last_log: Instant,
    ticks_since_log: usize,
    duration_since_log: Duration,
}

impl TraceTimer {
    /// The label.
    pub closed spec fn label(&self) -> &'static str {
        self.name
    }

    /// The instant of the last tick.
    pub closed spec fn last(&self) -> Instant {
        self.last
    }

    /// The instant of the last report.
    pub closed spec fn last_log(&self) -> Instant {
        self.last_log
    }

    /// The number of ticks since the last report.
    pub closed spec fn ticks_since_log(&self) -> nat {
        self.ticks_since_log as nat
    }

    /// The sum of the tick lengths since the last report.
    pub closed spec fn duration_since_log(&self) -> Duration {
        self.duration_since_log
    }

    /// Whether a tick at `now` reports: more than a second has passed since
    /// the last report.
    pub open spec fn reports_at(&self, now: Instant) -> bool {
        nanos_between(self.last_log()@, now@) > NANOS_PER_SEC
    }

    /// The sum of the tick lengths once a tick at `now` is added to it: the
    /// sum so far and the time from the last tick to `now`, and no more than
    /// 128 bits hold.
    pub open spec fn summed_at(&self, now: Instant) -> nat {
        saturated_u128(self.duration_since_log()@ + nanos_between(self.last()@, now@))
    }

    /// The number of ticks once one more is counted, and no more than a
    /// `usize` holds.
    pub open spec fn counted(&self) -> nat {
        saturated_usize(self.ticks_since_log() + 1)
    }

    /// A stopwatch on `clock` with the label `name`, ticked at `now`, with
    /// nothing summed up.
    fn made(clock: Clock, name: &'static str, now: Instant) -> (timer: TraceTimer)
        ensures
            timer.label() == name,
            timer.last() == now,
            timer.last_log() == now,
            timer.ticks_since_log() == 0,
            timer.duration_since_log()@ == 0,
    {
        TraceTimer {
            clock,
            name,
            last: now,
            last_log: now,
            ticks_since_log: 0,
            duration_since_log: Duration::from_nanos(0),
        }
    }

    /// A stopwatch with the label `name` and a clock of its own, ticked once
    /// as it is made. Nothing is summed up yet.
    pub fn new(name: &'static str) -> (timer: TraceTimer)
        ensures
            timer.label() == name,
            timer.last() == timer.last_log(),
            timer.ticks_since_log() == 0,
            timer.duration_since_log()@ == 0,
    {
        let clock = Clock::start();
        let now = clock.now();
        TraceTimer::made(clock, name, now)
    }

    /// A stopwatch with the label `name` and a clock of its own, ticked at
    /// `now`. Nothing is summed up yet, and the second until the first report
    /// runs from `now`.
    pub fn new_at(name: &'static str, now: Instant) -> (timer: TraceTimer)
        ensures
            timer.label() == name,
            timer.last() == now,
            timer.last_log() == now,
            timer.ticks_since_log() == 0,
            timer.duration_since_log()@ == 0,
    {
        TraceTimer::made(Clock::start(), name, now)
    }

    /// The label.
    pub fn name(&self) -> (name: &'static str)
        ensures
            name == self.label(),
    {
        self.name
    }

    /// Ticks at the instant the clock shows, and returns the mean tick length
    /// to report, if this tick reports.
    ///
    /// Report, instants, count and sum go by one and the same instant, as
    /// [`TraceTimer::tick_at`] says for it; which instant that is, the clock
    /// alone says. Whatever the clock shows, the label stays. A tick that
    /// reports becomes the last report and leaves nothing summed up. A tick
    /// that does not report leaves the instant of the last report alone, is
    /// counted, and takes nothing from the sum.
    pub fn tick(&mut self) -> (report: Option<Duration>)
        ensures
            exists|now: Instant|
                #![trigger old(self).reports_at(now)]
                (report is Some) == old(self).reports_at(now) && (report is Some ==> report->0@
                    == mean_nanos(old(self).summed_at(now), old(self).counted()))
                    && final(self).last() == now
                    && final(self).last_log() == (if old(self).reports_at(now) {
                    now
                } else {
                    old(self).last_log()
                }) && final(self).ticks_since_log() == (if old(self).reports_at(now) {
                    0
                } else {
                    old(self).counted()
                }) && final(self).duration_since_log()@ == (if old(self).reports_at(now) {
                    0
                } else {
                    old(self).summed_at(now)
                }),
            final(self).label() == old(self).label(),
            report is Some ==> final(self).last_log() == final(self).last(),
            report is Some ==> final(self).ticks_since_log() == 0,
            report is Some ==> final(self).duration_since_log()@ == 0,
            report is None ==> final(self).last_log() == old(self).last_log(),
            report is None ==> final(self).ticks_since_log() == old(self).counted(),
            report is None ==> final(self).duration_since_log()@ >= old(
                self,
            ).duration_since_log()@,
    {
        proof {
            self.duration_since_log.lemma_in_range();
        }
        let now = self.clock.now();
        self.tick_at(now)
    }

    /// Ticks at `now`.
    ///
    /// The time since the last tick is added to the sum, the tick is counted,
    /// and `now` becomes the instant of the last tick. Count and sum stop at
    /// the largest number they can hold. Then, where more than a second has
    /// passed since the last report, this tick reports: it returns the mean
    /// length of the ticks summed up, this one among them, `now` becomes the
    /// instant of the last report, and count and sum start again from
    /// nothing.
    pub fn tick_at(&mut self, now: Instant) -> (report: Option<Duration>)
        ensures
            report is Some == old(self).reports_at(now),
            report is Some ==> report->0@ == mean_nanos(
                old(self).summed_at(now),
                old(self).counted(),
            ),
            final(self).label() == old(self).label(),
            final(self).last() == now,
            final(self).last_log() == if old(self).reports_at(now) {
                now
            } else {
                old(self).last_log()
            },
            final(self).ticks_since_log() == if old(self).reports_at(now) {
                0
            } else {
                old(self).counted()
            },
            final(self).duration_since_log()@ == if old(self).reports_at(now) {
                0
            } else {
                old(self).summed_at(now)
            },
    {
        let sum = self.duration_since_log.saturating_add(now.since(self.last));
        let count = self.ticks_since_log.saturating_add(1);
        self.last = now;
        if now.since(self.last_log).as_nanos() > NANOS_PER_SEC {
            self.last_log = now;
            self.ticks_since_log = 0;
            self.duration_since_log = Duration::from_nanos(0);
            Some(mean_of(sum, count))
        } else {
            self.ticks_since_log = count;
            self.duration_since_log = sum;
            None
        }
    }

    /// The time since the last tick, by the clock: the time from the last
    /// tick to some instant. Which instant that is, the clock alone says.
    pub fn elapsed(&self) -> (d: Duration)
        ensures
            exists|now: Instant| d@ == #[trigger] nanos_between(self.last()@, now@),
    {
        self.elapsed_at(self.clock.now())
    }

    /// The time from the last tick to `now`.
    pub fn elapsed_at(&self, now: Instant) -> (d: Duration)
        ensures
            d@ == nanos_between(self.last()@, now@),
    {
        now.since(self.last)
    }

    /// The whole milliseconds since the last tick, by the clock: those from
    /// the last tick to some instant, `u32::MAX` where there are more than 32
    /// bits hold. Which instant that is, the clock alone says.
    pub fn elapsed_ms(&self) -> (millis: u32)
        ensures
            exists|now: Instant|
                millis == saturated_u32(
                    whole_millis(#[trigger] nanos_between(self.last()@, now@)),
                ),
    {
        self.elapsed_ms_at(self.clock.now())
    }

    /// The whole milliseconds from the last tick to `now`, `u32::MAX` where
    /// there are more than 32 bits hold.
    pub fn elapsed_ms_at(&self, now: Instant) -> (millis: u32)
        ensures
            millis == saturated_u32(whole_millis(nanos_between(self.last()@, now@))),
    {
        self.elapsed_at(now).as_millis()
    }
}

/// A stopwatch reports at most once a second: after a report at `now`, no
/// tick at an instant up to a second after `now` reports.
pub proof fn lemma_report_once_a_second(timer: TraceTimer, now: Instant, later: Instant)
    requires
        timer.last_log() == now,
        later@ <= now@ + NANOS_PER_SEC,
    ensures
        !timer.reports_at(later),
{
}

/// What a stopwatch reports is the mean of at least one tick: once a tick is
/// counted the count is not 0, so the mean is the sum divided by the count.
pub proof fn lemma_report_is_a_mean(timer: TraceTimer, now: Instant)
    ensures
        timer.counted() >= 1,
        mean_nanos(timer.summed_at(now), timer.counted()) == timer.summed_at(now)
            / timer.counted(),
{
}

/// The mean length of `ticks` ticks that took `total` together.
pub fn mean_of(total: Duration, ticks: usize) -> (mean: Duration)
    ensures
        mean@ == mean_nanos(total@, ticks as nat),
{
    if ticks == 0 {
        Duration::from_nanos(0)
    } else {
        Duration::from_nanos(total.as_nanos() / (ticks as u128))
    }
}

} // verus!
