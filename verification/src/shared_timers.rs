//! Named timers that publish their last tick length, and the registry
//! through which other parts of a program read it.
//!
//! A timer owns its counter: a 32-bit number of milliseconds in an atomic
//! cell. The registry knows each counter by name through a reader that does
//! not keep the counter alive. When the timer is gone the reader finds
//! nothing, and the registry forgets the name the next time it looks.

use crate::clock::Clock;
use crate::clock::Duration;
use crate::clock::Instant;
use crate::clock::nanos_between;
use crate::clock::nanos_of_millis;
use crate::clock::saturated_u32;
use crate::clock::whole_millis;
use crate::clock::NANOS_PER_MILLI;
use crate::name_map::distinct_names;
use crate::name_map::lemma_marked_entries;
use crate::name_map::lemma_marked_from;
use crate::name_map::lemma_marked_map;
use crate::name_map::marked;
use crate::name_map::names_of;
use crate::name_map::with_entry;
use crate::name_map::without;
use crate::name_map::NameMap;
use std::sync::atomic::AtomicU32;
use std::sync::atomic::Ordering;
use std::sync::Arc;
use std::sync::Mutex;
use std::sync::MutexGuard;
use std::sync::Weak;
use vstd::prelude::*;

verus! {

/// Whether `d` is a span that a counter can hold: a whole number of
/// milliseconds, and no more of them than 32 bits hold.
pub open spec fn counter_span(d: Duration) -> bool {
    d@ % (NANOS_PER_MILLI as nat) == 0 && whole_millis(d@) <= u32::MAX
}

/// The span that a reading stands for: the milliseconds of a live counter,
/// nothing for a counter that is gone.
pub open spec fn span_of(reading: Option<u32>) -> nat {
    match reading {
        Some(millis) => nanos_of_millis(millis as nat),
        None => 0,
    }
}

/// For each reading, whether the counter was live.
pub open spec fn alive(readings: Seq<Option<u32>>) -> Seq<bool> {
    readings.map_values(|reading: Option<u32>| reading is Some)
}

/// Each name with the span that its reading stands for.
pub open spec fn paired(names: Seq<Seq<char>>, readings: Seq<Option<u32>>) -> Seq<
    (Seq<char>, nat),
> {
    Seq::new(names.len(), |i: int| (names[i], span_of(readings[i])))
}

/// A list of names and spans as plain values: each name as its characters,
/// each span as its nanoseconds.
pub open spec fn report_view(reports: Seq<(String, Duration)>) -> Seq<(Seq<char>, nat)> {
    reports.map_values(|report: (String, Duration)| (report.0@, report.1@))
}

/// The reports of a sweep: the names whose counters were live, in their
/// order, each with the span that its reading stands for.
pub open spec fn live_reports(names: Seq<Seq<char>>, readings: Seq<Option<u32>>) -> Seq<
    (Seq<char>, nat),
> {
    marked(paired(names, readings), alive(readings))
}

/// A span made of a counter's milliseconds is a span that a counter can hold.
pub proof fn lemma_counter_span(d: Duration, millis: u32)
    requires
        d@ == nanos_of_millis(millis as nat),
    ensures
        counter_span(d),
        saturated_u32(whole_millis(d@)) == millis,
{
    assert((millis as nat * 1_000_000) % 1_000_000 == 0) by (nonlinear_arith);
    assert((millis as nat * 1_000_000) / 1_000_000 == millis as nat) by (nonlinear_arith);
}

/// Every report of a sweep names an entry whose counter was live and gives
/// the milliseconds that were read from it.
pub proof fn lemma_live_report(names: Seq<Seq<char>>, readings: Seq<Option<u32>>, k: int)
    requires
        names.len() == readings.len(),
        0 <= k < live_reports(names, readings).len(),
    ensures
        exists|i: int|
            0 <= i < names.len() && (#[trigger] readings[i]) is Some && live_reports(
                names,
                readings,
            )[k] == (names[i], nanos_of_millis(readings[i]->0 as nat)),
{
    lemma_marked_from(paired(names, readings), alive(readings), k);
    let i = choose|i: int|
        0 <= i < paired(names, readings).len() && alive(readings)[i] && #[trigger] paired(
            names,
            readings,
        )[i] == live_reports(names, readings)[k];
    assert(readings[i] is Some);
}

/// The names that a sweep reports are the names that it keeps, in the same
/// order.
pub proof fn lemma_live_names<T>(entries: Seq<(Seq<char>, T)>, readings: Seq<Option<u32>>)
    requires
        entries.len() == readings.len(),
    ensures
        names_of(live_reports(names_of(entries), readings)) == names_of(
            marked(entries, alive(readings)),
        ),
{
    let names = names_of(entries);
    let pairs = paired(names, readings);
    lemma_marked_map(pairs, alive(readings), |e: (Seq<char>, nat)| e.0);
    lemma_marked_map(entries, alive(readings), |e: (Seq<char>, T)| e.0);
    assert(pairs.map_values(|e: (Seq<char>, nat)| e.0) =~= names);
}

/// A name that a sweep found gone is in none of its reports, and neither is
/// a name that was not in the registry.
pub proof fn lemma_gone_not_reported<T>(
    entries: Seq<(Seq<char>, T)>,
    readings: Seq<Option<u32>>,
    name: Seq<char>,
    k: int,
)
    requires
        distinct_names(entries),
        entries.len() == readings.len(),
        forall|i: int|
            0 <= i < entries.len() && (#[trigger] entries[i]).0 == name ==> readings[i] is None,
        0 <= k < live_reports(names_of(entries), readings).len(),
    ensures
        live_reports(names_of(entries), readings)[k].0 != name,
{
    lemma_live_report(names_of(entries), readings, k);
    let i = choose|i: int|
        0 <= i < names_of(entries).len() && (#[trigger] readings[i]) is Some && live_reports(
            names_of(entries),
            readings,
        )[k] == (names_of(entries)[i], nanos_of_millis(readings[i]->0 as nat));
    assert(entries[i].0 == names_of(entries)[i]);
}

/// `std::sync::Mutex`, as a type that Verus does not look into.
#[verifier::external_type_specification]
#[verifier::external_body]
#[verifier::reject_recursive_types(T)]
pub struct ExMutex<T: ?Sized>(std::sync::Mutex<T>);

/// `std::sync::MutexGuard`, as a type that Verus does not look into.
#[verifier::external_type_specification]
#[verifier::external_body]
#[verifier::reject_recursive_types(T)]
pub struct ExMutexGuard<'a, T: ?Sized + 'a>(std::sync::MutexGuard<'a, T>);

/// The reading side of a counter: a `std::sync::Weak` on the atomic cell.
/// It does not keep the counter alive. Verus is told nothing of what is
/// inside.
#[verifier::external_body]
struct CounterReader {
    counter: Weak<AtomicU32>,
}

impl CounterReader {
    /// A reader of `counter`.
    ///
    /// Calls `std::sync::Arc::downgrade`. Nothing is claimed of the reader.
    #[verifier::external_body]
    fn attach(counter: &Arc<AtomicU32>) -> (reader: CounterReader) {
        CounterReader { counter: Arc::downgrade(counter) }
    }

    /// The counter, as long as its timer lives.
    ///
    /// Calls `std::sync::Weak::upgrade`. Nothing is claimed of the outcome:
    /// it depends on whether the timer that owns the counter is still there,
    /// which another thread may change at any time.
    #[verifier::external_body]
    fn upgrade(&self) -> (counter: Option<Arc<AtomicU32>>) {
        self.counter.upgrade()
    }

    /// The milliseconds in the counter, or `None` where the counter is gone.
    /// The counter is held only for the time of the reading.
    fn read(&self) -> (reading: Option<u32>) {
        match self.upgrade() {
            Some(counter) => Some(load(&counter)),
            None => None,
        }
    }
}

/// Publishes `millis` in `counter`: a store that releases.
fn store(counter: &AtomicU32, millis: u32) {
    counter.store(millis, Ordering::Release);
}

/// The milliseconds last published in `counter`: a load that acquires.
fn load(counter: &AtomicU32) -> (millis: u32) {
    counter.load(Ordering::Acquire)
}

/// A timer that publishes, at each tick, the time since the tick before in
/// a counter that it shares with the registry. There is one timer for each
/// counter, and only the timer writes to it.
pub struct SharedTimer {
    clock: Clock,
    last: Instant,
    shared_elapsed: Arc<AtomicU32>,
}

impl SharedTimer {
    /// The instant of the last tick.
    pub closed spec fn last(&self) -> Instant {
        self.last
    }

    /// The counter that the timer publishes in.
    closed spec fn counter(&self) -> Arc<AtomicU32> {
        self.shared_elapsed
    }

    /// The timer as a tick at `now` leaves it: the same timer on the same
    /// clock and the same counter, with `now` as the instant of its last tick.
    pub closed spec fn ticked_at(self, now: Instant) -> SharedTimer {
        SharedTimer { clock: self.clock, last: now, shared_elapsed: self.shared_elapsed }
    }

    /// A timer on `shared_elapsed` with a clock of its own, ticked once as it
    /// is made. The counter that it publishes in is the one it was given.
    fn new(shared_elapsed: Arc<AtomicU32>) -> (timer: SharedTimer)
        ensures
            timer.counter() == shared_elapsed,
    {
        let clock = Clock::start();
        let last = clock.now();
        SharedTimer { clock, last, shared_elapsed }
    }

    /// Ticks at the instant the clock shows: the timer is then as a tick at
    /// some instant leaves it, on the counter it had. Which instant that is,
    /// the clock alone says.
    pub fn tick(&mut self)
        ensures
            exists|now: Instant|
                *final(self) == #[trigger] old(self).ticked_at(now) && final(self).last() == now,
    {
        let now = self.clock.now();
        self.tick_at(now);
    }

    /// Ticks at `now`: publishes the whole milliseconds from the last tick to
    /// `now`, `u32::MAX` where there are more than 32 bits hold, and returns
    /// them; `now` becomes the instant of the last tick.
    pub fn tick_at(&mut self, now: Instant) -> (published: u32)
        ensures
            published == saturated_u32(whole_millis(nanos_between(old(self).last()@, now@))),
            final(self).last() == now,
            *final(self) == old(self).ticked_at(now),
    {
        let millis = now.since(self.last).as_millis();
        store(&self.shared_elapsed, millis);
        self.last = now;
        millis
    }

    /// The span that the counter holds.
    pub fn elapsed(&self) -> (d: Duration)
        ensures
            counter_span(d),
    {
        span_of_counter(self.elapsed_ms())
    }

    /// The milliseconds that the counter holds.
    pub fn elapsed_ms(&self) -> (millis: u32) {
        load(&self.shared_elapsed)
    }
}

/// The span of `millis` milliseconds read from a counter.
pub fn span_of_counter(millis: u32) -> (d: Duration)
    ensures
        d@ == nanos_of_millis(millis as nat),
        counter_span(d),
{
    let d = Duration::from_millis(millis as u64);
    proof {
        lemma_counter_span(d, millis);
    }
    d
}

/// Settles a lookup of `name` once its counter was read. A live counter
/// gives its span and leaves the registry as it is. A counter that is gone
/// gives nothing, and the name leaves the registry.
pub fn settle<T>(table: &mut NameMap<T>, name: &String, reading: Option<u32>) -> (found: Option<
    Duration,
>)
    ensures
        match reading {
            Some(millis) => found is Some && found->0@ == nanos_of_millis(millis as nat)
                && final(table).entries() == old(table).entries(),
            None => found is None && final(table).entries() == without(
                old(table).entries(),
                name@,
            ) && final(table)@ == old(table)@.remove(name@),
        },
        final(table).entries().len() == if reading is None && old(table)@.contains_key(name@) {
            old(table).entries().len() - 1
        } else {
            old(table).entries().len() as int
        },
{
    match reading {
        Some(millis) => Some(span_of_counter(millis)),
        None => {
            table.remove(name);
            None
        },
    }
}

/// Settles a walk through the whole registry once every counter was read,
/// `readings` holding the reading of each entry in its place. The entries
/// whose counters were live stay, in their order, and are reported, each
/// name with the span of its counter. The others leave the registry.
pub fn sweep<T>(table: &mut NameMap<T>, readings: &Vec<Option<u32>>) -> (live: Vec<
    (String, Duration),
>)
    requires
        readings.len() == old(table).entries().len(),
    ensures
        final(table).entries() == marked(old(table).entries(), alive(readings@)),
        report_view(live@) == live_reports(names_of(old(table).entries()), readings@),
        names_of(report_view(live@)) == names_of(final(table).entries()),
        final(table)@.submap_of(old(table)@),
        forall|i: int|
            0 <= i < readings.len() ==> (final(table)@.contains_key(
                (#[trigger] old(table).entries()[i]).0,
            ) <==> readings[i] is Some),
        forall|k: int| 0 <= k < live.len() ==> counter_span((#[trigger] live[k]).1),
        forall|j: int, k: int|
            0 <= j < k < live.len() ==> (#[trigger] live[j]).0@ != (#[trigger] live[k]).0@,
{
    proof {
        use_type_invariant(&*table);
        lemma_marked_entries(table.entries(), alive(readings@));
    }
    let n = table.len();
    let ghost before = table.entries();
    let ghost names = names_of(before);
    let ghost pairs = paired(names, readings@);
    let ghost marks = alive(readings@);
    let mut live: Vec<(String, Duration)> = Vec::with_capacity(n);
    let mut keep: Vec<bool> = Vec::with_capacity(n);
    let mut i: usize = 0;
    while i < n
        invariant
            i <= n,
            n == readings.len(),
            n == table.entries().len(),
            names == names_of(table.entries()),
            pairs == paired(names, readings@),
            marks == alive(readings@),
            keep@ == marks.take(i as int),
            report_view(live@) == marked(pairs.take(i as int), marks),
            forall|k: int| 0 <= k < live.len() ==> counter_span((#[trigger] live[k]).1),
        decreases n - i,
    {
        proof {
            assert(pairs.take(i + 1).drop_last() =~= pairs.take(i as int));
            assert(pairs.take(i + 1).last() == pairs[i as int]);
            assert(marks.take(i + 1) =~= marks.take(i as int).push(marks[i as int]));
        }
        match readings[i] {
            Some(millis) => {
                let name = table.name_at(i).clone();
                let span = span_of_counter(millis);
                let ghost reported = live@;
                live.push((name, span));
                keep.push(true);
                assert(report_view(live@) =~= report_view(reported).push(pairs[i as int]));
            },
            None => {
                keep.push(false);
            },
        }
        i += 1;
    }
    assert(pairs.take(n as int) =~= pairs);
    assert(marks.take(n as int) =~= marks);
    table.retain_marked(&keep);
    proof {
        let kept = table.entries();
        let reports = report_view(live@);
        lemma_live_names(before, readings@);
        assert forall|j: int, k: int| 0 <= j < k < live.len() implies (#[trigger] live[j]).0@ != (
        #[trigger] live[k]).0@ by {
            assert(names_of(kept).len() == names_of(reports).len());
            assert(names_of(reports)[j] == reports[j].0);
            assert(names_of(reports)[k] == reports[k].0);
            assert(names_of(kept)[j] == kept[j].0);
            assert(names_of(kept)[k] == kept[k].0);
            assert(kept[j].0 != kept[k].0);
        }
    }
    live
}

/// The readings of all counters of the registry, each in the place of its
/// entry.
fn read_all(table: &NameMap<CounterReader>) -> (readings: Vec<Option<u32>>)
    ensures
        readings.len() == table.entries().len(),
{
    let n = table.len();
    let mut readings: Vec<Option<u32>> = Vec::with_capacity(n);
    let mut i: usize = 0;
    while i < n
        invariant
            i <= n,
            n == table.entries().len(),
            readings.len() == i,
        decreases n - i,
    {
        readings.push(table.value_at(i).read());
        i += 1;
    }
    readings
}

/// Calls `std::sync::Mutex::new`. Nothing is claimed of the lock.
pub assume_specification<T>[ std::sync::Mutex::<T>::new ](t: T) -> (lock: std::sync::Mutex<T>);

/// Takes the registry's lock and waits for it where another thread has it.
///
/// Calls `std::sync::Mutex::lock`, and panics where the lock is poisoned.
/// Nothing is claimed of the guard. The lock is taken in this file alone, by
/// functions that give it back before they return and that do not take it
/// again while they hold it.
#[verifier::external_body]
fn lock<'a>(counters: &'a Mutex<NameMap<CounterReader>>) -> (guard: MutexGuard<
    'a,
    NameMap<CounterReader>,
>) {
    counters.lock().expect("Mutex poisoned")
}

/// The registry itself, for as long as `guard` is held.
///
/// Calls `DerefMut::deref_mut` of `std::sync::MutexGuard`. Nothing is
/// claimed of what the registry holds: other threads may have changed it
/// since this one last saw it. It is a `NameMap` that the functions of this
/// file made and that they alone have written to.
#[verifier::external_body]
fn held<'a, 'b>(guard: &'a mut MutexGuard<'b, NameMap<CounterReader>>) -> (table: &'a mut NameMap<
    CounterReader,
>) {
    &mut **guard
}

/// A handle on a registry of named timers. Clones of a handle share one
/// registry: what one registers, all can look up.
pub struct SharedTimerFactory {
    counters: Arc<Mutex<NameMap<CounterReader>>>,
}

impl Clone for SharedTimerFactory {
    /// Another handle on the same registry.
    fn clone(&self) -> (other: SharedTimerFactory)
        ensures
            other == *self,
    {
        SharedTimerFactory { counters: self.counters.clone() }
    }
}

impl SharedTimerFactory {
    /// A handle on a new, empty registry.
    pub fn new() -> (factory: SharedTimerFactory) {
        SharedTimerFactory { counters: Arc::new(Mutex::new(NameMap::new())) }
    }

    /// A new timer called `name`, with a fresh counter that holds 0. The
    /// registry knows the counter by that name from now on; a counter that
    /// it knew by the same name before is no longer found by name, though
    /// its timer goes on.
    ///
    /// The handle stays a handle on the same registry. What the registry
    /// holds lies behind the lock: `register` says how it changes.
    pub fn get_timer(&mut self, name: String) -> (timer: SharedTimer)
        ensures
            *final(self) == *old(self),
    {
        let shared_elapsed = Arc::new(AtomicU32::new(0));
        let reader = CounterReader::attach(&shared_elapsed);
        {
            let mut guard = lock(&self.counters);
            register(held(&mut guard), name, reader);
        }
        SharedTimer::new(shared_elapsed)
    }

    /// The span in the counter called `name`. There is none where the
    /// registry does not know the name, or where the counter's timer is gone;
    /// the registry then forgets the name. A span that comes back is one that
    /// a counter can hold, and the handle stays a handle on the same
    /// registry.
    pub fn get_elapsed(&mut self, name: &str) -> (found: Option<Duration>)
        ensures
            found is Some ==> counter_span(found->0),
            *final(self) == *old(self),
    {
        let key = name.to_owned();
        let mut guard = lock(&self.counters);
        look_up(held(&mut guard), &key)
    }

    /// The names of all counters whose timers live, each with the span in its
    /// counter, in no particular order. The registry forgets the names whose
    /// timers are gone. No name comes back twice, every span is one that a
    /// counter can hold, and the handle stays a handle on the same registry.
    pub fn get_all_elapsed(&mut self) -> (all: Vec<(String, Duration)>)
        ensures
            forall|k: int| 0 <= k < all.len() ==> counter_span((#[trigger] all[k]).1),
            forall|j: int, k: int|
                0 <= j < k < all.len() ==> (#[trigger] all[j]).0@ != (#[trigger] all[k]).0@,
            *final(self) == *old(self),
    {
        let mut guard = lock(&self.counters);
        walk(held(&mut guard))
    }
}

/// Puts `reader` under `name` in the registry: the name then stands for
/// that reader and no other, the other names stand for what they stood for,
/// and no name but `name` is new.
pub fn register<T>(table: &mut NameMap<T>, name: String, reader: T)
    ensures
        final(table)@ == old(table)@.insert(name@, reader),
        final(table).entries() == with_entry(old(table).entries(), name@, reader),
        final(table)@.dom() == old(table)@.dom().insert(name@),
        final(table)@[name@] == reader,
        forall|other: Seq<char>|
            other != name@ && old(table)@.contains_key(other) ==> #[trigger] final(table)@[other]
                == old(table)@[other],
{
    table.insert(name, reader);
}

/// Looks `name` up in the registry, reads its counter, and settles the
/// lookup. Where the name is known, either a span comes back and the registry
/// stays as it is, or nothing comes back and the name has left the registry.
fn look_up(table: &mut NameMap<CounterReader>, name: &String) -> (found: Option<Duration>)
    ensures
        !old(table)@.contains_key(name@) ==> found is None,
        found is Some ==> counter_span(found->0) && final(table).entries() == old(
            table,
        ).entries(),
        found is None ==> final(table).entries() == without(old(table).entries(), name@),
{
    let reading = match table.get(name) {
        Some(reader) => reader.read(),
        None => {
            return None;
        },
    };
    let found = settle(table, name, reading);
    proof {
        if reading is Some {
            lemma_counter_span(found->0, reading->0);
        }
    }
    found
}

/// Reads every counter of the registry and settles the walk. What comes
/// back names the entries that stay, in their order; nothing comes into the
/// registry, and what stays is as it was.
fn walk(table: &mut NameMap<CounterReader>) -> (all: Vec<(String, Duration)>)
    ensures
        names_of(report_view(all@)) == names_of(final(table).entries()),
        final(table)@.submap_of(old(table)@),
        forall|k: int| 0 <= k < all.len() ==> counter_span((#[trigger] all[k]).1),
        forall|j: int, k: int|
            0 <= j < k < all.len() ==> (#[trigger] all[j]).0@ != (#[trigger] all[k]).0@,
{
    let readings = read_all(table);
    sweep(table, &readings)
}

} // verus!
