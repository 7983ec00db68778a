use rate_timers::clock::Duration;
use rate_timers::clock::Instant;
use rate_timers::name_map::NameMap;
use rate_timers::shared_timers::register;
use rate_timers::shared_timers::settle;
use rate_timers::shared_timers::span_of_counter;
use rate_timers::shared_timers::sweep;
use rate_timers::shared_timers::SharedTimer;
use rate_timers::shared_timers::SharedTimerFactory;

fn at(nanos: u128) -> Instant {
    Instant::from_nanos(nanos)
}

fn name(text: &str) -> String {
    text.to_owned()
}

/// A timer whose last tick lies at the origin and whose counter holds 0.
fn timer_at_origin(factory: &mut SharedTimerFactory, text: &str) -> SharedTimer {
    let mut timer = factory.get_timer(name(text));
    // The origin is never after the clock's first reading: this publishes 0.
    assert_eq!(timer.tick_at(at(0)), 0);
    timer
}

/// Runs `job` as a thread would: the job has to be fit to be sent to one.
fn elsewhere<T: Send>(job: impl FnOnce() -> T + Send) -> T {
    job()
}

fn sorted(mut all: Vec<(String, Duration)>) -> Vec<(String, u128)> {
    all.sort_by(|a, b| a.0.cmp(&b.0));
    all.into_iter().map(|(name, span)| (name, span.as_nanos())).collect()
}

#[test]
fn timers_can_send() {
    let mut timer_factory = SharedTimerFactory::new();
    let timer_name = "timer_1";
    let mut timer = timer_factory.get_timer(timer_name.to_owned());

    elsewhere(move || {
        timer.tick();
    });
    let _ = timer_factory.get_elapsed(timer_name);
}

#[test]
fn cloned_factory_still_shares() {
    let timer_1_name = "timer_1";
    let timer_2_name = "timer_2";
    let mut timer_factory = SharedTimerFactory::new();
    let mut local_timer = timer_factory.get_timer(timer_1_name.to_owned());
    local_timer.tick();
    let mut factory_clone = timer_factory.clone();
    let returned_timer = elsewhere(move || {
        let mut other_timer = factory_clone.get_timer(timer_2_name.to_owned());
        other_timer.tick();
        // send timer back to prevent arc from going out of scope
        other_timer
    });
    assert!(timer_factory.get_elapsed(timer_1_name).is_some());
    assert!(timer_factory.get_elapsed(timer_2_name).is_some());
    let _ = returned_timer.elapsed();
}

#[test]
fn timer_gets_dropped() {
    let timer_1_name = "timer_1";
    let timer_2_name = "timer_2";
    let mut timer_factory = SharedTimerFactory::new();
    let mut local_timer = timer_factory.get_timer(timer_1_name.to_owned());
    local_timer.tick();
    let mut factory_clone = timer_factory.clone();
    elsewhere(move || {
        let mut other_timer = factory_clone.get_timer(timer_2_name.to_owned());
        other_timer.tick();
    });
    assert!(timer_factory.get_elapsed(timer_1_name).is_some());
    assert!(timer_factory.get_elapsed(timer_2_name).is_none());
}

#[test]
fn span_of_counter_is_whole_milliseconds() {
    assert_eq!(span_of_counter(0), Duration::from_nanos(0));
    assert_eq!(span_of_counter(1), Duration::from_nanos(1_000_000));
    assert_eq!(span_of_counter(1500), Duration::from_millis(1500));
    assert_eq!(span_of_counter(u32::MAX).as_nanos(), 4_294_967_295_000_000);
    assert_eq!(span_of_counter(u32::MAX).as_millis(), u32::MAX);
}

#[test]
fn a_fresh_counter_holds_zero() {
    let mut factory = SharedTimerFactory::new();
    let timer = factory.get_timer(name("t1"));
    assert_eq!(timer.elapsed_ms(), 0);
    assert_eq!(timer.elapsed(), Duration::from_nanos(0));
    assert_eq!(factory.get_elapsed("t1"), Some(Duration::from_nanos(0)));
}

#[test]
fn tick_publishes_the_time_since_the_tick_before() {
    let mut factory = SharedTimerFactory::new();
    let mut timer = timer_at_origin(&mut factory, "t1");
    assert_eq!(timer.tick_at(at(1_500_000_000)), 1500);
    assert_eq!(timer.elapsed_ms(), 1500);
    assert_eq!(timer.elapsed(), Duration::from_millis(1500));
    assert_eq!(factory.get_elapsed("t1"), Some(Duration::from_millis(1500)));
    assert_eq!(timer.tick_at(at(1_500_000_000 + 20_999_999)), 20);
    assert_eq!(timer.elapsed_ms(), 20);
    assert_eq!(factory.get_elapsed("t1"), Some(Duration::from_millis(20)));
}

#[test]
fn tick_publishes_at_most_the_largest_u32() {
    let mut factory = SharedTimerFactory::new();
    let mut timer = timer_at_origin(&mut factory, "t1");
    assert_eq!(timer.tick_at(at(4_294_967_295_000_000)), u32::MAX);
    assert_eq!(timer.tick_at(at(u128::MAX)), u32::MAX);
    assert_eq!(timer.elapsed_ms(), u32::MAX);
    assert_eq!(factory.get_elapsed("t1"), Some(Duration::from_millis(4_294_967_295)));
}

#[test]
fn tick_before_the_last_tick_publishes_zero() {
    let mut factory = SharedTimerFactory::new();
    let mut timer = timer_at_origin(&mut factory, "t1");
    assert_eq!(timer.tick_at(at(9_000_000)), 9);
    assert_eq!(timer.tick_at(at(2_000_000)), 0);
    assert_eq!(factory.get_elapsed("t1"), Some(Duration::from_nanos(0)));
    assert_eq!(timer.tick_at(at(5_000_000)), 3);
}

#[test]
fn reads_do_not_change_the_counter() {
    let mut factory = SharedTimerFactory::new();
    let mut timer = timer_at_origin(&mut factory, "t1");
    timer.tick_at(at(7_000_000));
    for _ in 0..3 {
        assert_eq!(timer.elapsed_ms(), 7);
        assert_eq!(factory.get_elapsed("t1"), Some(Duration::from_millis(7)));
        assert_eq!(sorted(factory.get_all_elapsed()), vec![(name("t1"), 7_000_000)]);
    }
}

#[test]
fn tick_by_the_clock_publishes_the_time_between_ticks() {
    let mut factory = SharedTimerFactory::new();
    let mut timer = factory.get_timer(name("t1"));
    let watch = rate_timers::RateTimer::new();
    while watch.elapsed_ms() < 30 {}
    timer.tick();
    let published = timer.elapsed_ms();
    assert!(published >= 29);
    assert!(published < 10_000);
    assert_eq!(factory.get_elapsed("t1"), Some(Duration::from_millis(published as u64)));
    timer.tick();
    assert!(timer.elapsed_ms() < 10_000);
}

#[test]
fn an_unknown_name_is_not_found() {
    let mut factory = SharedTimerFactory::new();
    assert_eq!(factory.get_elapsed("t1"), None);
    let _timer = factory.get_timer(name("t1"));
    assert_eq!(factory.get_elapsed("t2"), None);
    assert_eq!(factory.get_elapsed(""), None);
    assert_eq!(factory.get_elapsed("T1"), None);
    assert!(factory.get_elapsed("t1").is_some());
}

#[test]
fn a_dropped_timer_is_not_found() {
    let mut factory = SharedTimerFactory::new();
    let mut timer = timer_at_origin(&mut factory, "t1");
    timer.tick_at(at(4_000_000));
    assert_eq!(factory.get_elapsed("t1"), Some(Duration::from_millis(4)));
    drop(timer);
    assert_eq!(factory.get_elapsed("t1"), None);
    assert_eq!(factory.get_elapsed("t1"), None);
    assert_eq!(factory.get_all_elapsed(), Vec::new());
}

#[test]
fn a_dropped_timer_is_not_listed() {
    let mut factory = SharedTimerFactory::new();
    let mut first = timer_at_origin(&mut factory, "t1");
    let mut second = timer_at_origin(&mut factory, "t2");
    let mut third = timer_at_origin(&mut factory, "t3");
    first.tick_at(at(1_000_000));
    second.tick_at(at(2_000_000));
    third.tick_at(at(3_000_000));
    drop(second);
    assert_eq!(
        sorted(factory.get_all_elapsed()),
        vec![(name("t1"), 1_000_000), (name("t3"), 3_000_000)]
    );
    assert_eq!(factory.get_elapsed("t2"), None);
    drop(first);
    drop(third);
    assert_eq!(factory.get_all_elapsed(), Vec::new());
}

#[test]
fn a_timer_moved_elsewhere_stays_alive() {
    let mut factory = SharedTimerFactory::new();
    let timer = timer_at_origin(&mut factory, "t1");
    let mut holder = Vec::new();
    holder.push(timer);
    holder[0].tick_at(at(12_000_000));
    assert_eq!(factory.get_elapsed("t1"), Some(Duration::from_millis(12)));
    holder.clear();
    assert_eq!(factory.get_elapsed("t1"), None);
}

#[test]
fn registering_a_name_again_hides_the_first_timer() {
    let mut factory = SharedTimerFactory::new();
    let mut old = timer_at_origin(&mut factory, "t1");
    old.tick_at(at(5_000_000));
    let mut new = timer_at_origin(&mut factory, "t1");
    assert_eq!(factory.get_elapsed("t1"), Some(Duration::from_nanos(0)));
    new.tick_at(at(8_000_000));
    assert_eq!(factory.get_elapsed("t1"), Some(Duration::from_millis(8)));
    // The first timer runs on, unseen.
    assert_eq!(old.tick_at(at(11_000_000)), 6);
    assert_eq!(old.elapsed_ms(), 6);
    assert_eq!(factory.get_elapsed("t1"), Some(Duration::from_millis(8)));
    assert_eq!(sorted(factory.get_all_elapsed()), vec![(name("t1"), 8_000_000)]);
}

#[test]
fn dropping_the_hidden_timer_changes_nothing() {
    let mut factory = SharedTimerFactory::new();
    let old = timer_at_origin(&mut factory, "t1");
    let mut new = timer_at_origin(&mut factory, "t1");
    new.tick_at(at(2_000_000));
    drop(old);
    assert_eq!(factory.get_elapsed("t1"), Some(Duration::from_millis(2)));
}

#[test]
fn dropping_the_newest_timer_does_not_bring_the_first_back() {
    let mut factory = SharedTimerFactory::new();
    let mut old = timer_at_origin(&mut factory, "t1");
    let new = timer_at_origin(&mut factory, "t1");
    old.tick_at(at(2_000_000));
    drop(new);
    assert_eq!(factory.get_elapsed("t1"), None);
    assert_eq!(factory.get_all_elapsed(), Vec::new());
    assert_eq!(old.elapsed_ms(), 2);
}

#[test]
fn a_name_can_be_registered_again_after_its_timer_is_gone() {
    let mut factory = SharedTimerFactory::new();
    let first = timer_at_origin(&mut factory, "t1");
    drop(first);
    assert_eq!(factory.get_elapsed("t1"), None);
    let mut second = timer_at_origin(&mut factory, "t1");
    second.tick_at(at(3_000_000));
    assert_eq!(factory.get_elapsed("t1"), Some(Duration::from_millis(3)));
}

#[test]
fn all_elapsed_lists_every_live_timer_once() {
    let mut factory = SharedTimerFactory::new();
    assert_eq!(factory.get_all_elapsed(), Vec::new());
    let mut timers = Vec::new();
    for i in 0..10u32 {
        let mut timer = timer_at_origin(&mut factory, &format!("timer_{}", i));
        timer.tick_at(at((i as u128) * 1_000_000));
        timers.push(timer);
    }
    let all = sorted(factory.get_all_elapsed());
    assert_eq!(all.len(), 10);
    for i in 0..10usize {
        assert_eq!(all[i], (format!("timer_{}", i), (i as u128) * 1_000_000));
    }
}

#[test]
fn clones_share_one_registry() {
    let mut factory = SharedTimerFactory::new();
    let mut clone = factory.clone();
    let mut first = timer_at_origin(&mut factory, "t1");
    let mut second = timer_at_origin(&mut clone, "t2");
    first.tick_at(at(1_000_000));
    second.tick_at(at(2_000_000));
    assert_eq!(clone.get_elapsed("t1"), Some(Duration::from_millis(1)));
    assert_eq!(factory.get_elapsed("t2"), Some(Duration::from_millis(2)));
    let mut late_clone = clone.clone();
    assert_eq!(
        sorted(late_clone.get_all_elapsed()),
        vec![(name("t1"), 1_000_000), (name("t2"), 2_000_000)]
    );
    drop(first);
    assert_eq!(clone.get_elapsed("t1"), None);
    assert_eq!(sorted(factory.get_all_elapsed()), vec![(name("t2"), 2_000_000)]);
}

#[test]
fn timers_outlive_the_registry() {
    let mut factory = SharedTimerFactory::new();
    let mut timer = timer_at_origin(&mut factory, "t1");
    drop(factory);
    assert_eq!(timer.tick_at(at(6_000_000)), 6);
    assert_eq!(timer.elapsed_ms(), 6);
}

#[test]
fn registries_do_not_share() {
    let mut one = SharedTimerFactory::new();
    let mut other = SharedTimerFactory::new();
    let _timer = one.get_timer(name("t1"));
    assert!(one.get_elapsed("t1").is_some());
    assert_eq!(other.get_elapsed("t1"), None);
    assert_eq!(other.get_all_elapsed(), Vec::new());
}

#[test]
fn register_puts_the_reader_under_the_name() {
    let mut table = NameMap::new();
    register(&mut table, name("a"), 'x');
    register(&mut table, name("b"), 'y');
    assert_eq!(table.len(), 2);
    assert_eq!(table.get(&name("a")), Some(&'x'));
    assert_eq!(table.get(&name("b")), Some(&'y'));
    assert_eq!(table.get(&name("c")), None);
}

#[test]
fn register_again_leaves_the_other_names_alone() {
    let mut table = NameMap::new();
    register(&mut table, name("a"), 'x');
    register(&mut table, name("b"), 'y');
    register(&mut table, name("a"), 'z');
    assert_eq!(table.len(), 2);
    assert_eq!(table.get(&name("a")), Some(&'z'));
    assert_eq!(table.get(&name("b")), Some(&'y'));
    assert_eq!(table.name_at(0), "a");
    assert_eq!(table.name_at(1), "b");
}

#[test]
fn settle_with_a_live_counter_gives_its_span() {
    let mut table = NameMap::new();
    table.insert(name("a"), 'x');
    table.insert(name("b"), 'y');
    assert_eq!(settle(&mut table, &name("a"), Some(250)), Some(Duration::from_millis(250)));
    assert_eq!(settle(&mut table, &name("b"), Some(0)), Some(Duration::from_nanos(0)));
    assert_eq!(settle(&mut table, &name("b"), Some(u32::MAX)), Some(Duration::from_millis(4_294_967_295)));
    assert_eq!(table.len(), 2);
    assert_eq!(table.get(&name("a")), Some(&'x'));
    assert_eq!(table.get(&name("b")), Some(&'y'));
}

#[test]
fn settle_with_a_counter_that_is_gone_forgets_the_name() {
    let mut table = NameMap::new();
    table.insert(name("a"), 'x');
    table.insert(name("b"), 'y');
    assert_eq!(settle(&mut table, &name("a"), None), None);
    assert_eq!(table.len(), 1);
    assert_eq!(table.get(&name("a")), None);
    assert_eq!(table.get(&name("b")), Some(&'y'));
    assert_eq!(settle(&mut table, &name("a"), None), None);
    assert_eq!(table.len(), 1);
}

#[test]
fn sweep_reports_the_live_and_forgets_the_rest() {
    let mut table = NameMap::new();
    for text in ["a", "b", "c", "d"] {
        table.insert(name(text), ());
    }
    let live = sweep(&mut table, &vec![Some(10), None, Some(0), None]);
    assert_eq!(
        live,
        vec![(name("a"), Duration::from_millis(10)), (name("c"), Duration::from_nanos(0))]
    );
    assert_eq!(table.len(), 2);
    assert_eq!(table.name_at(0), "a");
    assert_eq!(table.name_at(1), "c");
    assert_eq!(table.get(&name("b")), None);
    assert_eq!(table.get(&name("d")), None);
}

#[test]
fn sweep_of_all_live_keeps_all() {
    let mut table = NameMap::new();
    table.insert(name("a"), 1u8);
    table.insert(name("b"), 2);
    let live = sweep(&mut table, &vec![Some(u32::MAX), Some(1)]);
    assert_eq!(
        live,
        vec![
            (name("a"), Duration::from_millis(4_294_967_295)),
            (name("b"), Duration::from_millis(1))
        ]
    );
    assert_eq!(table.len(), 2);
    assert_eq!(table.get(&name("a")), Some(&1));
    assert_eq!(table.get(&name("b")), Some(&2));
}

#[test]
fn sweep_of_none_live_forgets_all() {
    let mut table = NameMap::new();
    table.insert(name("a"), 1u8);
    table.insert(name("b"), 2);
    let live = sweep(&mut table, &vec![None, None]);
    assert_eq!(live, Vec::new());
    assert_eq!(table.len(), 0);
}

#[test]
fn sweep_of_the_empty_registry() {
    let mut table: NameMap<u8> = NameMap::new();
    let live = sweep(&mut table, &Vec::new());
    assert_eq!(live, Vec::new());
    assert_eq!(table.len(), 0);
}
