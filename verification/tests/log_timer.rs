use rate_timers::clock::Duration;
use rate_timers::clock::Instant;
use rate_timers::log_timer::mean_of;
use rate_timers::log_timer::TraceTimer;

const SECOND: u128 = 1_000_000_000;

fn at(nanos: u128) -> Instant {
    Instant::from_nanos(nanos)
}

/// A timer made at the origin of its clock.
fn timer_at_origin() -> TraceTimer {
    TraceTimer::new_at("loop", at(0))
}

#[test]
fn trace_timer_keeps_its_name() {
    let mut timer = TraceTimer::new("physics");
    assert_eq!(timer.name(), "physics");
    timer.tick();
    timer.tick_at(at(5 * SECOND));
    assert_eq!(timer.name(), "physics");
}

#[test]
fn mean_of_no_ticks_is_nothing() {
    assert_eq!(mean_of(Duration::from_secs(5), 0), Duration::from_nanos(0));
    assert_eq!(mean_of(Duration::from_nanos(0), 0), Duration::from_nanos(0));
}

#[test]
fn mean_of_ticks_is_cut_to_a_nanosecond() {
    assert_eq!(mean_of(Duration::from_millis(90), 3), Duration::from_millis(30));
    assert_eq!(mean_of(Duration::from_nanos(10), 3), Duration::from_nanos(3));
    assert_eq!(mean_of(Duration::from_nanos(2), 3), Duration::from_nanos(0));
    assert_eq!(mean_of(Duration::from_nanos(7), 1), Duration::from_nanos(7));
    assert_eq!(mean_of(Duration::from_nanos(u128::MAX), usize::MAX).as_nanos(), u128::MAX / (usize::MAX as u128));
}

#[test]
fn ticks_within_a_second_do_not_report() {
    let mut timer = timer_at_origin();
    assert_eq!(timer.tick_at(at(SECOND / 4)), None);
    assert_eq!(timer.tick_at(at(SECOND / 2)), None);
    assert_eq!(timer.tick_at(at(SECOND - 1)), None);
    // Exactly one second is not more than one second.
    assert_eq!(timer.tick_at(at(SECOND)), None);
}

#[test]
fn a_tick_after_more_than_a_second_reports_the_mean() {
    let mut timer = timer_at_origin();
    assert_eq!(timer.tick_at(at(300_000_000)), None);
    assert_eq!(timer.tick_at(at(600_000_000)), None);
    assert_eq!(timer.tick_at(at(900_000_000)), None);
    // With this tick there are four, 1_000_000_001 ns in all.
    assert_eq!(timer.tick_at(at(SECOND + 1)), Some(Duration::from_millis(250)));
}

#[test]
fn a_report_starts_the_sums_again() {
    let mut timer = timer_at_origin();
    assert_eq!(timer.tick_at(at(400_000_000)), None);
    // Two ticks, 1_000_000_100 ns in all.
    assert_eq!(
        timer.tick_at(at(SECOND + 100)),
        Some(Duration::from_nanos(500_000_050))
    );
    // Nothing is summed up after the report: the next tick is the first.
    assert_eq!(timer.tick_at(at(SECOND + 200)), None);
    assert_eq!(timer.tick_at(at(2 * SECOND + 100)), None);
    // Three ticks since the report: 100 + 999_999_900 + 1 ns.
    assert_eq!(
        timer.tick_at(at(2 * SECOND + 101)),
        Some(Duration::from_nanos(333_333_333))
    );
}

#[test]
fn a_reporting_tick_is_part_of_its_mean() {
    let mut timer = timer_at_origin();
    assert_eq!(timer.tick_at(at(SECOND)), None);
    // One tick of a second and one of a second and two nanoseconds.
    assert_eq!(
        timer.tick_at(at(2 * SECOND + 2)),
        Some(Duration::from_nanos(SECOND + 1))
    );
}

#[test]
fn the_second_runs_from_the_last_report() {
    let mut timer = timer_at_origin();
    assert!(timer.tick_at(at(SECOND + 500)).is_some());
    assert_eq!(timer.tick_at(at(2 * SECOND)), None);
    assert_eq!(timer.tick_at(at(2 * SECOND + 500)), None);
    assert!(timer.tick_at(at(2 * SECOND + 501)).is_some());
}

#[test]
fn a_first_tick_after_a_long_pause_reports_itself() {
    let mut timer = timer_at_origin();
    // The one tick there is took three seconds.
    assert_eq!(timer.tick_at(at(3 * SECOND)), Some(Duration::from_secs(3)));
    // And the next, alone again, two.
    assert_eq!(timer.tick_at(at(5 * SECOND)), Some(Duration::from_secs(2)));
}

#[test]
fn a_tick_before_the_last_tick_adds_no_time() {
    let mut timer = timer_at_origin();
    assert_eq!(timer.tick_at(at(800_000_000)), None);
    assert_eq!(timer.tick_at(at(100_000_000)), None);
    assert_eq!(timer.elapsed_at(at(100_000_000)), Duration::from_nanos(0));
    // Ticks of 800 ms, nothing and 900_000_001 ns.
    assert_eq!(
        timer.tick_at(at(SECOND + 1)),
        Some(Duration::from_nanos(566_666_667))
    );
}

#[test]
fn the_sum_stops_at_the_longest_span() {
    let mut timer = timer_at_origin();
    let late = u128::MAX - SECOND - 1;
    assert_eq!(timer.tick_at(at(late)), Some(Duration::from_nanos(late)));
    // Going back adds nothing; the two ways up are more than the sum can take.
    assert_eq!(timer.tick_at(at(0)), None);
    assert_eq!(timer.tick_at(at(late + SECOND)), None);
    assert_eq!(timer.tick_at(at(0)), None);
    assert_eq!(
        timer.tick_at(at(u128::MAX)),
        Some(Duration::from_nanos(u128::MAX / 4))
    );
}

#[test]
fn trace_timer_measures_from_its_last_tick() {
    let mut timer = timer_at_origin();
    timer.tick_at(at(2_000));
    assert_eq!(timer.elapsed_at(at(2_500)), Duration::from_nanos(500));
    assert_eq!(timer.elapsed_at(at(1_000)), Duration::from_nanos(0));
    assert_eq!(timer.elapsed_ms_at(at(2_000 + 42_999_999)), 42);
    assert_eq!(timer.elapsed_ms_at(at(u128::MAX)), u32::MAX);
}

#[test]
fn trace_timer_runs_on_its_clock() {
    let mut timer = TraceTimer::new("io");
    assert_eq!(timer.tick(), None);
    assert_eq!(timer.tick(), None);
    while timer.elapsed_ms() < 3 {}
    assert!(timer.elapsed().as_nanos() >= 3_000_000);
    assert_eq!(timer.tick(), None);
    assert!(timer.elapsed_ms() < 5_000);
}

#[test]
fn trace_timer_reports_once_a_second_on_its_clock() {
    let mut timer = TraceTimer::new("frame");
    let mut reports = 0;
    let mut ticks = 0u64;
    while reports == 0 {
        ticks += 1;
        if let Some(mean) = timer.tick() {
            reports += 1;
            // The ticks, this one among them, took more than a second.
            assert!(mean.as_nanos() * (ticks as u128) <= 10_000_000_000);
            assert!((mean.as_nanos() + 1) * (ticks as u128) > 1_000_000_000);
        }
    }
    assert!(ticks > 1);
    assert_eq!(timer.tick(), None);
}
