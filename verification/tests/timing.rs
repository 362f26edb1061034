use rperf3::common::time::{Duration, Instant, MAX_NANOS};
use rperf3::common::timer::{has_elapsed, Timer};

#[test]
fn is_elapsed_false_for_large_duration() {
    let timer = Timer::new();
    assert!(!timer.is_elapsed(Duration::from_secs(60)));
}

#[test]
fn nothing_has_always_elapsed() {
    assert!(Timer::new().is_elapsed(Duration::zero()));
    assert!(Timer::default().is_elapsed(Duration::zero()));
}

#[test]
fn no_stopwatch_runs_beyond_the_longest_span() {
    let timer = Timer::new();
    assert!(timer.elapsed().nanos <= MAX_NANOS);
    assert!(!timer.is_elapsed(Duration { nanos: MAX_NANOS + 1 }));
}

#[test]
fn the_stopwatch_runs_on() {
    let timer = Timer::new();
    let first = timer.elapsed();
    let mut last = timer.elapsed();
    while last == first {
        last = timer.elapsed();
    }
    assert!(last > first);
    assert!(timer.is_elapsed(last));
}

#[test]
fn exactly_the_span_has_elapsed() {
    let d = Duration::from_millis(20);
    assert!(has_elapsed(d, d));
    assert!(!has_elapsed(Duration { nanos: d.nanos - 1 }, d));
}

#[test]
fn spans_and_points() {
    assert_eq!(Duration::from_secs(2).nanos, 2_000_000_000);
    assert_eq!(Duration::from_millis(3).nanos, 3_000_000);
    assert_eq!(Duration::from_secs(1).plus(Duration::from_millis(1)).nanos, 1_001_000_000);
    assert!(Duration::zero().is_zero());
    assert!(!Duration::from_millis(1).is_zero());
    let t = Instant::at(Duration::from_secs(5));
    let u = t.plus(Duration::from_millis(250));
    assert_eq!(u.duration_since(t), Duration::from_millis(250));
    assert_eq!(t.duration_since(u), Duration::zero(), "an earlier point is not negative");
}
