use rperf3::common::pacing::TokenBucket;
use rperf3::common::time::{Duration, Instant};

fn start() -> Instant {
    Instant::at(Duration::from_secs(1_000))
}

fn as_millis(d: Duration) -> i64 {
    (d.nanos / 1_000_000) as i64
}

#[test]
fn unlimited_rate_never_waits() {
    let start = start();
    let mut bucket = TokenBucket::new(0, start);
    bucket.record(10_000_000);
    assert!(bucket.wait(start).is_none());
    assert!(bucket.wait(start.plus(Duration::from_secs(60))).is_none());
}

#[test]
fn no_wait_when_exactly_on_schedule() {
    let start = start();
    let mut bucket = TokenBucket::new(1_000_000, start);
    bucket.record(125_000);
    assert!(bucket.wait(start.plus(Duration::from_secs(1))).is_none());
}

#[test]
fn wait_proportional_when_ahead() {
    let start = start();
    let mut bucket = TokenBucket::new(1_000_000, start);
    bucket.record(250_000);
    let d = bucket.wait(start.plus(Duration::from_secs(1))).expect("should wait");
    let ms = as_millis(d);
    assert!((950..=1_050).contains(&ms), "unexpected wait: {} ms", ms);
    assert_eq!(d, Duration::from_secs(1));
}

#[test]
fn no_wait_when_behind_schedule() {
    let start = start();
    let mut bucket = TokenBucket::new(1_000_000, start);
    bucket.record(1_000);
    assert!(bucket.wait(start.plus(Duration::from_secs(1))).is_none());
}

#[test]
fn record_is_saturating() {
    let start = start();
    let mut bucket = TokenBucket::new(1_000_000, start);
    bucket.bytes_sent = u64::MAX - 10;
    bucket.record(1_000_000);
    assert_eq!(bucket.bytes_sent, u64::MAX);
}

#[test]
fn fresh_bucket_never_waits() {
    let bucket = TokenBucket::new(1, start());
    assert!(bucket.wait(start()).is_none());
}

#[test]
fn endless_pauses_are_refused() {
    let mut bucket = TokenBucket::new(1, start());
    bucket.record(u64::MAX);
    assert!(!bucket.check_wait(start()));
    let mut bucket = TokenBucket::new(8, start());
    bucket.record(1_000_000);
    assert!(bucket.check_wait(start()));
    assert_eq!(bucket.wait(start()), Some(Duration::from_secs(1_000_000)));
}

/// The pause in double precision.
fn reference(rate_bps: u64, bytes_sent: u64, elapsed: std::time::Duration) -> Option<std::time::Duration> {
    if rate_bps == 0 {
        return None;
    }
    let expected = (rate_bps as f64 / 8.0) * elapsed.as_secs_f64();
    let ahead = bytes_sent as f64 - expected;
    if ahead <= 0.0 {
        return None;
    }
    Some(std::time::Duration::from_secs_f64(ahead / (rate_bps as f64 / 8.0)))
}

#[test]
fn pauses_agree_with_double_precision() {
    let mut seed = 0x9E37_79B9_7F4A_7C15u64;
    let mut next = move || {
        seed ^= seed << 13;
        seed ^= seed >> 7;
        seed ^= seed << 17;
        seed
    };
    for _ in 0..4_000 {
        let rate = next() >> (next() % 64);
        let sent = next() >> (next() % 64);
        let nanos = next() >> (next() % 64);
        let mut bucket = TokenBucket::new(rate, start());
        bucket.record(sent);
        let now = start().plus(Duration { nanos: nanos as u128 });
        if !bucket.check_wait(now) {
            continue;
        }
        let expected = reference(rate, sent, std::time::Duration::from_nanos(nanos));
        let got = bucket.wait(now);
        assert_eq!(
            got.map(|d| d.nanos),
            expected.map(|d| d.as_nanos()),
            "rate {} sent {} nanos {}",
            rate,
            sent,
            nanos
        );
    }
}
