use rperf3::common::binary64::{to_bits, to_seconds, Double};
use rperf3::common::cpu::{
    clock_ticks_per_sec, parse_proc_stat, sample, ticks_between, usage, CpuSnapshot, CpuUsage,
};
use rperf3::common::float_bits::FloatBits;
use rperf3::common::format::{bitrate, bitrate_bps, bits_per_second, bytes};
use rperf3::common::interval::IntervalSnapshot;
use rperf3::common::json_output::{summary, JsonSum};
use rperf3::common::stream::{
    format_interval_row, format_summary_row, titled, INTERVAL_HEADER, SUMMARY_SEPARATOR,
};
use rperf3::common::test::Config;
use rperf3::common::time::{Duration, MAX_NANOS};
use rperf3::common::{Direction, TransportKind};
use rperf3::report::format_session_line;
use rperf3::server::{format_server_row, format_summary, SessionTotals};

/// The number as the library holds it.
fn double(x: f64) -> Double {
    if x == 0.0 {
        return Double { mant: 0, exp: 0 };
    }
    let bits = x.to_bits();
    Double {
        mant: (bits & ((1 << 52) - 1)) | (1 << 52),
        exp: ((bits >> 52) & 0x7ff) as i32 - 1075,
    }
}

fn float(b: FloatBits) -> f64 {
    f64::from_bits(b.bits)
}

fn random() -> impl FnMut() -> u64 {
    let mut seed = 0x2545_F491_4F6C_DD1Du64;
    move || {
        seed ^= seed << 13;
        seed ^= seed >> 7;
        seed ^= seed << 17;
        seed
    }
}

#[test]
fn bytes_under_kib_renders_as_bytes() {
    assert_eq!(bytes(0), "0 Bytes");
    assert_eq!(bytes(1023), "1023 Bytes");
}

#[test]
fn bytes_kib_renders_with_two_decimals() {
    assert_eq!(bytes(1024), "1.00 KBytes");
    assert_eq!(bytes(2048), "2.00 KBytes");
    assert_eq!(bytes(1536), "1.50 KBytes");
}

#[test]
fn bytes_mib_renders_with_two_decimals() {
    assert_eq!(bytes(1024 * 1024), "1.00 MBytes");
    assert_eq!(bytes(128 * 1024 * 1024), "128.00 MBytes");
}

#[test]
fn bytes_gib_renders_with_two_decimals() {
    let n = 17_013_866_288u64;
    let out = bytes(n);
    assert!(out.ends_with(" GBytes"), "unexpected: {}", out);
    assert!(out.starts_with("15.8"), "unexpected: {}", out);
}

#[test]
fn bytes_tib_renders_in_tbytes() {
    let n = 2u64 * 1024u64 * 1024 * 1024 * 1024;
    assert_eq!(bytes(n), "2.00 TBytes");
}

#[test]
fn bytes_agree_with_double_precision() {
    let reference = |n: u64| {
        let units = [(1u64 << 40, "TBytes"), (1 << 30, "GBytes"), (1 << 20, "MBytes"), (1 << 10, "KBytes")];
        for (unit, name) in units {
            if n >= unit {
                return format!("{:.2} {}", n as f64 / unit as f64, name);
            }
        }
        format!("{} Bytes", n)
    };
    let mut next = random();
    for _ in 0..5_000 {
        let n = next() >> (next() % 64);
        assert_eq!(bytes(n), reference(n));
    }
    for n in [1_029, 1_034, 1_039, u64::MAX, 1 << 63, (1 << 53) + 1, 1_048_575] {
        assert_eq!(bytes(n), reference(n));
    }
}

#[test]
fn bitrate_bps_scales_by_1000() {
    assert_eq!(bitrate_bps(double(500.0)), "500.00 bits/sec");
    assert_eq!(bitrate_bps(double(1_000.0)), "1.00 Kbits/sec");
    assert_eq!(bitrate_bps(double(1_500_000.0)), "1.50 Mbits/sec");
    assert_eq!(bitrate_bps(double(137_500_000_000.0)), "137.50 Gbits/sec");
}

#[test]
fn bitrate_from_bytes_over_seconds() {
    assert_eq!(bitrate(125_000, double(1.0)), "1.00 Mbits/sec");
}

#[test]
fn bitrate_handles_zero_duration_without_panic() {
    let out = bitrate(1_000, double(0.0));
    assert!(out.ends_with("bits/sec"));
    assert_eq!(out, "8.00 Gbits/sec");
}

/// A rate in double precision.
fn reference_rate(bps: f64) -> String {
    let units = [(1e12, "Tbits/sec"), (1e9, "Gbits/sec"), (1e6, "Mbits/sec"), (1e3, "Kbits/sec")];
    for (unit, name) in units {
        if bps >= unit {
            return format!("{:.2} {}", bps / unit, name);
        }
    }
    format!("{:.2} bits/sec", bps)
}

#[test]
fn rates_agree_with_double_precision() {
    let mut next = random();
    for _ in 0..5_000 {
        let n = next() >> (next() % 64);
        let nanos = next() >> (next() % 64);
        let secs = std::time::Duration::from_nanos(nanos).as_secs_f64();
        let bps = (n as f64 * 8.0) / secs.max(0.000_001);
        assert_eq!(bitrate(n, double(secs)), reference_rate(bps));
        assert_eq!(float(to_bits(bits_per_second(n, double(secs)))), bps);
    }
    assert_eq!(bitrate_bps(double(999.999)), reference_rate(999.999));
    assert_eq!(bitrate_bps(double(0.0)), "0.00 bits/sec");
    assert_eq!(bitrate_bps(double(0.125)), "0.12 bits/sec");
    assert_eq!(bitrate_bps(double(0.375)), "0.38 bits/sec");
}

#[test]
fn seconds_agree_with_double_precision() {
    let mut next = random();
    for _ in 0..5_000 {
        let secs = next() >> (next() % 64);
        let sub = (next() % 1_000_000_000) as u32;
        let std_secs = std::time::Duration::new(secs, sub).as_secs_f64();
        let ours = to_seconds(Duration { nanos: secs as u128 * 1_000_000_000 + sub as u128 });
        assert_eq!(float(to_bits(ours)), std_secs);
    }
    assert_eq!(float(to_bits(to_seconds(Duration { nanos: MAX_NANOS }))), u64::MAX as f64 + 1.0);
    assert_eq!(float(to_bits(to_seconds(Duration { nanos: 1 }))), 1e-9);
}

#[test]
fn arithmetic_agrees_with_double_precision() {
    let mut next = random();
    for _ in 0..20_000 {
        let a = (next() >> (next() % 64)) as f64 / (1 + (next() >> (next() % 64))) as f64;
        let b = (next() >> (next() % 64)) as f64 / (1 + (next() >> (next() % 64))) as f64;
        let (x, y) = (double(a), double(b));
        assert_eq!(float(to_bits(x)), a);
        assert_eq!(float(to_bits(x.plus(y))), a + b);
        assert_eq!(float(to_bits(x.times(y))), a * b);
        if b > 0.0 {
            assert_eq!(float(to_bits(x.div(y))), a / b);
        }
        if a >= b {
            assert_eq!(float(to_bits(x.minus(y))), a - b);
        }
        assert_eq!(x.is_below(y), a < b);
        assert_eq!(float(to_bits(x.max(y))), a.max(b));
    }
    for n in [0, 1, 3, (1 << 53) - 1, (1 << 53) + 1, (1 << 54) + 2, (1 << 54) + 6, u64::MAX] {
        assert_eq!(float(to_bits(Double::from_u64(n))), n as f64);
    }
    let (one, tiny) = (double(1.0), double(1e-30));
    assert_eq!(float(to_bits(one.plus(tiny))), 1.0);
    assert_eq!(float(to_bits(one.minus(tiny))), 1.0);
    assert_eq!(float(to_bits(one.minus(double(1e-16)))), 1.0 - 1e-16);
    assert_eq!(float(to_bits(Double::zero())), 0.0);
}

/// A row of the table in double precision.
fn reference_row(id: u32, start: f64, end: f64, n: u64) -> String {
    let secs = (end - start).max(0.000_001);
    format!(
        "[{:>3}] {:>6.2}-{:<5.2} sec  {:>10}  {:>14}",
        id,
        start,
        end,
        bytes(n),
        reference_rate((n as f64 * 8.0) / secs)
    )
}

#[test]
fn rows_have_their_columns() {
    assert_eq!(
        format_interval_row(5, double(0.0), double(1.0), 134_217_728),
        "[  5]   0.00-1.00  sec  128.00 MBytes  1.07 Gbits/sec"
    );
    assert_eq!(
        format_summary_row(1, double(0.0), double(10.25), 0, "sender"),
        "[  1]   0.00-10.25 sec     0 Bytes   0.00 bits/sec  sender"
    );
    let mut next = random();
    for _ in 0..2_000 {
        let id = next() as u32 >> (next() % 32);
        let start = (next() % 100_000_000_000) as f64 / 1e9;
        let end = (next() % 100_000_000_000) as f64 / 1e9;
        let n = next() >> (next() % 64);
        assert_eq!(
            format_interval_row(id, double(start), double(end), n),
            reference_row(id, start, end, n)
        );
    }
    assert_eq!(INTERVAL_HEADER, "[ ID] Interval           Transfer     Bitrate");
    assert_eq!(SUMMARY_SEPARATOR.len(), 49);
}

#[test]
fn titles_stand_in_front_of_rows() {
    assert_eq!(titled(&Some("run-1".to_string()), "row"), "run-1:  row");
    assert_eq!(titled(&None, "row"), "row");
}

#[test]
fn mbits_per_sec_matches_bytes_over_duration() {
    let snap = IntervalSnapshot {
        stream_id: 1,
        start: Duration::zero(),
        end: Duration::from_secs(1),
        bytes: 125_000,
    };
    assert!((float(to_bits(snap.mbits_per_sec())) - 1.0).abs() < 1e-6);
}

#[test]
fn mbits_agree_with_double_precision() {
    let mut next = random();
    for _ in 0..3_000 {
        let a = next() >> (next() % 64);
        let b = next() >> (next() % 64);
        let n = next() >> (next() % 64);
        let snap = IntervalSnapshot {
            stream_id: 1,
            start: Duration { nanos: a as u128 },
            end: Duration { nanos: b as u128 },
            bytes: n,
        };
        let start = std::time::Duration::from_nanos(a).as_secs_f64();
        let end = std::time::Duration::from_nanos(b).as_secs_f64();
        let expected = (n as f64 * 8.0) / 1_000_000.0 / (end - start).max(0.000_001);
        assert_eq!(float(to_bits(snap.mbits_per_sec())), expected);
    }
}

#[test]
fn server_rows_name_stream_and_rate() {
    let snap = IntervalSnapshot {
        stream_id: 2,
        start: Duration::from_secs(1),
        end: Duration::from_millis(2_500),
        bytes: 187_500,
    };
    assert_eq!(
        format_server_row(&snap, false),
        "[SRV 2] 1.00-2.50 sec  183.11 KBytes  1.00 Mbits/sec"
    );
    assert_eq!(
        format_server_row(&snap, true),
        "[SRV 2] 1.00-2.50 sec  183.11 KBytes  1.00 Mbits/sec (final)"
    );
}

#[test]
fn format_summary_contains_bytes_and_throughput() {
    let line = format_summary(10_000_000, Duration::from_secs(1), 1);
    assert!(line.contains("10000000"));
    assert!(line.contains("stream"));
    assert!(line.contains("Mbits/sec"));
    assert_eq!(line, "received 10000000 bytes across 1 stream(s) in 1.00s (80.00 Mbits/sec)");
}

#[test]
fn format_summary_handles_zero_duration_without_panic() {
    let line = format_summary(1_000, Duration::from_secs(0), 1);
    assert_eq!(line, "received 1000 bytes across 1 stream(s) in 0.00s (8000.00 Mbits/sec)");
}

#[test]
fn summaries_agree_with_double_precision() {
    let mut next = random();
    for _ in 0..3_000 {
        let n = next() >> (next() % 64);
        let nanos = next() >> (next() % 64);
        let secs = std::time::Duration::from_nanos(nanos).as_secs_f64().max(0.000_001);
        let mbits = (n as f64 * 8.0) / 1_000_000.0 / secs;
        let expected = format!(
            "received {} bytes across {} stream(s) in {:.2}s ({:.2} Mbits/sec)",
            n, 3, secs, mbits
        );
        assert_eq!(format_summary(n, Duration { nanos: nanos as u128 }, 3), expected);
    }
}

#[test]
fn json_sum_computes_bitrate() {
    let sum = JsonSum::new(1_000_000, double(1.0));
    assert!((float(sum.bits_per_second) - 8_000_000.0).abs() < 1.0);
    assert_eq!(float(sum.seconds), 1.0);
    assert_eq!(sum.bytes, 1_000_000);
}

#[test]
fn json_sum_avoids_divide_by_zero() {
    let sum = JsonSum::new(100, double(0.0));
    assert!(float(sum.bits_per_second).is_finite());
    assert!(float(sum.bits_per_second) > 0.0);
}

#[test]
fn json_summary_tells_what_was_asked_for() {
    let mut cfg = Config::with_host("127.0.0.1");
    cfg.time = 3;
    let j = summary(&cfg, 1_000_000, 900_000, double(0.5));
    let to = j.start.connecting_to.unwrap();
    assert_eq!(to.host, "127.0.0.1");
    assert_eq!(to.port, 5201);
    assert_eq!(j.start.test_start.protocol, "TCP");
    assert_eq!(j.start.test_start.num_streams, 1);
    assert_eq!(j.start.test_start.blksize, 131_072);
    assert_eq!(j.start.test_start.duration, 3);
    assert_eq!((j.start.test_start.reverse, j.start.test_start.bidir), (0, 0));
    assert_eq!(j.end.sum_sent.bytes, 1_000_000);
    assert_eq!(float(j.end.sum_sent.bits_per_second), 16_000_000.0);
    assert_eq!(j.end.sum_received.bytes, 900_000);
    assert_eq!(float(j.end.sum_received.seconds), 0.5);

    cfg.transport = TransportKind::Udp;
    cfg.direction = Direction::Reverse;
    let t = summary(&cfg, 0, 0, double(0.0)).start.test_start;
    assert_eq!((t.protocol.as_str(), t.reverse, t.bidir), ("UDP", 1, 0));
    cfg.direction = Direction::Bidirectional;
    let t = summary(&cfg, 0, 0, double(0.0)).start.test_start;
    assert_eq!((t.reverse, t.bidir), (0, 1));
}

#[test]
fn parses_realistic_proc_stat_line() {
    let raw = "1234 (rp )erf) S 1000 1234 1 0 -1 4194304 10 20 0 0 125 250 0 0 20 0 2 0 1234 1 2 3\n";
    let snap = parse_proc_stat(raw).expect("parse");
    assert_eq!(snap.user_ticks, 125);
    assert_eq!(snap.system_ticks, 250);
}

#[test]
fn parse_returns_none_on_malformed_input() {
    assert!(parse_proc_stat("not stat").is_none());
    assert!(parse_proc_stat("1 (x) S 2 3 4").is_none());
    assert!(parse_proc_stat("1 (x) S 1 2 3 4 5 6 7 8 9 10 x 12").is_none());
    assert!(parse_proc_stat("").is_none());
}

#[test]
fn usage_math_normalises_by_wall_clock() {
    let start = CpuSnapshot { user_ticks: 0, system_ticks: 0 };
    let end = CpuSnapshot { user_ticks: 100, system_ticks: 100 };
    let ticks = clock_ticks_per_sec(100);
    let ticks_per_sec = ticks as f64;
    let u = usage(&start, &end, Duration::from_secs(1), ticks);
    assert!((float(to_bits(u.user_pct)) - 100.0 * 100.0 / ticks_per_sec).abs() < 1e-6);
    assert!((float(to_bits(u.system_pct)) - 100.0 * 100.0 / ticks_per_sec).abs() < 1e-6);
    assert!((float(to_bits(u.total_pct)) - 2.0 * 100.0 * 100.0 / ticks_per_sec).abs() < 1e-6);
}

#[test]
fn usage_is_zero_for_zero_wall_clock() {
    let snap = CpuSnapshot::default();
    assert_eq!(usage(&snap, &snap, Duration::zero(), 100), CpuUsage::zero());
}

#[test]
fn usage_agrees_with_double_precision() {
    let mut next = random();
    for _ in 0..2_000 {
        let (user, system) = (next() >> (next() % 64), next() >> (next() % 64));
        let ticks = 1 + (next() >> (next() % 64)) / 2;
        let nanos = 1 + (next() >> (next() % 64)) / 2;
        let start = CpuSnapshot { user_ticks: next() >> 20, system_ticks: next() >> 40 };
        let end = CpuSnapshot { user_ticks: user, system_ticks: system };
        let u = usage(&start, &end, Duration { nanos: nanos as u128 }, ticks);
        let wall = std::time::Duration::from_nanos(nanos).as_secs_f64();
        let user_secs = user.saturating_sub(start.user_ticks) as f64 / ticks as f64;
        let sys_secs = system.saturating_sub(start.system_ticks) as f64 / ticks as f64;
        assert_eq!(float(to_bits(u.user_pct)), 100.0 * user_secs / wall);
        assert_eq!(float(to_bits(u.system_pct)), 100.0 * sys_secs / wall);
        assert_eq!(float(to_bits(u.total_pct)), 100.0 * (user_secs + sys_secs) / wall);
    }
}

#[test]
fn sample_returns_something_on_this_platform() {
    let _ = sample(Some("1 (x) S 1 2 3 4 5 6 7 8 9 10 11 12"));
    assert_eq!(sample(None), CpuSnapshot::default());
    assert_eq!(sample(Some("nothing")), CpuSnapshot::default());
    let line = "1 (x) S 1 2 3 4 5 6 7 8 9 10 77 88 0";
    assert_eq!(sample(Some(line)), CpuSnapshot { user_ticks: 77, system_ticks: 88 });
}

#[test]
fn processor_use_is_told_where_there_was_any() {
    let a = CpuSnapshot { user_ticks: 0, system_ticks: 0 };
    let b = CpuSnapshot { user_ticks: 25, system_ticks: 50 };
    let u = usage(&a, &b, Duration::from_secs(2), 100);
    assert_eq!(
        u.line("[SERVER] ").unwrap(),
        "[SERVER] CPU: 37.50% total (12.50% user, 25.00% system)"
    );
    assert_eq!(usage(&a, &a, Duration::from_secs(2), 100).line(""), None);
    let huge = CpuSnapshot { user_ticks: u64::MAX, system_ticks: u64::MAX };
    let u = usage(&a, &huge, Duration { nanos: 1 }, 1);
    let total = 100.0 * (u64::MAX as f64 + u64::MAX as f64) / 1e-9;
    assert!(u.line("").unwrap().starts_with(&format!("CPU: {:.2}% total", total)));
}

#[test]
fn session_line_tells_bytes_and_times() {
    let totals = SessionTotals {
        total_bytes: 111,
        measured_bytes: 71,
        raw: Duration { nanos: 1_234_567_890 },
        steady: Duration::from_millis(700),
        wall: Duration::zero(),
        summary_bytes: 0,
        summary_duration: Duration::zero(),
    };
    assert_eq!(
        format_session_line(&totals, 2),
        "total bytes received: 111 (71 post-omit) across 2 stream(s) over 1.234568s (steady-state 0.700000s)"
    );
    let mut next = random();
    for _ in 0..2_000 {
        let nanos = next() >> (next() % 64);
        let mut t = totals;
        t.raw = Duration { nanos: nanos as u128 };
        let secs = std::time::Duration::from_nanos(nanos).as_secs_f64();
        assert!(format_session_line(&t, 1).contains(&format!("over {:.6}s (", secs)));
    }
}

#[test]
fn ticks_never_run_backwards() {
    let a = CpuSnapshot { user_ticks: 10, system_ticks: 3 };
    let b = CpuSnapshot { user_ticks: 4, system_ticks: 9 };
    assert_eq!(ticks_between(&a, &b), CpuSnapshot { user_ticks: 0, system_ticks: 6 });
    assert_eq!(clock_ticks_per_sec(250), 250);
    assert_eq!(clock_ticks_per_sec(0), 100);
    assert_eq!(clock_ticks_per_sec(-1), 100);
}
