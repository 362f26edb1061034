use rperf3::common::error::ErrorKind;
use rperf3::common::binary64::{to_bits, Double};
use rperf3::common::jitter::{distance_of, estimate_to_bits, transit_of, update, Signed};
use rperf3::common::time::{Duration, Instant};
use rperf3::common::udp_header::UdpHeader;
use rperf3::common::udp_session::{
    ends_on_error, stream_ack, DatagramOutcome, PeerAddr, StopStep, UdpAccept, UdpReceiver,
};
use rperf3::server::StreamReceipt;

fn peer(port: u16) -> PeerAddr {
    PeerAddr { v6: false, ip: 0x7f00_0001, port, flowinfo: 0, scope_id: 0 }
}

fn at(millis: u64) -> Instant {
    Instant::at(Duration::from_millis(millis))
}

fn datagram(seq: i64, len: usize) -> Vec<u8> {
    let mut buf = vec![0u8; len];
    UdpHeader { tv_sec: 1, tv_usec: 2, seq }.encode(&mut buf).unwrap();
    buf
}

#[test]
fn accept_takes_each_peer_once() {
    assert_eq!(stream_ack(), b"6789");
    let mut a = UdpAccept::new(2);
    assert!(!a.is_complete());
    assert!(a.on_datagram(peer(1)));
    assert!(!a.on_datagram(peer(1)), "the same peer again opens no stream");
    assert!(!a.is_complete());
    assert!(a.on_datagram(peer(2)));
    assert!(a.is_complete());
    assert_eq!(a.addrs, vec![peer(1), peer(2)]);
    assert!(UdpAccept::new(0).is_complete());
}

#[test]
fn peers_differ_in_any_part() {
    let base = peer(1);
    let others = [
        PeerAddr { v6: true, ..base },
        PeerAddr { ip: 1, ..base },
        PeerAddr { port: 2, ..base },
        PeerAddr { flowinfo: 1, ..base },
        PeerAddr { scope_id: 1, ..base },
    ];
    let mut a = UdpAccept::new(9);
    assert!(a.on_datagram(base));
    for p in others {
        assert!(a.on_datagram(p));
    }
    assert_eq!(a.addrs.len(), 6);
}

#[test]
fn receiver_accounts_packets_and_stops_on_sentinel() {
    let mut r = UdpReceiver::new(vec![peer(1)], Duration::zero());
    for seq in 0..5 {
        let now = at(10 + 5 * seq as u64);
        assert!(r.check_room(peer(1), &datagram(seq, 64), now));
        let outcome = r.on_datagram(peer(1), &datagram(seq, 64), now);
        assert_eq!(outcome, DatagramOutcome::Counted { slot: 0 });
    }
    assert!(!r.on_stop(at(100)).finished);
    let outcome = r.on_datagram(peer(1), &datagram(-1, 16), at(40));
    assert_eq!(outcome, DatagramOutcome::Ended { slot: 0 });
    assert_eq!(r.on_stop(at(101)), StopStep { shorten_timeout: false, finished: true });
    let receipts = r.finish();
    assert_eq!(receipts.len(), 1);
    assert_eq!(receipts[0].packets, 5);
    assert_eq!(receipts[0].bytes, 5 * 64);
    assert_eq!(receipts[0].lost, 0);
    assert_eq!(receipts[0].ooo, 0);
    assert_eq!(receipts[0].elapsed(), Duration::from_millis(20));
}

#[test]
fn grace_period_ends_without_sentinel() {
    let mut r = UdpReceiver::new(vec![peer(1)], Duration::zero());
    assert_eq!(r.on_stop(at(1_000)), StopStep { shorten_timeout: true, finished: false });
    assert_eq!(r.on_stop(at(1_499)), StopStep { shorten_timeout: false, finished: false });
    assert_eq!(r.on_stop(at(1_500)), StopStep { shorten_timeout: false, finished: true });
}

#[test]
fn gaps_are_lost_and_late_datagrams_are_out_of_order() {
    let mut r = UdpReceiver::new(vec![peer(1)], Duration::zero());
    for seq in [0, 3, 1, 3, 4, i64::MAX] {
        r.on_datagram(peer(1), &datagram(seq, 16), at(0));
    }
    let receipt = r.finish()[0];
    assert_eq!(receipt.packets, 6);
    assert_eq!(receipt.ooo, 1, "a repeat of the highest number is not late");
    assert_eq!(receipt.lost, i64::MAX as u64 + 1 - 6);
}

#[test]
fn late_datagram_is_not_lost() {
    let mut r = UdpReceiver::new(vec![peer(1)], Duration::zero());
    for (seq, lost) in [(0, 0), (2, 1), (1, 0), (5, 2), (4, 1), (5, 0), (5, 0)] {
        r.on_datagram(peer(1), &datagram(seq, 64), at(0));
        assert_eq!(r.states[0].receipt.lost, lost, "after {}", seq);
    }
    let receipt = r.finish()[0];
    assert_eq!((receipt.packets, receipt.ooo, receipt.lost), (7, 2, 0));
}

#[test]
fn first_number_may_be_anything() {
    let mut r = UdpReceiver::new(vec![peer(1)], Duration::zero());
    r.on_datagram(peer(1), &datagram(i64::MAX, 16), at(0));
    assert_eq!(r.finish()[0].lost, i64::MAX as u64);
}

#[test]
fn short_and_foreign_datagrams_are_passed_over() {
    let mut r = UdpReceiver::new(vec![peer(1)], Duration::zero());
    assert_eq!(r.on_datagram(peer(1), &[0; 15], at(0)), DatagramOutcome::TooShort);
    assert_eq!(r.on_datagram(peer(9), &[0; 15], at(0)), DatagramOutcome::TooShort);
    assert_eq!(r.on_datagram(peer(9), &datagram(0, 16), at(0)), DatagramOutcome::UnknownSource);
    assert_eq!(r.finish(), vec![StreamReceipt::empty()]);
}

#[test]
fn streams_are_told_apart_by_their_peer() {
    let mut r = UdpReceiver::new(vec![peer(1), peer(2)], Duration::from_millis(10));
    r.on_datagram(peer(2), &datagram(0, 100), at(0));
    r.on_datagram(peer(1), &datagram(0, 20), at(5));
    r.on_datagram(peer(2), &datagram(1, 100), at(10));
    r.on_datagram(peer(2), &datagram(-1, 16), at(11));
    assert!(!r.on_stop(at(12)).finished, "one stream is still open");
    let receipts = r.finish();
    assert_eq!((receipts[0].bytes, receipts[0].bytes_omit), (20, 20));
    assert_eq!((receipts[1].bytes, receipts[1].bytes_omit), (200, 100));
    assert_eq!(receipts[1].first_measured_at, Some(at(10)));
    assert_eq!(f64::from_bits(receipts[1].jitter_ms.bits), 10.0 / 16.0);
    assert_eq!(f64::from_bits(receipts[0].jitter_ms.bits), 0.0);
    assert_eq!(receipts[1].packets, 2, "the sentinel is not counted");
}

#[test]
fn peer_in_the_order_twice_is_counted_once() {
    let mut r = UdpReceiver::new(vec![peer(1), peer(1)], Duration::zero());
    r.on_datagram(peer(1), &datagram(0, 50), at(0));
    r.on_datagram(peer(1), &datagram(-1, 16), at(1));
    assert!(r.on_stop(at(2)).finished);
    let receipts = r.finish();
    assert_eq!(receipts[0].bytes, 50);
    assert_eq!(receipts[1], StreamReceipt::empty());
}

#[test]
fn full_counts_are_noticed() {
    let mut r = UdpReceiver::new(vec![peer(1)], Duration::zero());
    r.states[0].receipt.bytes = u64::MAX - 16;
    assert!(r.check_room(peer(1), &datagram(0, 16), at(0)));
    assert!(!r.check_room(peer(1), &datagram(0, 17), at(0)));
    assert!(r.check_room(peer(1), &datagram(-1, 17), at(0)), "the end of a stream");
    assert!(r.check_room(peer(2), &datagram(0, 17), at(0)), "from elsewhere");
}

#[test]
fn only_a_timeout_is_no_end_while_the_test_runs() {
    assert!(!ends_on_error(ErrorKind::WouldBlock, false));
    assert!(!ends_on_error(ErrorKind::TimedOut, false));
    assert!(ends_on_error(ErrorKind::TimedOut, true));
    assert!(ends_on_error(ErrorKind::Other, false));
}

#[test]
fn test_without_streams_is_over_at_once() {
    let mut r = UdpReceiver::new(Vec::new(), Duration::zero());
    assert!(r.on_stop(at(0)).finished);
    assert!(r.finish().is_empty());
}

/// The number as the library holds it.
fn double(x: f64) -> Double {
    if x == 0.0 {
        return Double { mant: 0, exp: 0 };
    }
    let bits = x.to_bits();
    let (mant, exp) = (bits & ((1 << 52) - 1), ((bits >> 52) & 0x7ff) as i32);
    if exp == 0 {
        let shift = mant.leading_zeros() as i32 - 11;
        return Double { mant: mant << shift, exp: -1074 - shift };
    }
    Double { mant: mant | (1 << 52), exp: exp - 1075 }
}

fn signed(x: f64) -> Signed {
    Signed { negative: x < 0.0, size: double(x.abs()) }
}

fn step(j: f64, d: f64) -> f64 {
    f64::from_bits(estimate_to_bits(update(double(j), signed(d))).bits)
}

#[test]
fn zero_d_leaves_jitter_unchanged() {
    assert_eq!(step(5.0, 0.0), 5.0 - 5.0 / 16.0);
}

#[test]
fn converges_to_d_under_constant_input() {
    let mut j = 0.0;
    for _ in 0..200 {
        j = step(j, 10.0);
    }
    assert!((j - 10.0).abs() < 0.01, "did not converge: {}", j);
}

#[test]
fn absolute_value_is_used() {
    let pos = step(1.0, 5.0);
    let neg = step(1.0, -5.0);
    assert_eq!(pos, neg);
}

#[test]
fn starting_from_zero_moves_toward_d() {
    let j = step(0.0, 16.0);
    assert_eq!(j, 1.0);
}

#[test]
fn jitter_agrees_with_double_precision() {
    let mut seed = 0x1234_5678_9ABC_DEF1u64;
    let mut next = move || {
        seed ^= seed << 13;
        seed ^= seed >> 7;
        seed ^= seed << 17;
        seed
    };
    let mut j = 0.0f64;
    for _ in 0..20_000 {
        let d = (next() >> (next() % 64)) as f64 / (1 + (next() >> (next() % 64))) as f64;
        let d = if next() % 3 == 0 { -d } else { d };
        let expected = j + (d.abs() - j) / 16.0;
        assert_eq!(step(j, d), expected);
        j = expected;
    }
}

#[test]
fn fading_jitter_agrees_with_double_precision() {
    let mut j = 3.5f64;
    for _ in 0..13_000 {
        let expected = j + (0.0 - j) / 16.0;
        assert_eq!(step(j, 0.0).to_bits(), expected.to_bits());
        j = expected;
    }
    assert!(j > 0.0 && j < 1e-320, "the smallest numbers were reached: {:e}", j);
    for k in 0..200u64 {
        for d in [0u64, 1, 7, 8, 9, 24, 25, 1000] {
            let (j, d) = (f64::from_bits(k), f64::from_bits(d));
            assert_eq!(step(j, d).to_bits(), (j + (d - j) / 16.0).to_bits());
        }
    }
}

#[test]
fn transit_times_agree_with_double_precision() {
    let mut seed = 0x0BAD_CAFE_1234_5677u64;
    let mut next = move || {
        seed ^= seed << 13;
        seed ^= seed >> 7;
        seed ^= seed << 17;
        seed
    };
    let value = |t: Signed| {
        let size = f64::from_bits(to_bits(t.size).bits);
        if t.negative {
            -size
        } else {
            size
        }
    };
    let mut last = None;
    for _ in 0..20_000 {
        let nanos = next() >> (next() % 64);
        let (tv_sec, tv_usec) = ((next() >> (next() % 64)) as u32, next() as u32 % 1_000_000);
        let t = transit_of(
            Duration { nanos: nanos as u128 },
            &UdpHeader { tv_sec, tv_usec, seq: 0 },
        );
        let recv_ms = std::time::Duration::from_nanos(nanos).as_secs_f64() * 1_000.0;
        let send_ms = (tv_sec as f64) * 1_000.0 + (tv_usec as f64) / 1_000.0;
        let expected = recv_ms - send_ms;
        assert_eq!(value(t), expected);
        if let Some((prev, prev_value)) = last {
            let prev_value: f64 = prev_value;
            assert_eq!(value(distance_of(t, prev)), expected - prev_value);
        }
        last = Some((t, expected));
    }
}

#[test]
fn receiver_estimates_jitter_as_in_double_precision() {
    let mut r = UdpReceiver::new(vec![peer(1)], Duration::zero());
    let mut estimate = 0.0f64;
    let mut last: Option<f64> = None;
    let start = 123_456_789u128;
    let mut since = 0u64;
    for i in 0..500u64 {
        since += 1_000_000 + (i * i * 7_919) % 300_000;
        let header = UdpHeader {
            tv_sec: 1_700_000_000 + (i / 7) as u32,
            tv_usec: ((i * 104_729) % 1_000_000) as u32,
            seq: i as i64,
        };
        let mut buf = [0u8; 20];
        header.encode(&mut buf).unwrap();
        let first = if i == 0 { since } else { 1_000_000 };
        let now = Instant { nanos: start + since as u128 };
        r.on_datagram(peer(1), &buf, now);
        let recv_ms = std::time::Duration::from_nanos(since - first).as_secs_f64() * 1_000.0;
        let send_ms = header.tv_sec as f64 * 1_000.0 + header.tv_usec as f64 / 1_000.0;
        let transit = recv_ms - send_ms;
        if let Some(prev) = last {
            estimate += ((transit - prev).abs() - estimate) / 16.0;
        }
        last = Some(transit);
    }
    assert_eq!(f64::from_bits(r.finish()[0].jitter_ms.bits), estimate);
}
