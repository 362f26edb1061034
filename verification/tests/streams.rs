use rperf3::common::error::{ErrorKind, IoError};
use rperf3::common::interval::{IntervalReporter, IntervalSnapshot};
use rperf3::common::protocol::{MockSocket, Protocol, Socket};
use rperf3::common::stream::{
    build_payload, judge, sentinel_packet, should_stop, stream_duration, Stream, StreamMeter,
    StreamPause, StreamStep, Transfer, UdpSender, SendStep, Verdict,
};
use rperf3::common::time::{Duration, Instant};
use rperf3::common::timer::{Clock, Timer};
use rperf3::common::udp_header::{UdpHeader, UDP_HEADER_LEN};
use std::sync::{Arc, Mutex};

struct Recorder {
    written: Arc<Mutex<Vec<u8>>>,
}

impl Socket for Recorder {
    fn recv(&mut self, _buf: &mut [u8]) -> Result<usize, IoError> {
        Ok(0)
    }
    fn send(&mut self, buf: &[u8]) -> Result<usize, IoError> {
        self.written.lock().unwrap().extend_from_slice(buf);
        Ok(buf.len())
    }
    fn set_nonblocking(&mut self, _nonblocking: bool) -> Result<(), IoError> {
        Ok(())
    }
    fn set_read_timeout(&mut self, _timeout: Option<Duration>) -> Result<(), IoError> {
        Ok(())
    }
    fn tcp_retransmits(&self) -> Result<u32, IoError> {
        Ok(0)
    }
}

fn at(millis: u64) -> Instant {
    Instant::at(Duration::from_millis(5_000_000 + millis))
}

fn failed(kind: ErrorKind) -> Result<usize, IoError> {
    Err(IoError::new(kind, "test"))
}

#[test]
fn build_payload_matches_len() {
    let buf = build_payload(65_536);
    assert_eq!(buf.len(), 65_536);
    assert!(buf.iter().all(|b| *b == 1));
}

#[test]
fn build_payload_zero_len_is_empty() {
    assert!(build_payload(0).is_empty());
}

#[test]
fn should_stop_is_false_before_duration() {
    let timer = Timer::new();
    assert!(!should_stop(&timer, Duration::from_secs(60)));
}

#[test]
fn should_stop_at_once_without_time() {
    assert!(should_stop(&Timer::new(), Duration::zero()));
}

#[test]
fn send_data_without_protocol_is_zero_bytes() {
    let mut stream = Stream::new();
    let n = stream.send_data(b"hello").expect("no-protocol send is Ok");
    assert_eq!(n, 0);
}

#[test]
fn send_data_forwards_bytes_to_protocol() {
    let written = Arc::new(Mutex::new(Vec::new()));
    let mut stream = Stream::default();
    stream.protocol =
        Some(Protocol::new(Box::new(Recorder { written: written.clone() })));

    let payload = b"abcdef";
    let n = stream.send_data(payload).expect("send ok");
    assert_eq!(n, payload.len());
    assert_eq!(&*written.lock().unwrap(), payload);
}

#[test]
fn send_data_propagates_err_from_protocol() {
    let mock = MockSocket::new().with_send_error(IoError::new(ErrorKind::Other, "boom"));
    let mut stream = Stream::new();
    stream.protocol = Some(Protocol::new(Box::new(mock)));

    let err = stream.send_data(b"payload").expect_err("should bubble");
    assert_eq!(err.kind(), ErrorKind::Other);
}

#[test]
fn mock_socket_records_sent_bytes() {
    let mut mock = MockSocket::new();
    assert_eq!(mock.send(b"abc").unwrap(), 3);
    assert_eq!(mock.send(b"de").unwrap(), 2);
    assert_eq!(mock.written, b"abcde");
}

#[test]
fn mock_socket_returns_send_err_when_configured() {
    let mut mock =
        MockSocket::new().with_send_error(IoError::new(ErrorKind::BrokenPipe, "nope"));
    let err = mock.send(b"x").unwrap_err();
    assert_eq!(err.kind(), ErrorKind::BrokenPipe);
}

#[test]
fn mock_socket_records_read_timeout() {
    let mut mock = MockSocket::new();
    assert!(mock.set_read_timeout(Some(Duration::from_millis(250))).is_ok());
    assert_eq!(mock.read_timeout, Some(Some(Duration::from_millis(250))));

    assert!(mock.set_read_timeout(None).is_ok());
    assert_eq!(mock.read_timeout, Some(None));
}

#[test]
fn mock_socket_records_whether_it_polls() {
    let mut mock = MockSocket::new();
    assert!(mock.set_nonblocking(true).is_ok());
    assert_eq!(mock.nonblocking, Some(true));
    assert_eq!(mock.tcp_retransmits().unwrap(), 0);
    assert!(mock.apply_tuning(&Default::default()).is_ok());
}

#[test]
fn bytes_without_crossing_boundary_return_none() {
    let mut rep = IntervalReporter::new(1, Duration::from_secs(1));
    assert!(rep.on_bytes(100, at(0)).is_none());
    assert!(rep.on_bytes(200, at(500)).is_none());
}

fn secs(d: Duration) -> f64 {
    d.nanos as f64 / 1e9
}

#[test]
fn crossing_boundary_emits_snapshot_with_accumulated_bytes() {
    let mut rep = IntervalReporter::new(1, Duration::from_secs(1));
    assert!(rep.on_bytes(1_000, at(0)).is_none());
    let snap = rep.on_bytes(2_000, at(1_000)).expect("snapshot at boundary");

    assert_eq!(snap.stream_id, 1);
    assert!((secs(snap.start) - 0.0).abs() < 1e-9);
    assert!((secs(snap.end) - 1.0).abs() < 1e-9);
    assert_eq!(snap.bytes, 3_000);
}

#[test]
fn subsequent_boundaries_reset_counter() {
    let mut rep = IntervalReporter::new(7, Duration::from_secs(1));
    rep.on_bytes(500, at(0));
    let snap1 = rep.on_bytes(500, at(1_000)).expect("snap1");
    assert_eq!(snap1.bytes, 1_000);

    let snap2 = rep.on_bytes(2_000, at(2_050)).expect("snap2");
    assert_eq!(snap2.stream_id, 7);
    assert_eq!(snap2.bytes, 2_000);
    assert!((secs(snap2.start) - 1.0).abs() < 1e-9);
    assert!((secs(snap2.end) - 2.0).abs() < 1e-9);
}

#[test]
fn flush_emits_remaining_partial_interval() {
    let mut rep = IntervalReporter::new(3, Duration::from_secs(1));
    rep.on_bytes(500, at(0));
    let snap = rep.flush(at(250)).expect("flush");
    assert_eq!(snap.stream_id, 3);
    assert_eq!(snap.bytes, 500);
    assert!(snap.start <= snap.end);
    assert_eq!(snap.end, Duration::from_millis(250));
}

#[test]
fn flush_returns_none_when_nothing_observed() {
    let mut rep = IntervalReporter::new(1, Duration::from_secs(1));
    assert!(rep.flush(at(0)).is_none());
}

#[test]
fn intervals_count_every_byte_once() {
    let mut rep = IntervalReporter::new(1, Duration::from_millis(100));
    let mut reported = 0;
    let mut last_end = Duration::zero();
    for i in 0..50u64 {
        if let Some(s) = rep.on_bytes(i, at(i * 37)) {
            assert_eq!(s.start, last_end, "intervals follow on each other");
            last_end = s.end;
            reported += s.bytes;
        }
    }
    let rest = rep.flush(at(49 * 37)).map_or(0, |s| s.bytes);
    assert_eq!(reported + rest, (0..50u64).sum());
}

#[test]
fn nothing_is_flushed_before_the_open_interval() {
    let mut rep = IntervalReporter::new(1, Duration::from_millis(100));
    rep.on_bytes(5, at(0));
    assert!(rep.on_bytes(5, at(250)).is_some());
    assert!(rep.flush(at(50)).is_none());
    let empty = rep.flush(at(150)).expect("the open interval");
    assert_eq!((empty.bytes, empty.start, empty.end), (0, Duration::from_millis(100), Duration::from_millis(150)));
}

#[test]
fn outcomes_mean_different_things_to_different_streams() {
    let (tcp_send, tcp_recv) = (Transfer::TcpSend, Transfer::TcpRecv);
    let (udp_send, udp_recv) = (Transfer::UdpSend, Transfer::UdpRecv);
    for t in [tcp_send, tcp_recv, udp_send, udp_recv] {
        assert_eq!(judge(t, &Ok(5)), Verdict::Count(5));
        assert_eq!(judge(t, &failed(ErrorKind::BrokenPipe)), Verdict::Stop);
    }
    assert_eq!(judge(tcp_recv, &Ok(0)), Verdict::Stop);
    for t in [tcp_send, udp_send, udp_recv] {
        assert_eq!(judge(t, &Ok(0)), Verdict::Again);
    }
    assert_eq!(judge(tcp_send, &failed(ErrorKind::WouldBlock)), Verdict::Again);
    assert_eq!(judge(tcp_recv, &failed(ErrorKind::WouldBlock)), Verdict::Stop);
    assert_eq!(judge(tcp_recv, &failed(ErrorKind::Interrupted)), Verdict::Again);
    assert_eq!(judge(udp_send, &failed(ErrorKind::WouldBlock)), Verdict::Stop);
    assert_eq!(judge(udp_recv, &failed(ErrorKind::WouldBlock)), Verdict::Again);
    assert_eq!(judge(udp_recv, &failed(ErrorKind::TimedOut)), Verdict::Again);
}

#[test]
fn omit_window_comes_on_top_of_the_test() {
    assert_eq!(stream_duration(10, 3), Duration::from_secs(13));
}

#[test]
fn sending_meter_keeps_the_books() {
    let mut m = StreamMeter::new(Transfer::TcpSend, 4, Duration::from_millis(100), 0, at(0));
    assert_eq!(m.on_outcome(&Ok(10), at(0)), StreamStep::Continue);
    assert_eq!(m.on_outcome(&failed(ErrorKind::WouldBlock), at(10)), StreamStep::Continue);
    assert_eq!(m.on_outcome(&Ok(0), at(20)), StreamStep::Continue);
    assert_eq!(
        m.on_outcome(&Ok(30), at(1_000)),
        StreamStep::Report(IntervalSnapshot {
            stream_id: 4,
            start: Duration::zero(),
            end: Duration::from_secs(1),
            bytes: 40
        })
    );
    assert_eq!(m.on_outcome(&Ok(7), at(1_200)), StreamStep::Continue);
    assert_eq!(m.on_outcome(&failed(ErrorKind::BrokenPipe), at(1_300)), StreamStep::Stop);
    let (receipt, row) = m.finish(Some(9));
    assert_eq!((receipt.bytes_sent, receipt.bytes_omit), (47, 10));
    assert_eq!(receipt.retransmits, 9);
    assert_eq!(receipt.packets, 0);
    assert_eq!(receipt.last_send_at, Some(at(1_200)));
    let row = row.expect("bytes are left");
    assert_eq!((row.bytes, row.end), (7, Duration::from_millis(1_200)));
}

/// Takes three bytes of each write, would then have to wait, and breaks after
/// five writes.
struct Narrow {
    calls: u32,
}

impl Socket for Narrow {
    fn recv(&mut self, _buf: &mut [u8]) -> Result<usize, IoError> {
        Ok(0)
    }
    fn send(&mut self, buf: &[u8]) -> Result<usize, IoError> {
        self.calls += 1;
        match self.calls {
            1..=5 => Ok(buf.len().min(3)),
            6 => failed(ErrorKind::WouldBlock),
            7 => Ok(0),
            _ => failed(ErrorKind::BrokenPipe),
        }
    }
    fn set_nonblocking(&mut self, _nonblocking: bool) -> Result<(), IoError> {
        Ok(())
    }
    fn set_read_timeout(&mut self, _timeout: Option<Duration>) -> Result<(), IoError> {
        Ok(())
    }
    fn tcp_retransmits(&self) -> Result<u32, IoError> {
        Ok(0)
    }
}

#[test]
fn what_the_socket_took_is_what_was_sent() {
    let mut clock = Clock::new(Timer::new());
    let mut timer = Clock::new(Timer::new());
    let mut p = Protocol::new(Box::new(Narrow { calls: 0 }));
    let mut m = StreamMeter::new(Transfer::TcpSend, 2, Duration::zero(), 0, at(0));
    let payload = build_payload(100);
    match m.send_bytes(&mut p, &payload, &mut timer, Duration::from_secs(60), &mut clock) {
        StreamPause::Failed(e) => assert_eq!(e.kind(), ErrorKind::BrokenPipe),
        _ => panic!("the pipe is broken"),
    }
    assert_eq!((m.receipt.bytes_sent, m.receipt.stream_id), (15, 2));
}

#[test]
fn one_write_is_made_where_time_is_left() {
    let mut clock = Clock::new(Timer::new());
    let written = Arc::new(Mutex::new(Vec::new()));
    let mut p = Protocol::new(Box::new(Recorder { written: written.clone() }));
    let mut m = StreamMeter::new(Transfer::TcpSend, 1, Duration::zero(), 0, at(0));
    assert!(matches!(m.send_once(&mut p, b"abc", true, at(0), &mut clock), StreamPause::Over));
    assert!(written.lock().unwrap().is_empty());
    assert!(matches!(m.send_once(&mut p, b"abc", false, at(0), &mut clock), StreamPause::Quiet));
    assert_eq!(&*written.lock().unwrap(), b"abc");
    assert_eq!(m.receipt.bytes_sent, 3);
}

#[test]
fn flush_is_empty_until_a_byte_was_seen() {
    let mut rep = IntervalReporter::new(1, Duration::from_secs(1));
    assert!(rep.on_bytes(0, at(0)).is_none());
    assert!(rep.flush(at(0)).is_none());
    assert!(rep.flush(at(5_000)).is_none());
    rep.on_bytes(1, at(10));
    assert_eq!(rep.flush(at(20)).map(|s| s.bytes), Some(1));
}

#[test]
fn intervals_are_of_equal_length() {
    let mut rep = IntervalReporter::new(1, Duration::from_millis(100));
    let mut given = Vec::new();
    for t in [0, 40, 130, 250, 260, 1_000, 1_000] {
        given.extend(rep.on_bytes(1, at(500 + t)));
    }
    let cuts: Vec<_> = given.iter().map(|s| (s.start, s.end, s.bytes)).collect();
    let ms = Duration::from_millis;
    assert_eq!(
        cuts,
        vec![
            (ms(0), ms(100), 3),
            (ms(100), ms(200), 1),
            (ms(200), ms(300), 2),
            (ms(300), ms(400), 1)
        ]
    );
}

#[test]
fn tcp_streams_keep_to_their_rate() {
    let mut clock = Clock::new(Timer::new());
    let written = Arc::new(Mutex::new(Vec::new()));
    let mut p = Protocol::new(Box::new(Recorder { written: written.clone() }));
    let mut m = StreamMeter::new(Transfer::TcpSend, 1, Duration::zero(), 8_000, at(0));
    assert_eq!(m.next_step(false, at(0)), SendStep::Send);
    assert!(matches!(m.send_once(&mut p, &[7; 500], false, at(0), &mut clock), StreamPause::Quiet));
    let due = SendStep::Pause(Duration::from_millis(500));
    assert_eq!(m.next_step(false, at(0)), due, "1000 bytes per second");
    match m.send_once(&mut p, &[7; 500], false, at(400), &mut clock) {
        StreamPause::Pause(d) => assert!(d <= Duration::from_millis(101)),
        _ => panic!("ahead of the rate"),
    }
    assert_eq!(written.lock().unwrap().len(), 500);
    assert_eq!(m.next_step(false, at(500)), SendStep::Send);
    assert_eq!(m.next_step(true, at(0)), SendStep::Stop);
}

#[test]
fn a_stretch_ends_when_the_stream_is_ahead() {
    let mut clock = Clock::new(Timer::new());
    let mut timer = Clock::new(Timer::new());
    let written = Arc::new(Mutex::new(Vec::new()));
    let mut p = Protocol::new(Box::new(Recorder { written: written.clone() }));
    let mut m = StreamMeter::new(Transfer::TcpSend, 1, Duration::zero(), 8, at(0));
    match m.send_bytes(&mut p, &[1; 1_000], &mut timer, Duration::from_secs(60), &mut clock) {
        StreamPause::Pause(d) => {
            assert!(d <= Duration::from_secs(1_000));
            assert!(d > Duration::from_secs(900));
        }
        _ => panic!("one byte per second"),
    }
    assert_eq!((m.receipt.bytes_sent, written.lock().unwrap().len()), (1_000, 1_000));
    let mut m = StreamMeter::new(Transfer::TcpSend, 1, Duration::zero(), 1, at(0));
    m.receipt.bytes_sent = u64::MAX;
    m.bucket.bytes_sent = u64::MAX;
    let pause = m.send_bytes(&mut p, &[1; 10], &mut timer, Duration::from_secs(60), &mut clock);
    assert!(matches!(pause, StreamPause::TooFarAhead));
}

#[test]
fn nothing_is_sent_when_the_time_is_over() {
    let mut clock = Clock::new(Timer::new());
    let mut timer = Clock::new(Timer::new());
    let written = Arc::new(Mutex::new(Vec::new()));
    let mut p = Protocol::new(Box::new(Recorder { written: written.clone() }));
    let mut m = StreamMeter::new(Transfer::TcpSend, 1, Duration::zero(), 0, at(0));
    let pause = m.send_bytes(&mut p, b"abc", &mut timer, Duration::zero(), &mut clock);
    assert!(matches!(pause, StreamPause::Over));
    assert!(written.lock().unwrap().is_empty());
    assert_eq!(m.receipt.bytes_sent, 0);
}

#[test]
fn sending_stops_when_the_time_is_over() {
    let mut clock = Clock::new(Timer::new());
    let mut timer = Clock::new(Timer::new());
    let written = Arc::new(Mutex::new(Vec::new()));
    let mut p = Protocol::new(Box::new(Recorder { written: written.clone() }));
    let mut m = StreamMeter::new(Transfer::TcpSend, 1, Duration::zero(), 0, at(0));
    let pause = m.send_bytes(&mut p, b"abcd", &mut timer, Duration::from_millis(5), &mut clock);
    assert!(matches!(pause, StreamPause::Over));
    assert_eq!(m.receipt.bytes_sent, written.lock().unwrap().len() as u64);
    m.receipt.bytes_sent = u64::MAX - 3;
    m.bucket.bytes_sent = u64::MAX - 3;
    let mut timer = Clock::new(Timer::new());
    let pause = m.send_bytes(&mut p, b"abcd", &mut timer, Duration::from_secs(60), &mut clock);
    assert!(matches!(pause, StreamPause::Full));
}

#[test]
fn receiving_meter_counts_datagrams() {
    let mut m = StreamMeter::new(Transfer::UdpRecv, 1, Duration::zero(), 0, at(0));
    assert!(m.check_room(10, at(0)));
    m.on_outcome(&Ok(10), at(0));
    m.on_outcome(&failed(ErrorKind::TimedOut), at(1));
    m.on_outcome(&Ok(20), at(2));
    let (receipt, row) = m.finish(None);
    assert_eq!((receipt.packets, receipt.bytes_sent, receipt.retransmits), (2, 30, 0));
    assert_eq!(row.map(|s| s.bytes), Some(30));
    let idle = StreamMeter::new(Transfer::TcpRecv, 1, Duration::zero(), 0, at(0));
    assert_eq!(idle.finish(None).1, None);
}

#[test]
fn full_meters_are_noticed() {
    let mut m = StreamMeter::new(Transfer::TcpSend, 1, Duration::zero(), 0, at(0));
    m.on_outcome(&Ok(10), at(0));
    m.receipt.bytes_sent = u64::MAX - 4;
    assert!(m.check_room(4, at(1)));
    assert!(!m.check_room(5, at(1)));
}

#[test]
fn datagrams_have_to_hold_a_header() {
    assert!(UdpSender::new(1, UDP_HEADER_LEN - 1, 0, Duration::zero(), at(0)).is_none());
    assert!(UdpSender::new(1, UDP_HEADER_LEN, 0, Duration::zero(), at(0)).is_some());
}

#[test]
fn datagrams_are_numbered_and_paced() {
    let mut s = UdpSender::new(3, 256, 100_000, Duration::from_millis(5), at(0)).unwrap();
    let mut sent = Vec::new();
    let mut now = at(0);
    while sent.len() < 5 {
        match s.next_step(false, now) {
            SendStep::Send => {
                s.stamp(0x1_0000_0007, 9);
                sent.push(s.packet.clone());
                assert!(s.on_sent(Ok(256), now));
            }
            SendStep::Pause(d) => now = now.plus(d),
            SendStep::Stop => panic!("not over yet"),
        }
    }
    for (i, packet) in sent.iter().enumerate() {
        assert_eq!(packet.len(), 256);
        let h = UdpHeader::decode(packet).unwrap();
        assert_eq!(h, UdpHeader { tv_sec: 7, tv_usec: 9, seq: i as i64 });
        assert!(packet[16..].iter().all(|b| *b == 1));
    }
    assert_eq!(now, at(0).plus(Duration { nanos: 4 * 20_480_000 }), "20.48 ms per datagram");
    assert_eq!((s.receipt.packets, s.receipt.bytes_sent), (5, 5 * 256));
    assert_eq!(s.receipt.bytes_omit, 256);
    assert_eq!(s.next_step(true, now), SendStep::Stop);
    assert!(s.on_sent(Ok(0), now));
    assert!(!s.on_sent(failed(ErrorKind::WouldBlock), now));
    assert_eq!(s.seq, 5);
}

#[test]
fn last_datagram_is_a_bare_header() {
    let packet = sentinel_packet(1, 2);
    assert_eq!(packet.len(), UDP_HEADER_LEN);
    let h = UdpHeader::decode(&packet).unwrap();
    assert!(h.is_sentinel());
    assert_eq!((h.tv_sec, h.tv_usec, h.seq), (1, 2, -1));
}
