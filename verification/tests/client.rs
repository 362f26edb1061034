use rperf3::client::{
    build_client_results, check_totals, client_measured_duration, client_options, client_recv,
    client_session_duration, client_totals, create_streams, exchange_results,
    handle_message_client, on_stream_message, settle_results, summary_roles, total_result_bytes,
    ClientAction, ClientTotals, ResultsExchange, StreamStart, StreamTally,
};
use rperf3::report::{client_own_lines, client_peer_lines};
use rperf3::common::binary64::Double;
use rperf3::common::cpu::{CpuSnapshot, CpuUsage};
use rperf3::common::error::{ErrorKind, IoError};
use rperf3::common::float_bits::FloatBits;
use rperf3::common::protocol::{MockSocket, Protocol, Socket};
use rperf3::common::stream::Transfer;
use rperf3::common::test::{ClientStreamReceipt, Config, Test};
use rperf3::common::time::{Duration, Instant};
use rperf3::common::wire::{Results, StreamResults};
use rperf3::common::{Direction, Message, TransportKind};
use std::sync::{Arc, Mutex};

/// A socket whose traffic can be looked at from outside.
#[derive(Clone)]
struct Shared {
    written: Arc<Mutex<Vec<u8>>>,
    queue: Arc<Mutex<Vec<Vec<u8>>>>,
    modes: Arc<Mutex<Vec<bool>>>,
}

impl Shared {
    fn new(chunks: Vec<Vec<u8>>) -> Self {
        Shared {
            written: Arc::new(Mutex::new(Vec::new())),
            queue: Arc::new(Mutex::new(chunks)),
            modes: Arc::new(Mutex::new(Vec::new())),
        }
    }
    fn sent(&self) -> Vec<u8> {
        self.written.lock().unwrap().clone()
    }
}

impl Socket for Shared {
    fn recv(&mut self, buf: &mut [u8]) -> Result<usize, IoError> {
        let mut q = self.queue.lock().unwrap();
        if q.is_empty() {
            return Err(IoError::new(ErrorKind::WouldBlock, "no data"));
        }
        let next = q.remove(0);
        let n = next.len().min(buf.len());
        buf[..n].copy_from_slice(&next[..n]);
        Ok(n)
    }
    fn send(&mut self, buf: &[u8]) -> Result<usize, IoError> {
        self.written.lock().unwrap().extend_from_slice(buf);
        Ok(buf.len())
    }
    fn set_nonblocking(&mut self, nonblocking: bool) -> Result<(), IoError> {
        self.modes.lock().unwrap().push(nonblocking);
        Ok(())
    }
    fn set_read_timeout(&mut self, _timeout: Option<Duration>) -> Result<(), IoError> {
        Ok(())
    }
    fn tcp_retransmits(&self) -> Result<u32, IoError> {
        Ok(0)
    }
}

fn at(millis: u64) -> Instant {
    Instant::at(Duration::from_millis(1_000_000 + millis))
}

fn client_receipt_with(
    stream_id: u32,
    bytes: u64,
    first: Option<Instant>,
    last: Option<Instant>,
) -> ClientStreamReceipt {
    let mut r = ClientStreamReceipt::empty(stream_id);
    r.bytes_sent = bytes;
    r.first_send_at = first;
    r.first_measured_at = first;
    r.last_send_at = last;
    r
}

fn bits(x: f64) -> FloatBits {
    FloatBits { bits: x.to_bits() }
}

#[test]
fn build_client_results_populates_one_stream_per_receipt() {
    let receipts =
        [client_receipt_with(1, 1_024, None, None), client_receipt_with(2, 4_096, None, None)];
    let r = build_client_results(&receipts, &CpuUsage::zero());
    assert_eq!(r.streams.len(), 2);
    assert_eq!(r.streams[0].id, 1);
    assert_eq!(r.streams[0].bytes, 1_024);
    assert_eq!(r.streams[1].id, 2);
    assert_eq!(r.streams[1].bytes, 4_096);
    assert_eq!(r.sender_has_retransmits, 0);
}

#[test]
fn build_client_results_is_empty_on_no_receipts() {
    let r = build_client_results(&[], &CpuUsage::zero());
    assert!(r.streams.is_empty());
}

#[test]
fn client_recv_stops_when_control_channel_is_missing() {
    let mut test = Test::new(Config::with_host("127.0.0.1"));
    assert!(client_recv(&mut test).done);
}

#[test]
fn client_session_duration_spans_earliest_to_latest() {
    let receipts = [
        client_receipt_with(1, 10, Some(at(0)), Some(at(500))),
        client_receipt_with(2, 20, Some(at(100)), Some(at(900))),
    ];
    assert_eq!(client_session_duration(&receipts), Some(Duration::from_millis(900)));
}

#[test]
fn client_session_duration_is_none_when_no_bytes_sent() {
    let receipts = [ClientStreamReceipt::empty(1), ClientStreamReceipt::empty(2)];
    assert_eq!(client_session_duration(&receipts), None);
}

#[test]
fn client_measured_duration_uses_first_measured_at() {
    let unmeasured = ClientStreamReceipt::empty(1);
    assert_eq!(client_measured_duration(&[unmeasured]), Duration::zero());

    let mut r = ClientStreamReceipt::empty(2);
    r.bytes_sent = 100;
    r.first_send_at = Some(at(0));
    r.first_measured_at = Some(at(200));
    r.last_send_at = Some(at(800));
    assert_eq!(client_measured_duration(&[r]), Duration::from_millis(600));
}

#[test]
fn build_client_results_populates_udp_fields() {
    let mut r = ClientStreamReceipt::empty(1);
    r.bytes_sent = 2048;
    r.jitter_ms = bits(0.75);
    r.lost = 3;
    r.packets = 40;
    let out = build_client_results(&[r], &CpuUsage::zero());
    assert_eq!(f64::from_bits(out.streams[0].jitter.bits), 0.75);
    assert_eq!(out.streams[0].errors, 3);
    assert_eq!(out.streams[0].packets, 40);
}

#[test]
fn results_carry_processor_use_and_retransmits() {
    let mut r = ClientStreamReceipt::empty(7);
    r.retransmits = 5;
    let cpu = CpuUsage {
        user_pct: Double::from_u64(1),
        system_pct: Double::from_u64(2),
        total_pct: Double::from_u64(3),
    };
    let out = build_client_results(&[ClientStreamReceipt::empty(6), r], &cpu);
    assert_eq!(out.sender_has_retransmits, 1);
    assert_eq!(out.streams[1].retransmits, 5);
    assert_eq!(out.cpu_util_user, bits(1.0));
    assert_eq!(out.cpu_util_system, bits(2.0));
    assert_eq!(out.cpu_util_total, bits(3.0));
}

#[test]
fn clock_that_ran_backwards_gives_no_session() {
    let r = client_receipt_with(1, 10, Some(at(500)), Some(at(100)));
    assert_eq!(client_session_duration(&[r]), None);
    assert_eq!(client_measured_duration(&[r]), Duration::zero());
}

#[test]
fn totals_leave_out_the_omit_window_when_asked_to() {
    let mut r = client_receipt_with(1, 100, Some(at(0)), Some(at(1_000)));
    r.bytes_omit = 30;
    r.first_measured_at = Some(at(400));
    r.retransmits = 2;
    let s = client_receipt_with(2, 50, Some(at(200)), Some(at(900)));
    let all = client_totals(&[r, s], 0);
    assert_eq!((all.bytes, all.duration), (150, Duration::from_millis(1_000)));
    let steady = client_totals(&[r, s], 1);
    assert_eq!((steady.bytes, steady.duration), (120, Duration::from_millis(800)));
    assert_eq!(steady.session, Duration::from_millis(1_000));
    assert_eq!(steady.retransmits, 2);
    let nothing = client_totals(&[], 5);
    assert_eq!((nothing.bytes, nothing.duration), (0, Duration::zero()));
}

#[test]
fn sums_that_do_not_fit_are_noticed() {
    let big = client_receipt_with(1, u64::MAX, None, None);
    assert!(check_totals(&[big]));
    assert!(!check_totals(&[big, client_receipt_with(2, 1, None, None)]));
}

#[test]
fn server_bytes_are_added_up() {
    let entry = |bytes| StreamResults {
        id: 1,
        bytes,
        retransmits: 0,
        jitter: bits(0.0),
        errors: 0,
        packets: 0,
    };
    let mut r = Results::empty();
    assert_eq!(total_result_bytes(&r), Some(0));
    r.streams = vec![entry(3), entry(4)];
    assert_eq!(total_result_bytes(&r), Some(7));
    r.streams.push(entry(u64::MAX));
    assert_eq!(total_result_bytes(&r), None);
}

#[test]
fn roles_turn_round_in_reverse() {
    assert_eq!(summary_roles(Direction::Forward), ("sender", "receiver"));
    assert_eq!(summary_roles(Direction::Reverse), ("receiver", "sender"));
    assert_eq!(summary_roles(Direction::Bidirectional), ("sender", "receiver"));
}

#[test]
fn options_say_what_was_configured() {
    let mut cfg = Config::with_host("h");
    cfg.time = 4;
    cfg.omit = 1;
    cfg.parallel = 3;
    cfg.bandwidth = 77;
    let o = client_options(&cfg, None);
    assert!(o.tcp && !o.udp && !o.reverse && !o.bidirectional);
    assert_eq!((o.time, o.omit, o.parallel, o.len, o.bandwidth), (4, 1, 3, 131_072, 77));
    assert_eq!(o.client_version, "3.1.3");
    assert_eq!(o.authtoken, None);

    cfg.transport = TransportKind::Udp;
    cfg.direction = Direction::Bidirectional;
    let o = client_options(&cfg, Some("token".to_string()));
    assert!(!o.tcp && o.udp && !o.reverse && o.bidirectional);
    assert_eq!(o.authtoken.as_deref(), Some("token"));
    assert_eq!(o.direction(), cfg.direction);
    assert_eq!(o.transport(), cfg.transport);
}

#[test]
fn streams_are_started_by_direction() {
    let mut cfg = Config::with_host("h");
    cfg.parallel = 2;
    let start = |stream_id, transfer| StreamStart { stream_id, transfer };
    assert_eq!(
        create_streams(&cfg),
        vec![start(1, Transfer::TcpSend), start(2, Transfer::TcpSend)]
    );
    cfg.direction = Direction::Reverse;
    cfg.transport = TransportKind::Udp;
    assert_eq!(
        create_streams(&cfg),
        vec![start(1, Transfer::UdpRecv), start(2, Transfer::UdpRecv)]
    );
    cfg.direction = Direction::Bidirectional;
    cfg.transport = TransportKind::Tcp;
    assert_eq!(
        create_streams(&cfg),
        vec![
            start(1, Transfer::TcpSend),
            start(1, Transfer::TcpRecv),
            start(2, Transfer::TcpSend),
            start(2, Transfer::TcpRecv)
        ]
    );
    cfg.parallel = 0;
    assert_eq!(create_streams(&cfg).len(), 2, "at least one stream each way");
}

#[test]
fn server_is_told_once_that_the_test_is_over() {
    let mut cfg = Config::with_host("h");
    cfg.parallel = 2;
    cfg.direction = Direction::Bidirectional;
    let socket = Shared::new(Vec::new());
    let mut test = Test::new(cfg);
    test.control_channel = Some(Protocol::new(Box::new(socket.clone())));
    let mut tally = StreamTally::new();
    for _ in 0..3 {
        assert!(on_stream_message(&mut test, &mut tally, Message::TestEnd).is_none());
    }
    assert!(on_stream_message(&mut test, &mut tally, Message::TestStart).is_none());
    assert_eq!(socket.sent(), Vec::<u8>::new());
    assert!(matches!(on_stream_message(&mut test, &mut tally, Message::TestEnd), Some(Ok(()))));
    assert!(on_stream_message(&mut test, &mut tally, Message::TestEnd).is_none());
    assert_eq!(socket.sent(), vec![4]);
    assert_eq!(tally, StreamTally { finished: 5, test_end_sent: true });
}

#[test]
fn without_a_channel_nobody_is_told() {
    let mut test = Test::new(Config::with_host("h"));
    let mut tally = StreamTally::new();
    assert!(on_stream_message(&mut test, &mut tally, Message::TestEnd).is_none());
    assert_eq!(tally, StreamTally { finished: 1, test_end_sent: false });
}

#[test]
fn client_goes_through_a_session() {
    let script = [9u8, 10, 1, 2, 13, 14];
    let socket = Shared::new(script.iter().map(|b| vec![*b]).collect());
    let mut test = Test::new(Config::with_host("h"));
    test.control_channel = Some(Protocol::new(Box::new(socket.clone())));

    let step = client_recv(&mut test);
    assert!(matches!(step.action, ClientAction::SendOptions) && !step.done);
    let step = client_recv(&mut test);
    assert!(matches!(step.action, ClientAction::CreateStreams) && !step.done);
    let step = client_recv(&mut test);
    assert!(matches!(step.action, ClientAction::Started) && !step.done);
    assert!(test.is_started && !test.is_running);
    let step = client_recv(&mut test);
    assert!(matches!(step.action, ClientAction::Running { show_header: true }) && !step.done);
    assert!(test.is_running);
    let step = client_recv(&mut test);
    assert!(matches!(step.action, ClientAction::ExchangeResults) && !step.done);
    assert_eq!(socket.sent(), Vec::<u8>::new());
    let step = client_recv(&mut test);
    assert!(matches!(step.action, ClientAction::SaidDone(Some(Ok(())))) && step.done);
    assert_eq!(socket.sent(), vec![16]);
}

#[test]
fn other_messages_are_left_alone() {
    let mut cfg = Config::with_host("h");
    cfg.json = true;
    let mut test = Test::new(cfg);
    let step = handle_message_client(&mut test, Message::AccessDenied);
    assert!(matches!(step.action, ClientAction::Unknown) && !step.done);
    let step = handle_message_client(&mut test, Message::TestRunning);
    assert!(matches!(step.action, ClientAction::Running { show_header: false }));
    let step = handle_message_client(&mut test, Message::IperfDone);
    assert!(matches!(step.action, ClientAction::ServerDone) && step.done);
    let step = handle_message_client(&mut test, Message::DisplayResults);
    assert!(matches!(step.action, ClientAction::SaidDone(None)) && step.done);
}

#[test]
fn quiet_and_broken_channels_are_told_apart() {
    let mut test = Test::new(Config::with_host("h"));
    test.control_channel = Some(Protocol::new(Box::new(MockSocket::new())));
    let step = client_recv(&mut test);
    assert!(matches!(step.action, ClientAction::Nothing) && !step.done);

    let mut mock = MockSocket::new();
    mock.recv_queue.push(Vec::new());
    test.control_channel = Some(Protocol::new(Box::new(mock)));
    let step = client_recv(&mut test);
    match step.action {
        ClientAction::ReportError(e) => assert_eq!(e.kind(), ErrorKind::UnexpectedEof),
        _ => panic!("expected an error"),
    }
    assert!(!step.done);
}

#[test]
fn results_go_both_ways() {
    let socket = Shared::new(vec![vec![0, 0, 0, 2], b"{}".to_vec()]);
    let mut control = Protocol::new(Box::new(socket.clone()));
    match exchange_results(&mut control, b"[1]") {
        ResultsExchange::Read { frame: Ok(body), restored: Ok(()) } => assert_eq!(body, b"{}"),
        _ => panic!("expected the server's results"),
    }
    assert_eq!(socket.sent(), vec![0, 0, 0, 3, b'[', b'1', b']']);
    assert_eq!(*socket.modes.lock().unwrap(), vec![false, true]);
}

#[test]
fn results_that_do_not_come_are_an_error() {
    let mut control = Protocol::new(Box::new(MockSocket::new()));
    match exchange_results(&mut control, b"{}") {
        ResultsExchange::Read { frame: Err(e), restored: Ok(()) } => {
            assert_eq!(e.kind(), ErrorKind::WouldBlock)
        }
        _ => panic!("expected a failed read"),
    }
    let broken = MockSocket::new().with_send_error(IoError::new(ErrorKind::BrokenPipe, "gone"));
    let mut control = Protocol::new(Box::new(broken));
    match exchange_results(&mut control, b"{}") {
        ResultsExchange::NotSent(e) => assert_eq!(e.kind(), ErrorKind::BrokenPipe),
        _ => panic!("expected a failed send"),
    }
}

/// A socket that cannot be made to wait.
struct Polling;

impl Socket for Polling {
    fn recv(&mut self, _buf: &mut [u8]) -> Result<usize, IoError> {
        Err(IoError::new(ErrorKind::WouldBlock, "no data"))
    }
    fn send(&mut self, buf: &[u8]) -> Result<usize, IoError> {
        Ok(buf.len())
    }
    fn set_nonblocking(&mut self, _nonblocking: bool) -> Result<(), IoError> {
        Err(IoError::new(ErrorKind::Unsupported, "always polls"))
    }
    fn set_read_timeout(&mut self, _timeout: Option<Duration>) -> Result<(), IoError> {
        Ok(())
    }
    fn tcp_retransmits(&self) -> Result<u32, IoError> {
        Err(IoError::new(ErrorKind::Unsupported, "not TCP"))
    }
}

#[test]
fn channel_that_cannot_wait_is_reported() {
    let mut control = Protocol::new(Box::new(Polling));
    match exchange_results(&mut control, b"{}") {
        ResultsExchange::NotBlocking(e) => assert_eq!(e.message, "always polls"),
        _ => panic!("expected a refusal to wait"),
    }
    assert_eq!(control.tcp_retransmits().unwrap_err().message, "not TCP");
    assert!(control.apply_tuning(&Default::default()).is_ok());
}

#[test]
fn client_prints_its_own_row_first() {
    let mut cfg = Config::with_host("h");
    let totals = ClientTotals {
        bytes: 1_250_000,
        duration: Duration::from_secs(1),
        retransmits: 0,
        session: Duration::from_secs(1),
    };
    let lines = client_own_lines(&cfg, &totals);
    assert_eq!(lines.len(), 3);
    assert_eq!(lines[0], "- - - - - - - - - - - - - - - - - - - - - - - - -");
    assert_eq!(lines[1], "[ ID] Interval           Transfer     Bitrate");
    assert_eq!(
        lines[2],
        "[  1]   0.00-1.00  sec  1.19 MBytes  10.00 Mbits/sec  sender"
    );
    cfg.direction = Direction::Reverse;
    cfg.title = Some("t".to_string());
    assert_eq!(
        client_own_lines(&cfg, &totals)[2],
        "t:  [  1]   0.00-1.00  sec  1.19 MBytes  10.00 Mbits/sec  receiver"
    );
    cfg.json = true;
    assert!(client_own_lines(&cfg, &totals).is_empty());
}

#[test]
fn client_prints_what_the_server_counted() {
    let cfg = Config::with_host("h");
    let mut totals = ClientTotals {
        bytes: 0,
        duration: Duration::from_secs(2),
        retransmits: 0,
        session: Duration::from_secs(2),
    };
    let row = "[  1]   0.00-2.00  sec  1000 Bytes  4.00 Kbits/sec  receiver";
    assert_eq!(client_peer_lines(&cfg, &totals, 1_000, &CpuUsage::zero()), vec![row.to_string()]);
    totals.retransmits = 7;
    let cpu = CpuUsage {
        user_pct: Double::from_u64(1),
        system_pct: Double::from_u64(2),
        total_pct: Double::from_u64(3),
    };
    assert_eq!(
        client_peer_lines(&cfg, &totals, 1_000, &cpu),
        vec![
            row.to_string(),
            "TCP retransmits: 7".to_string(),
            "CPU: 3.00% total (1.00% user, 2.00% system)".to_string()
        ]
    );
}

#[test]
fn results_are_of_all_receipts_that_arrived() {
    let mut test = Test::new(Config::with_host("h"));
    test.cpu_start = Some(CpuSnapshot { user_ticks: 0, system_ticks: 0 });
    let mut a = ClientStreamReceipt::empty(1);
    a.bytes_sent = 10;
    a.first_send_at = Some(Instant { nanos: 0 });
    a.last_send_at = Some(Instant { nanos: 2_000_000_000 });
    let mut b = ClientStreamReceipt::empty(2);
    b.bytes_sent = 5;
    b.retransmits = 3;
    test.receipts.push(a);
    let now = CpuSnapshot { user_ticks: 100, system_ticks: 0 };
    let s = settle_results(&mut test, vec![b], &now, 100).unwrap();
    assert_eq!(test.receipts, vec![a, b]);
    assert_eq!((s.totals.bytes, s.totals.retransmits), (15, 3));
    assert_eq!(s.totals.session, Duration::from_secs(2));
    assert_eq!(f64::from_bits(s.results.cpu_util_total.bits), 50.0);
    assert_eq!(s.results.sender_has_retransmits, 1);
    let ids: Vec<u32> = s.results.streams.iter().map(|x| x.id).collect();
    assert_eq!(ids, vec![1, 2]);

    b.bytes_sent = u64::MAX;
    assert!(settle_results(&mut test, vec![b], &now, 100).is_none());
    assert_eq!(test.receipts.len(), 3);
}
