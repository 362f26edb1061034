use rperf3::common::cookie::{generate_cookie, COOKIE_LEN};
use rperf3::common::cpu::CpuUsage;
use rperf3::common::error::{ErrorKind, IoError};
use rperf3::common::float_bits::FloatBits;
use rperf3::common::interval::IntervalReporter;
use rperf3::common::protocol::{MockSocket, Protocol, Socket};
use rperf3::common::session::{
    accept_streams_from_channel, take_stream, transport_allowed, Registry, Route, Session,
    StreamQueue,
};
use rperf3::common::stream::{StreamPause, StreamStep, Transfer};
use rperf3::common::time::{Duration, Instant};
use rperf3::common::timer::{Clock, Timer};
use rperf3::common::wire::{send_framed_json, ClientOptions, Results};
use rperf3::common::Message;
use rperf3::script::{perform_on_control, server_step, ServerAction, ServerEvent, ServerPhase};
use rperf3::server::{
    accept_control, accept_stream, admit_session, build_server_results, check_totals,
    cookie_display, default_handshake_timeout, finalize_test, measured_duration,
    measured_steady_state, negotiate_options, recv_stream_bytes, refuse, request_results,
    run_timeout, send_test_start_running, serving, session_totals, wait_for_test_end,
    ServerMeter, Serving, StreamReceipt,
};
use serde_json::Value;
use std::sync::{Arc, Mutex};

#[derive(Clone)]
struct Shared {
    written: Arc<Mutex<Vec<u8>>>,
    queue: Arc<Mutex<Vec<Vec<u8>>>>,
    timeouts: Arc<Mutex<Vec<Option<Duration>>>>,
}

impl Shared {
    fn new(chunks: Vec<Vec<u8>>) -> Self {
        Shared {
            written: Arc::new(Mutex::new(Vec::new())),
            queue: Arc::new(Mutex::new(chunks)),
            timeouts: Arc::new(Mutex::new(Vec::new())),
        }
    }
    fn protocol(&self) -> Protocol {
        Protocol::new(Box::new(self.clone()))
    }
    fn sent(&self) -> Vec<u8> {
        self.written.lock().unwrap().clone()
    }
}

impl Socket for Shared {
    fn recv(&mut self, buf: &mut [u8]) -> Result<usize, IoError> {
        let mut q = self.queue.lock().unwrap();
        if q.is_empty() {
            return Err(IoError::new(ErrorKind::TimedOut, "silence"));
        }
        let next = q.remove(0);
        let n = next.len().min(buf.len());
        buf[..n].copy_from_slice(&next[..n]);
        Ok(n)
    }
    fn send(&mut self, buf: &[u8]) -> Result<usize, IoError> {
        self.written.lock().unwrap().extend_from_slice(buf);
        Ok(buf.len())
    }
    fn set_nonblocking(&mut self, _nonblocking: bool) -> Result<(), IoError> {
        Ok(())
    }
    fn set_read_timeout(&mut self, timeout: Option<Duration>) -> Result<(), IoError> {
        self.timeouts.lock().unwrap().push(timeout);
        Ok(())
    }
    fn tcp_retransmits(&self) -> Result<u32, IoError> {
        Ok(0)
    }
}

fn at(millis: u64) -> Instant {
    Instant::at(Duration::from_millis(7_000_000 + millis))
}

fn receipt_with(bytes: u64, first: Option<Instant>, last: Option<Instant>) -> StreamReceipt {
    let mut r = StreamReceipt::empty();
    r.bytes = bytes;
    r.first_byte_at = first;
    r.first_measured_at = first;
    r.last_byte_at = last;
    r
}

fn dummy_protocol() -> Protocol {
    Protocol::new(Box::new(MockSocket::new()))
}

#[test]
fn send_test_start_running_emits_two_bytes_in_order() {
    let socket = Shared::new(Vec::new());
    let mut control = socket.protocol();
    send_test_start_running(&mut control).expect("send");
    assert_eq!(socket.sent(), vec![Message::TestStart.byte(), Message::TestRunning.byte()]);
}

#[test]
fn wait_for_test_end_returns_on_test_end_byte() {
    let socket = Shared::new(vec![vec![Message::TestEnd.byte()]]);
    wait_for_test_end(&mut socket.protocol()).expect("ok");
}

#[test]
fn wait_for_test_end_skips_unexpected_bytes() {
    let socket =
        Shared::new(vec![vec![Message::TestRunning.byte()], vec![Message::TestEnd.byte()]]);
    wait_for_test_end(&mut socket.protocol()).expect("ok");
}

#[test]
fn wait_ends_at_the_first_error() {
    let socket = Shared::new(vec![vec![Message::TestRunning.byte()], vec![99]]);
    let err = wait_for_test_end(&mut socket.protocol()).unwrap_err();
    assert_eq!(err.kind(), ErrorKind::InvalidData);
    let err = wait_for_test_end(&mut Shared::new(Vec::new()).protocol()).unwrap_err();
    assert_eq!(err.kind(), ErrorKind::TimedOut);
    assert_eq!(err.message, "silence");
}

#[test]
fn build_server_results_populates_one_stream_per_total() {
    let receipts = [receipt_with(1_000, None, None), receipt_with(2_500, None, None)];
    let r = build_server_results(&receipts, &CpuUsage::zero());
    assert_eq!(r.streams.len(), 2);
    assert_eq!(r.streams[0].id, 1);
    assert_eq!(r.streams[0].bytes, 1_000);
    assert_eq!(r.streams[1].id, 2);
    assert_eq!(r.streams[1].bytes, 2_500);
}

#[test]
fn measured_duration_spans_earliest_first_to_latest_last() {
    let r1 = receipt_with(10, Some(at(0)), Some(at(800)));
    let r2 = receipt_with(20, Some(at(100)), Some(at(1_000)));
    assert_eq!(measured_duration(&[r1, r2]), Duration::from_millis(1_000));
}

#[test]
fn measured_duration_is_zero_when_no_bytes_observed() {
    assert_eq!(
        measured_duration(&[StreamReceipt::empty(), StreamReceipt::empty()]),
        Duration::zero()
    );
}

#[test]
fn stream_receipt_elapsed_is_zero_without_bytes() {
    assert_eq!(StreamReceipt::empty().elapsed(), Duration::zero());
    assert_eq!(StreamReceipt::empty().measured_elapsed(), Duration::zero());
}

#[test]
fn finalize_test_sends_display_results_then_waits_for_iperf_done() {
    let socket = Shared::new(vec![vec![Message::IperfDone.byte()]]);
    finalize_test(&mut socket.protocol()).expect("ok");
    assert_eq!(socket.sent(), vec![Message::DisplayResults.byte()]);
}

#[test]
fn finalize_test_tolerates_extra_bytes_before_iperf_done() {
    let socket =
        Shared::new(vec![vec![Message::TestRunning.byte()], vec![Message::IperfDone.byte()]]);
    finalize_test(&mut socket.protocol()).expect("ok");
}

#[test]
fn build_server_results_populates_udp_fields_from_receipts() {
    let r = StreamReceipt {
        bytes: 1000,
        bytes_omit: 0,
        first_byte_at: None,
        first_measured_at: None,
        last_byte_at: None,
        jitter_ms: FloatBits { bits: 2.5f64.to_bits() },
        lost: 7,
        ooo: 1,
        packets: 50,
    };
    let results = build_server_results(&[r], &CpuUsage::zero());
    assert_eq!(f64::from_bits(results.streams[0].jitter.bits), 2.5);
    assert_eq!(results.streams[0].errors, 7);
    assert_eq!(results.streams[0].packets, 50);
}

#[test]
fn server_receipt_empty_zeros_udp_fields() {
    let r = StreamReceipt::empty();
    assert_eq!(f64::from_bits(r.jitter_ms.bits), 0.0);
    assert_eq!(r.lost, 0);
    assert_eq!(r.ooo, 0);
    assert_eq!(r.packets, 0);
}

/// The JSON text of results, as far as streams and bytes go.
fn results_json(results: &Results) -> Vec<u8> {
    let streams: Vec<Value> = results
        .streams
        .iter()
        .map(|s| {
            let mut entry = serde_json::Map::new();
            entry.insert("id".to_string(), Value::from(s.id));
            entry.insert("bytes".to_string(), Value::from(s.bytes));
            Value::Object(entry)
        })
        .collect();
    let mut map = serde_json::Map::new();
    map.insert("streams".to_string(), Value::Array(streams));
    serde_json::to_vec(&Value::Object(map)).unwrap()
}

#[test]
fn exchange_results_sends_server_results_with_totals() {
    let client_bytes = results_json(&Results::empty());
    let len_prefix = (client_bytes.len() as u32).to_be_bytes().to_vec();
    let socket = Shared::new(vec![len_prefix, client_bytes.clone()]);
    let mut control = socket.protocol();
    let receipts = [receipt_with(4096, None, None), receipt_with(8192, None, None)];

    let got = request_results(&mut control).expect("client results");
    assert_eq!(got, client_bytes);
    let ours = build_server_results(&receipts, &CpuUsage::zero());
    send_framed_json(&mut control, &results_json(&ours)).expect("exchange");

    let buf = socket.sent();
    assert_eq!(buf[0], Message::ExchangeResults.byte());
    let body_len = u32::from_be_bytes(buf[1..5].try_into().unwrap()) as usize;
    let sent: Value = serde_json::from_slice(&buf[5..5 + body_len]).unwrap();
    let streams = sent["streams"].as_array().unwrap();
    assert_eq!(streams.len(), 2);
    assert_eq!(streams[0]["bytes"], 4096);
    assert_eq!(streams[1]["bytes"], 8192);
}

#[test]
fn options_are_asked_for_and_read() {
    let socket = Shared::new(vec![vec![0, 0], vec![0, 2], b"{".to_vec(), b"}".to_vec()]);
    let body = negotiate_options(&mut socket.protocol()).expect("options");
    assert_eq!(body, b"{}");
    assert_eq!(socket.sent(), vec![Message::ParamExchange.byte()]);
}

#[test]
fn peers_are_greeted_under_a_timeout() {
    let cookie = generate_cookie();
    let socket = Shared::new(vec![cookie[..20].to_vec(), cookie[20..].to_vec()]);
    let limit = Some(Duration::from_secs(30));
    assert_eq!(accept_control(&mut socket.protocol(), limit).unwrap(), cookie);
    assert_eq!(*socket.timeouts.lock().unwrap(), vec![limit]);
    let silent = Shared::new(Vec::new());
    let err = accept_control(&mut silent.protocol(), None).unwrap_err();
    assert_eq!(err.kind(), ErrorKind::TimedOut);
}

#[test]
fn data_connections_show_the_cookie() {
    let cookie = generate_cookie();
    let limit = Some(Duration::from_secs(5));
    let socket = Shared::new(vec![cookie.to_vec()]);
    accept_stream(&mut socket.protocol(), &cookie, 0, limit).expect("same cookie");
    assert_eq!(*socket.timeouts.lock().unwrap(), vec![limit, None], "set, then cleared");

    let other = generate_cookie();
    let socket = Shared::new(vec![other.to_vec()]);
    let err = accept_stream(&mut socket.protocol(), &cookie, 3, limit).unwrap_err();
    assert_eq!(err.kind(), ErrorKind::InvalidData);
    assert_eq!(err.message, "stream 3 cookie mismatch");
}

#[test]
fn run_timeout_covers_the_whole_test() {
    assert_eq!(
        run_timeout(Some(default_handshake_timeout()), 10, 2),
        Some(Duration::from_secs(42))
    );
    assert_eq!(run_timeout(None, 10, 2), None);
}

#[test]
fn session_is_summed_up() {
    let mut a = receipt_with(100, Some(at(0)), Some(at(1_000)));
    a.bytes_omit = 40;
    a.first_measured_at = Some(at(300));
    let b = receipt_with(11, None, None);
    let t = session_totals(&[a, b], 1, 9);
    assert_eq!((t.total_bytes, t.measured_bytes), (111, 71));
    assert_eq!((t.raw, t.steady), (Duration::from_millis(1_000), Duration::from_millis(700)));
    assert_eq!(t.wall, t.steady);
    assert_eq!((t.summary_bytes, t.summary_duration), (71, t.steady));
    let t = session_totals(&[a, b], 0, 9);
    assert_eq!((t.summary_bytes, t.summary_duration), (111, t.raw));
    let t = session_totals(&[b], 1, 9);
    assert_eq!((t.summary_bytes, t.summary_duration), (11, Duration::from_secs(9)));
    assert_eq!(t.wall, Duration::zero());
    assert_eq!(measured_steady_state(&[a, b]), Duration::from_millis(700));
    assert!(check_totals(&[a, b]));
    assert!(!check_totals(&[a, receipt_with(u64::MAX, None, None)]));
}

#[test]
fn early_bytes_go_to_the_omit_window() {
    let omit = Duration::from_millis(80);
    let reporter = IntervalReporter::new(1, Duration::from_millis(100));
    let mut m = ServerMeter::new(Transfer::TcpRecv, omit, Some(reporter));
    assert!(m.check_room(1024, at(0)));
    assert_eq!(m.on_outcome(&Ok(1024), at(0)), StreamStep::Continue);
    let interrupted = Err(IoError::new(ErrorKind::Interrupted, "signal"));
    assert_eq!(m.on_outcome(&interrupted, at(10)), StreamStep::Continue);
    match m.on_outcome(&Ok(2048), at(120)) {
        StreamStep::Report(s) => assert_eq!(s.bytes, 3072),
        _ => panic!("an interval has passed"),
    }
    assert_eq!(m.on_outcome(&Ok(1), at(130)), StreamStep::Continue);
    assert_eq!(m.on_outcome(&Ok(0), at(140)), StreamStep::Stop);
    let (receipt, row) = m.finish();
    assert_eq!(receipt.bytes, 3073);
    assert_eq!(receipt.bytes_omit, 1024);
    assert_eq!(receipt.bytes_measured(), 2049);
    assert_eq!(receipt.first_measured_at, Some(at(120)));
    assert_eq!(receipt.last_byte_at, Some(at(130)));
    assert_eq!(row.map(|s| s.bytes), Some(1));
}

fn chunked(chunks: Vec<Vec<u8>>) -> Protocol {
    let mut mock = MockSocket::new();
    mock.recv_queue = chunks;
    Protocol::new(Box::new(mock))
}

#[test]
fn bytes_are_taken_in_until_the_peer_closes() {
    let mut data = chunked(vec![
        vec![0xab; 8192],
        vec![0xab; 8192],
        vec![0xab; 1],
        vec![0xab; 200_000],
        Vec::new(),
        vec![0xab; 77],
    ]);
    let mut clock = Clock::new(Timer::new());
    let mut m = ServerMeter::new(Transfer::TcpRecv, Duration::zero(), None);
    assert!(matches!(recv_stream_bytes(&mut data, &mut m, &mut clock), StreamPause::Over));
    assert_eq!(m.receipt.bytes, 8192 + 8192 + 1 + 131_072, "a read takes 128 KiB at most");
    assert_eq!(m.receipt.bytes_omit, 0);
    assert!(m.receipt.first_byte_at.is_some());
    assert!(m.receipt.first_byte_at <= m.receipt.last_byte_at);
}

#[test]
fn bytes_are_taken_in_until_an_error() {
    let mut data = chunked(vec![vec![1; 10], vec![2; 20]]);
    let mut clock = Clock::new(Timer::new());
    let mut m = ServerMeter::new(Transfer::TcpRecv, Duration::from_secs(60), None);
    match recv_stream_bytes(&mut data, &mut m, &mut clock) {
        StreamPause::Failed(e) => assert_eq!(e.kind(), ErrorKind::WouldBlock),
        _ => panic!("the socket has run dry"),
    }
    assert_eq!((m.receipt.bytes, m.receipt.bytes_omit), (30, 30));
    assert_eq!(m.receipt.first_measured_at, None);
}

#[test]
fn rows_pause_the_stream_and_add_up() {
    let mut chunks = vec![vec![0u8; 1000]; 50];
    chunks.push(Vec::new());
    let mut data = chunked(chunks);
    let mut clock = Clock::new(Timer::new());
    let reporter = IntervalReporter::new(1, Duration { nanos: 1 });
    let mut m = ServerMeter::new(Transfer::TcpRecv, Duration::zero(), Some(reporter));
    let mut told = 0;
    loop {
        match recv_stream_bytes(&mut data, &mut m, &mut clock) {
            StreamPause::Report(s) => told += s.bytes,
            StreamPause::Over => break,
            _ => panic!("nothing else can come up"),
        }
    }
    assert!(told > 0);
    let (receipt, row) = m.finish();
    assert_eq!(receipt.bytes, 50_000);
    assert_eq!(told + row.map_or(0, |s| s.bytes), 50_000);
}

#[test]
fn receipts_that_are_full_take_nothing_more() {
    let mut data = chunked(vec![vec![1; 4], vec![2; 5]]);
    let mut clock = Clock::new(Timer::new());
    let mut m = ServerMeter::new(Transfer::TcpRecv, Duration::zero(), None);
    m.receipt.bytes = u64::MAX - 6;
    m.receipt.first_byte_at = Some(at(0));
    m.receipt.last_byte_at = Some(at(0));
    m.receipt.first_measured_at = Some(at(0));
    assert!(matches!(recv_stream_bytes(&mut data, &mut m, &mut clock), StreamPause::Full));
    assert_eq!(m.receipt.bytes, u64::MAX - 2);
}

#[test]
fn stream_that_closes_at_once_is_empty() {
    let mut m = ServerMeter::new(Transfer::TcpRecv, Duration::zero(), None);
    assert_eq!(m.on_outcome(&Ok(0), at(0)), StreamStep::Stop);
    let (receipt, row) = m.finish();
    assert_eq!(receipt, StreamReceipt::empty());
    assert_eq!(row, None);
}

#[test]
fn cookies_are_shown_without_their_end() {
    let mut cookie = [b'a'; COOKIE_LEN];
    cookie[36] = 0;
    assert_eq!(cookie_display(&cookie), "a".repeat(36));
    cookie[0] = 0xff;
    assert_eq!(cookie_display(&cookie), format!("\u{fffd}{}", "a".repeat(35)));
}

#[test]
fn session_new_pairs_channel() {
    let cookie = generate_cookie();
    let (session, handle) = Session::new(cookie, dummy_protocol());
    assert_eq!(session.cookie, cookie);
    handle.data_tx.send(dummy_protocol()).expect("send");
    assert!(session.data_rx.try_recv().is_ok());
}

#[test]
fn accept_streams_from_channel_collects_n() {
    let cookie = generate_cookie();
    let (session, handle) = Session::new(cookie, dummy_protocol());
    let mut queue = StreamQueue::new(session.data_rx);
    handle.data_tx.send(dummy_protocol()).unwrap();
    handle.data_tx.send(dummy_protocol()).unwrap();
    let streams =
        accept_streams_from_channel(&mut queue, 2, Some(Duration::from_millis(100)))
            .unwrap();
    assert_eq!(streams.len(), 2);
}

#[test]
fn streams_come_in_the_order_of_arrival() {
    let (session, handle) = Session::new(generate_cookie(), dummy_protocol());
    let mut queue = StreamQueue::new(session.data_rx);
    for mark in 1..=3u8 {
        handle.data_tx.send(chunked(vec![vec![mark]])).unwrap();
    }
    let mut taken = accept_streams_from_channel(&mut queue, 2, None).unwrap();
    taken.extend(accept_streams_from_channel(&mut queue, 1, Some(Duration::zero())).unwrap());
    let mut buf = [0u8; 1];
    for (i, stream) in taken.iter_mut().enumerate() {
        assert_eq!(stream.recv(&mut buf).unwrap(), 1);
        assert_eq!(buf[0] as usize, i + 1);
    }
}

fn framed(body: &[u8]) -> Vec<u8> {
    let mut frame = (body.len() as u32).to_be_bytes().to_vec();
    frame.extend_from_slice(body);
    frame
}

#[test]
fn a_session_says_its_messages_in_order() {
    for udp in [false, true] {
        // One chunk per read: the header and the body of a frame, or a byte.
        let mut chunks = Vec::new();
        for body in [&b"{options}"[..], &b"{results}"[..]] {
            let frame = framed(body);
            chunks.push(frame[..4].to_vec());
            chunks.push(frame[4..].to_vec());
        }
        chunks.insert(2, vec![4]);
        chunks.push(vec![16]);
        let shared = Shared::new(chunks);
        let mut control = shared.protocol();
        let mut phase = ServerPhase::Greeted;
        let mut actions = Vec::new();
        while phase != ServerPhase::Over {
            let (next, action) = server_step(phase, &ServerEvent::Done, udp);
            let reply = perform_on_control(&mut control, action, b"{ours}").unwrap();
            match action {
                ServerAction::AskOptions => assert_eq!(reply, b"{options}"),
                ServerAction::AskResults => assert_eq!(reply, b"{results}"),
                _ => assert!(reply.is_empty()),
            }
            actions.push(action);
            phase = next;
        }
        assert_eq!(actions.len(), if udp { 13 } else { 12 });
        assert_eq!(actions.contains(&ServerAction::BindUdp), udp);
        assert_eq!(actions.last(), Some(&ServerAction::ShowSummary));
        let mut expected = vec![9, 10, 1, 2, 13];
        expected.extend(framed(b"{ours}"));
        expected.push(14);
        assert_eq!(*shared.written.lock().unwrap(), expected);
        assert_eq!(server_step(phase, &ServerEvent::Done, udp).1, ServerAction::Rest);
    }
}

#[test]
fn a_failure_ends_a_session() {
    let failed = || ServerEvent::Failed(IoError::new(ErrorKind::TimedOut, "silence"));
    for phase in [ServerPhase::Greeted, ServerPhase::Accepting, ServerPhase::Ending] {
        let step = server_step(phase, &failed(), false);
        assert_eq!(step, (ServerPhase::Over, ServerAction::Abandon));
    }
    let mut control = chunked(Vec::new());
    let e = perform_on_control(&mut control, ServerAction::AwaitTestEnd, &[]).unwrap_err();
    assert_eq!(e.kind(), ErrorKind::WouldBlock);
}

#[test]
fn accept_streams_from_channel_times_out() {
    let cookie = generate_cookie();
    let (session, _handle) = Session::new(cookie, dummy_protocol());
    let mut queue = StreamQueue::new(session.data_rx);
    match accept_streams_from_channel(&mut queue, 1, Some(Duration::from_millis(50))) {
        Err(e) => assert_eq!(e.kind(), ErrorKind::TimedOut),
        Ok(_) => panic!("expected a timeout error"),
    }
}

#[test]
fn closed_channel_brings_no_streams() {
    let (session, handle) = Session::new(generate_cookie(), dummy_protocol());
    let mut queue = StreamQueue::new(session.data_rx);
    handle.data_tx.send(dummy_protocol()).unwrap();
    drop(handle);
    assert_eq!(accept_streams_from_channel(&mut queue, 1, None).unwrap().len(), 1);
    match accept_streams_from_channel(&mut queue, 1, None) {
        Err(e) => assert_eq!((e.kind(), e.message.as_str()), (ErrorKind::UnexpectedEof, "data-stream channel closed")),
        Ok(_) => panic!("expected a closed channel"),
    }
    assert!(accept_streams_from_channel(&mut queue, 0, None).unwrap().is_empty());
    assert!(take_stream(Some(dummy_protocol()), None).is_ok());
}

#[test]
fn connections_find_their_session() {
    let (a, b, c) = (generate_cookie(), generate_cookie(), generate_cookie());
    let mut reg = Registry::new(2);
    assert_eq!(reg.route(&a), Route::NewSession);
    reg.insert(a, Session::new(a, dummy_protocol()).1);
    assert_eq!(reg.route(&a), Route::DataStream(0));
    assert_eq!(reg.route(&b), Route::NewSession);
    reg.insert(b, Session::new(b, dummy_protocol()).1);
    assert_eq!(reg.route(&b), Route::DataStream(1));
    assert_eq!(reg.route(&c), Route::Busy);
    reg.remove(&a);
    assert_eq!(reg.route(&b), Route::DataStream(0));
    assert_eq!(reg.route(&a), Route::NewSession);
    reg.remove(&c);
    assert_eq!(reg.sessions.len(), 1);
}

#[test]
fn datagrams_of_several_tests_cannot_be_told_apart() {
    assert!(transport_allowed(1, true));
    assert!(transport_allowed(4, false));
    assert!(!transport_allowed(4, true));
}

#[test]
fn refused_clients_are_told_so_and_nothing_else() {
    let opts = ClientOptions::tcp_defaults(1, 1, 1);
    let socket = Shared::new(Vec::new());
    let denied = admit_session(&mut socket.protocol(), Err("bad password".to_string()), &opts, 1);
    assert_eq!(denied, Err("bad password".to_string()));
    assert_eq!(socket.sent(), vec![255]);

    let socket = Shared::new(Vec::new());
    assert_eq!(admit_session(&mut socket.protocol(), Ok(()), &opts, 4), Ok(()));
    assert_eq!(socket.sent(), Vec::<u8>::new());

    let mut udp = opts.clone();
    udp.udp = true;
    assert_eq!(admit_session(&mut socket.protocol(), Ok(()), &udp, 1), Ok(()));
    assert_eq!(
        admit_session(&mut socket.protocol(), Ok(()), &udp, 4).unwrap_err(),
        "UDP needs a server for one test at a time"
    );
    assert_eq!(socket.sent(), vec![Message::AccessDenied.byte()]);
    refuse(&mut socket.protocol()).unwrap();
    assert_eq!(socket.sent(), vec![255, 255]);
}

#[test]
fn one_off_comes_before_concurrency() {
    assert_eq!(serving(true, 1), Serving::Once);
    assert_eq!(serving(true, 5), Serving::Once);
    assert_eq!(serving(false, 5), Serving::Concurrent);
    assert_eq!(serving(false, 1), Serving::Forever);
    assert_eq!(serving(false, 0), Serving::Forever);
}
