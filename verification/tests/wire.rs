use rperf3::common::error::{ErrorKind, IoError};
use rperf3::common::protocol::{MockSocket, Protocol, Socket};
use rperf3::common::time::Duration;
use rperf3::common::wire::{
    is_zero_u64, read_exact, recv_control_byte, recv_framed_json, send_control_byte,
    send_framed_json, write_all, ClientOptions, Results, DEFAULT_TCP_LEN, MAX_JSON_FRAME_LEN,
};
use rperf3::common::{Direction, Message, TransportKind};
use serde_json::Value;
use std::sync::{Arc, Mutex};

/// The JSON text of options, as it stands on the wire.
fn json(opts: &ClientOptions) -> Vec<u8> {
    let mut map = serde_json::Map::new();
    map.insert("tcp".to_string(), Value::from(opts.tcp));
    map.insert("omit".to_string(), Value::from(opts.omit));
    map.insert("time".to_string(), Value::from(opts.time));
    map.insert("parallel".to_string(), Value::from(opts.parallel));
    map.insert("len".to_string(), Value::from(opts.len));
    map.insert("client_version".to_string(), Value::from(opts.client_version.as_str()));
    serde_json::to_vec(&Value::Object(map)).unwrap()
}

/// The options that a JSON text stands for.
fn parsed(body: &[u8]) -> ClientOptions {
    let v: Value = serde_json::from_slice(body).unwrap();
    let number = |name: &str| v[name].as_u64().unwrap() as u32;
    let mut opts = ClientOptions::tcp_defaults(number("time"), number("parallel"), number("len"));
    opts.tcp = v["tcp"].as_bool().unwrap();
    opts.omit = number("omit");
    opts.client_version = v["client_version"].as_str().unwrap().to_string();
    opts
}

/// A socket whose traffic can be looked at from outside.
#[derive(Clone)]
struct Shared {
    mock: Arc<Mutex<MockSocket>>,
}

impl Shared {
    fn new(mock: MockSocket) -> Self {
        Shared { mock: Arc::new(Mutex::new(mock)) }
    }
    fn channel(&self) -> Protocol {
        Protocol::new(Box::new(self.clone()))
    }
    fn written(&self) -> Vec<u8> {
        self.mock.lock().unwrap().written.clone()
    }
    fn left(&self) -> usize {
        self.mock.lock().unwrap().recv_queue.len()
    }
}

impl Socket for Shared {
    fn recv(&mut self, buf: &mut [u8]) -> Result<usize, IoError> {
        self.mock.lock().unwrap().recv(buf)
    }
    fn send(&mut self, buf: &[u8]) -> Result<usize, IoError> {
        self.mock.lock().unwrap().send(buf)
    }
    fn set_nonblocking(&mut self, nonblocking: bool) -> Result<(), IoError> {
        self.mock.lock().unwrap().set_nonblocking(nonblocking)
    }
    fn set_read_timeout(&mut self, timeout: Option<Duration>) -> Result<(), IoError> {
        self.mock.lock().unwrap().set_read_timeout(timeout)
    }
    fn tcp_retransmits(&self) -> Result<u32, IoError> {
        self.mock.lock().unwrap().tcp_retransmits()
    }
}

fn seeded(chunks: Vec<Vec<u8>>) -> Shared {
    let mut mock = MockSocket::new();
    mock.recv_queue = chunks;
    Shared::new(mock)
}

#[test]
fn send_control_byte_writes_single_byte() {
    let mock = Shared::new(MockSocket::new());
    send_control_byte(&mut mock.channel(), Message::ParamExchange).unwrap();
    assert_eq!(mock.written(), vec![Message::ParamExchange.byte()]);
    assert_eq!(mock.written(), vec![9]);
}

#[test]
fn recv_control_byte_parses_known_variant() {
    let mock = seeded(vec![vec![Message::TestStart.byte()]]);
    let msg = recv_control_byte(&mut mock.channel()).unwrap();
    assert_eq!(msg, Message::TestStart);
}

#[test]
fn recv_control_byte_errors_on_unknown_code() {
    let mock = seeded(vec![vec![0u8]]);
    let err = recv_control_byte(&mut mock.channel()).unwrap_err();
    assert_eq!(err.kind(), ErrorKind::InvalidData);
    assert_eq!(err.message, "unknown control byte: 0");
}

#[test]
fn negative_codes_travel_as_high_bytes() {
    let mock = Shared::new(MockSocket::new());
    send_control_byte(&mut mock.channel(), Message::AccessDenied).unwrap();
    send_control_byte(&mut mock.channel(), Message::ServerError).unwrap();
    assert_eq!(mock.written(), vec![255, 254]);

    let mock = seeded(vec![vec![255], vec![254], vec![128]]);
    assert_eq!(recv_control_byte(&mut mock.channel()).unwrap(), Message::AccessDenied);
    assert_eq!(recv_control_byte(&mut mock.channel()).unwrap(), Message::ServerError);
    assert_eq!(recv_control_byte(&mut mock.channel()).unwrap_err().message, "unknown control byte: 128");
}

#[test]
fn recv_control_byte_passes_errors_on() {
    let mock = Shared::new(MockSocket::new());
    let err = recv_control_byte(&mut mock.channel()).unwrap_err();
    assert_eq!(err.kind(), ErrorKind::WouldBlock);
    assert_eq!(err.message, "no data");

    let mock = seeded(vec![Vec::new()]);
    let err = recv_control_byte(&mut mock.channel()).unwrap_err();
    assert_eq!(err.kind(), ErrorKind::UnexpectedEof);
    assert_eq!(err.message, "peer closed mid-frame");
}

#[test]
fn send_framed_json_prefixes_be_length() {
    let mock = Shared::new(MockSocket::new());
    let opts = ClientOptions::tcp_defaults(3, 1, DEFAULT_TCP_LEN as u32);
    let expected_body = json(&opts);

    send_framed_json(&mut mock.channel(), &expected_body).unwrap();

    let buf = mock.written();
    assert!(buf.len() > 4, "should write length + body");
    let len = u32::from_be_bytes(buf[..4].try_into().unwrap()) as usize;
    assert_eq!(len, expected_body.len(), "big-endian length prefix");
    assert_eq!(&buf[4..], &expected_body[..], "body follows length");
}

#[test]
fn recv_framed_json_roundtrips_client_options() {
    let opts = ClientOptions::tcp_defaults(7, 2, 65_536);
    let body = json(&opts);
    let len_bytes = (body.len() as u32).to_be_bytes().to_vec();

    let mock = seeded(vec![len_bytes, body]);
    let back = parsed(&recv_framed_json(&mut mock.channel()).unwrap());
    assert_eq!(back, opts);
}

#[test]
fn recv_framed_json_reassembles_short_reads() {
    let opts = ClientOptions::tcp_defaults(1, 1, 1024);
    let body = json(&opts);
    let len_bytes = (body.len() as u32).to_be_bytes();

    let len_half_a = len_bytes[..2].to_vec();
    let len_half_b = len_bytes[2..].to_vec();
    let (b1, rest) = body.split_at(body.len() / 3);
    let (b2, b3) = rest.split_at(rest.len() / 2);

    let mock =
        seeded(vec![len_half_a, len_half_b, b1.to_vec(), b2.to_vec(), b3.to_vec()]);
    let back = parsed(&recv_framed_json(&mut mock.channel()).unwrap());
    assert_eq!(back, opts);
}

#[test]
fn recv_framed_json_errors_on_truncated_body() {
    let mock = seeded(vec![64u32.to_be_bytes().to_vec(), vec![1, 2, 3, 4], Vec::new()]);
    let err = recv_framed_json(&mut mock.channel()).unwrap_err();
    assert_eq!(err.kind(), ErrorKind::UnexpectedEof);
}

#[test]
fn recv_framed_json_rejects_oversized_frame_before_body_read() {
    let oversized = (MAX_JSON_FRAME_LEN as u32 + 1).to_be_bytes().to_vec();
    let mock = seeded(vec![oversized]);
    let err = recv_framed_json(&mut mock.channel()).unwrap_err();
    assert_eq!(err.kind(), ErrorKind::InvalidData);
    assert_eq!(err.message, "JSON frame too large: 16777217 bytes");
    assert_eq!(mock.left(), 0, "only the length prefix should be consumed");
}

#[test]
fn frame_of_the_largest_size_is_read() {
    let body = vec![b'x'; MAX_JSON_FRAME_LEN];
    let mock = Shared::new(MockSocket::new());
    send_framed_json(&mut mock.channel(), &body).unwrap();
    let sent = mock.written();
    let mock = seeded(vec![sent[..4].to_vec(), sent[4..].to_vec()]);
    assert_eq!(recv_framed_json(&mut mock.channel()).unwrap(), body);
}

#[test]
fn empty_frame_is_four_zero_bytes() {
    let mock = Shared::new(MockSocket::new());
    send_framed_json(&mut mock.channel(), b"").unwrap();
    assert_eq!(mock.written(), vec![0, 0, 0, 0]);
    let mock = seeded(vec![vec![0, 0, 0, 0]]);
    assert_eq!(recv_framed_json(&mut mock.channel()).unwrap(), Vec::<u8>::new());
}

#[test]
fn options_defaults_udp_false_and_bandwidth_zero() {
    let opts = ClientOptions::tcp_defaults(1, 1, DEFAULT_TCP_LEN as u32);
    assert!(!opts.udp);
    assert_eq!(opts.bandwidth, 0);
}

#[test]
fn options_defaults_reverse_and_bidirectional_false() {
    let opts = ClientOptions::tcp_defaults(1, 1, DEFAULT_TCP_LEN as u32);
    assert!(!opts.reverse);
    assert!(!opts.bidirectional);
}

#[test]
fn options_tell_direction_and_transport() {
    let mut opts = ClientOptions::tcp_defaults(1, 1, 1);
    assert_eq!(opts.client_version, "3.1.3");
    assert_eq!(opts.direction(), Direction::Forward);
    assert_eq!(opts.transport(), TransportKind::Tcp);
    opts.reverse = true;
    assert_eq!(opts.direction(), Direction::Reverse);
    opts.bidirectional = true;
    assert_eq!(opts.direction(), Direction::Bidirectional);
    opts.udp = true;
    assert_eq!(opts.transport(), TransportKind::Udp);
}

#[test]
fn zero_is_left_out_of_the_options() {
    assert!(is_zero_u64(&0));
    assert!(!is_zero_u64(&1));
}

#[test]
fn empty_results_hold_nothing() {
    let r = Results::empty();
    assert!(r.streams.is_empty());
    assert_eq!(f64::from_bits(r.cpu_util_total.bits), 0.0);
    assert_eq!(r.sender_has_retransmits, 0);
}

/// A socket that takes at most `step` bytes per call.
#[derive(Clone)]
struct Slow {
    step: usize,
    calls: Arc<Mutex<Vec<Vec<u8>>>>,
}

impl Slow {
    fn new(step: usize) -> Self {
        Slow { step, calls: Arc::new(Mutex::new(Vec::new())) }
    }
}

impl Socket for Slow {
    fn recv(&mut self, _buf: &mut [u8]) -> Result<usize, IoError> {
        Ok(0)
    }
    fn send(&mut self, buf: &[u8]) -> Result<usize, IoError> {
        let n = buf.len().min(self.step);
        self.calls.lock().unwrap().push(buf[..n].to_vec());
        Ok(n)
    }
    fn set_nonblocking(&mut self, _nonblocking: bool) -> Result<(), IoError> {
        Ok(())
    }
    fn set_read_timeout(&mut self, _timeout: Option<Duration>) -> Result<(), IoError> {
        Ok(())
    }
    fn tcp_retransmits(&self) -> Result<u32, IoError> {
        Ok(0)
    }
}

#[test]
fn write_all_goes_on_after_short_sends() {
    let slow = Slow::new(3);
    let mut channel = Protocol::new(Box::new(slow.clone()));
    write_all(&mut channel, b"abcdefgh").unwrap();
    write_all(&mut channel, b"").unwrap();
    let calls = slow.calls.lock().unwrap();
    assert_eq!(*calls, vec![b"abc".to_vec(), b"def".to_vec(), b"gh".to_vec()]);
}

#[test]
fn write_all_gives_up_on_a_socket_that_takes_nothing() {
    let stuck = Slow::new(0);
    let err = write_all(&mut Protocol::new(Box::new(stuck.clone())), b"abc").unwrap_err();
    assert_eq!(err.kind(), ErrorKind::WriteZero);
    assert_eq!(err.message, "socket returned 0-byte send");
    assert_eq!(stuck.calls.lock().unwrap().len(), 1);
}

#[test]
fn send_errors_are_passed_on() {
    let mock = Shared::new(
        MockSocket::new().with_send_error(IoError::new(ErrorKind::BrokenPipe, "nope")),
    );
    let err = send_framed_json(&mut mock.channel(), b"{}").unwrap_err();
    assert_eq!(err.kind(), ErrorKind::BrokenPipe);
    assert_eq!(err.message, "nope");
}

#[test]
fn read_exact_keeps_what_arrived_before_an_error() {
    let mock = seeded(vec![vec![1, 2], vec![3]]);
    let mut buf = [9u8; 5];
    let err = read_exact(&mut mock.channel(), &mut buf).unwrap_err();
    assert_eq!(err.kind(), ErrorKind::WouldBlock);
    assert_eq!(&buf[..3], &[1, 2, 3]);
}
