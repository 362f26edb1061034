use rperf3::common::float_bits::FloatBits;
use rperf3::common::protocol::{SocketOption, TuningOpts};
use rperf3::common::test::{ClientStreamReceipt, Config, Test};
use rperf3::common::time::{Duration, Instant};
use rperf3::common::wire::DEFAULT_TCP_LEN;
use rperf3::common::{affinity, Direction, TransportKind};

#[test]
fn config_with_host_uses_iperf3_defaults() {
    let cfg = Config::with_host("localhost");
    assert_eq!(cfg.host, "localhost");
    assert_eq!(cfg.port, 5201);
    assert_eq!(cfg.time, 10);
    assert_eq!(cfg.parallel, 1);
    assert_eq!(cfg.len, DEFAULT_TCP_LEN as u32);
}

#[test]
fn config_host_port_formats_correctly() {
    let cfg = Config {
        host: "10.1.10.3".to_string(),
        port: 5202,
        time: 1,
        parallel: 1,
        len: DEFAULT_TCP_LEN as u32,
        omit: 0,
        transport: TransportKind::Tcp,
        bandwidth: 0,
        one_off: false,
        max_concurrent: 1,
        direction: Direction::Forward,
        json: false,
        format_unit: None,
        logfile: None,
        window_size: None,
        mss: None,
        congestion: None,
        tos: None,
        zero_copy: false,
        total_bytes: None,
        total_blocks: None,
        title: None,
        affinity: None,
        username: None,
        password: None,
        rsa_public_key: None,
        rsa_private_key: None,
        authorized_users: None,
    };
    assert_eq!(cfg.host_port(), "10.1.10.3:5202");
}

#[test]
fn config_with_host_defaults_tcp_and_unlimited_bandwidth() {
    let cfg = Config::with_host("h");
    assert_eq!(cfg.transport, TransportKind::Tcp);
    assert_eq!(cfg.bandwidth, 0);
}

#[test]
fn test_new_stores_config() {
    let cfg = Config::with_host("server.local");
    let t = Test::new(cfg.clone());
    assert_eq!(t.config, cfg);
    assert!(!t.is_started);
    assert!(!t.is_running);
    assert!(t.control_channel.is_none());
}

#[test]
fn config_with_host_defaults_forward() {
    let cfg = Config::with_host("h");
    assert_eq!(cfg.direction, Direction::Forward);
}

#[test]
fn client_receipt_empty_zeros_udp_fields() {
    let r = ClientStreamReceipt::empty(1);
    assert_eq!(f64::from_bits(r.jitter_ms.bits), 0.0);
    assert_eq!(r.lost, 0);
    assert_eq!(r.ooo, 0);
    assert_eq!(r.packets, 0);
}

#[test]
fn config_with_host_defaults_multi_test_server() {
    let cfg = Config::with_host("h");
    assert!(!cfg.one_off);
    assert_eq!(cfg.max_concurrent, 1);
}

#[test]
fn receipts_are_kept_in_the_order_of_arrival() {
    let mut t = Test::new(Config::with_host("h"));
    t.drain_receipts(vec![ClientStreamReceipt::empty(2)]);
    t.drain_receipts(vec![ClientStreamReceipt::empty(1), ClientStreamReceipt::empty(3)]);
    let ids: Vec<u32> = t.receipts.iter().map(|r| r.stream_id).collect();
    assert_eq!(ids, vec![2, 1, 3]);
    assert_eq!(t.cookie[36], 0);
}

#[test]
fn receipt_splits_off_the_omit_window() {
    let at = |ms| Instant::at(Duration::from_millis(ms));
    let omit = Duration::from_millis(100);
    let mut r = ClientStreamReceipt::empty(1);
    r.record(10, at(50), omit);
    r.record(20, at(149), omit);
    r.record(40, at(150), omit);
    r.record(80, at(400), omit);
    assert_eq!((r.bytes_sent, r.bytes_omit, r.bytes_measured()), (150, 30, 120));
    assert_eq!(r.first_send_at, Some(at(50)));
    assert_eq!(r.first_measured_at, Some(at(150)));
    assert_eq!(r.last_send_at, Some(at(400)));
    assert_eq!(r.elapsed(), Duration::from_millis(350));
    assert_eq!(r.measured_elapsed(), Duration::from_millis(250));
    assert_eq!(r.jitter_ms, FloatBits::zero());
}

#[test]
fn without_an_omit_window_everything_is_measured() {
    let mut r = ClientStreamReceipt::empty(1);
    let t = Instant::at(Duration::from_secs(1));
    r.record(5, t, Duration::zero());
    assert_eq!(r.bytes_measured(), 5);
    assert_eq!(r.first_measured_at, Some(t));
}

#[test]
fn tuning_sets_options_in_order() {
    let mut opts = TuningOpts::default();
    assert_eq!(opts.plan(), Vec::new());
    opts.window_size = Some(131_072);
    assert_eq!(
        opts.plan(),
        vec![SocketOption::SendBuffer(131_072), SocketOption::ReceiveBuffer(131_072)]
    );
    opts.tos = Some(16);
    opts.mss = Some(1_400);
    opts.congestion = Some("cubic".to_string());
    assert_eq!(
        opts.plan()[2..],
        [
            SocketOption::TypeOfService(16),
            SocketOption::SegmentSize(1_400),
            SocketOption::Congestion("cubic".to_string())
        ]
    );
}

#[test]
fn affinity_is_a_single_number() {
    assert_eq!(affinity::parse_affinity("3"), Ok(3));
    assert_eq!(
        affinity::parse_affinity("0-3"),
        Err("warning: invalid -A value '0-3', expected integer CPU id".to_string())
    );
    assert!(affinity::parse_affinity("").is_err());
}
