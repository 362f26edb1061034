use clap::builder::{PathBufValueParser, RangedU64ValueParser};
use clap::{Arg, ArgAction, ArgGroup, ArgMatches, Command};
use rperf3::cli::{
    Cli, Mode, DEFAULT_BIND, DEFAULT_OMIT_SECS, DEFAULT_PARALLEL, DEFAULT_PORT, DEFAULT_TIME_SECS,
    DEFAULT_UDP_LEN,
};
use rperf3::common::wire::DEFAULT_TCP_LEN;
use rperf3::common::{Direction, TransportKind};
use std::path::PathBuf;

fn option(id: &'static str, short: Option<char>) -> Arg {
    let arg = Arg::new(id).long(id);
    match short {
        Some(c) => arg.short(c),
        None => arg,
    }
}

fn flag(id: &'static str, short: Option<char>) -> Arg {
    option(id, short).action(ArgAction::SetTrue)
}

fn number(id: &'static str, short: Option<char>) -> Arg {
    option(id, short).value_parser(RangedU64ValueParser::<u64>::new())
}

fn path(id: &'static str) -> Arg {
    option(id, None).value_parser(PathBufValueParser::new())
}

/// The arguments of the program, as its parser takes them apart.
fn command() -> Command {
    Command::new("rperf3")
        .arg(flag("server", Some('s')))
        .arg(option("client", Some('c')))
        .arg(number("port", Some('p')))
        .arg(number("time", Some('t')))
        .arg(number("parallel", Some('P')))
        .arg(number("len", Some('l')))
        .arg(number("omit", Some('O')))
        .arg(flag("udp", Some('u')))
        .arg(option("bandwidth", Some('b')))
        .arg(flag("one-off", Some('1')))
        .arg(number("max-concurrent", None))
        .arg(flag("reverse", Some('R')).conflicts_with("bidir"))
        .arg(flag("bidir", None))
        .arg(flag("json", Some('J')))
        .arg(option("format", Some('f')))
        .arg(path("logfile"))
        .arg(flag("verbose", Some('V')))
        .arg(flag("timestamps", None))
        .arg(option("window", Some('w')))
        .arg(number("set-mss", Some('M')))
        .arg(option("congestion", Some('C')))
        .arg(option("tos", Some('S')))
        .arg(flag("zerocopy", Some('Z')))
        .arg(option("bytes", Some('n')))
        .arg(number("blockcount", Some('k')))
        .arg(option("title", Some('T')))
        .arg(option("affinity", Some('A')))
        .arg(option("username", None))
        .arg(option("password", None))
        .arg(path("rsa-public-key"))
        .arg(path("rsa-private-key"))
        .arg(path("authorized-users"))
        .group(ArgGroup::new("mode").required(true).args(["server", "client"]))
}

fn words(m: &ArgMatches, id: &str) -> Option<String> {
    m.get_one::<String>(id).cloned()
}

fn paths(m: &ArgMatches, id: &str) -> Option<PathBuf> {
    m.get_one::<PathBuf>(id).cloned()
}

fn count(m: &ArgMatches, id: &str) -> Option<u64> {
    m.get_one::<u64>(id).copied()
}

fn try_parse_from<const N: usize>(args: [&str; N]) -> Result<Cli, clap::Error> {
    let m = command().try_get_matches_from(args)?;
    Ok(Cli {
        server: m.get_flag("server"),
        host: words(&m, "client"),
        port: count(&m, "port").map_or(DEFAULT_PORT, |n| n as u16),
        time: count(&m, "time").map_or(DEFAULT_TIME_SECS, |n| n as u32),
        parallel: count(&m, "parallel").map_or(DEFAULT_PARALLEL, |n| n as u32),
        len: count(&m, "len").map(|n| n as u32),
        omit: count(&m, "omit").map_or(DEFAULT_OMIT_SECS, |n| n as u32),
        udp: m.get_flag("udp"),
        bandwidth: words(&m, "bandwidth"),
        one_off: m.get_flag("one-off"),
        max_concurrent: count(&m, "max-concurrent").map_or(1, |n| n as u32),
        reverse: m.get_flag("reverse"),
        bidir: m.get_flag("bidir"),
        json: m.get_flag("json"),
        format: words(&m, "format").and_then(|s| s.chars().next()),
        logfile: paths(&m, "logfile"),
        verbose: m.get_flag("verbose"),
        timestamps: m.get_flag("timestamps"),
        window: words(&m, "window"),
        mss: count(&m, "set-mss").map(|n| n as u32),
        congestion: words(&m, "congestion"),
        tos: words(&m, "tos"),
        zerocopy: m.get_flag("zerocopy"),
        bytes: words(&m, "bytes"),
        blockcount: count(&m, "blockcount"),
        title: words(&m, "title"),
        affinity: words(&m, "affinity"),
        username: words(&m, "username"),
        password: words(&m, "password"),
        rsa_public_key: paths(&m, "rsa-public-key"),
        rsa_private_key: paths(&m, "rsa-private-key"),
        authorized_users: paths(&m, "authorized-users"),
    })
}

fn into_mode(cli: Cli) -> Mode {
    cli.try_into_mode().expect("valid arguments")
}

#[test]
fn parses_full_client_flag_set() {
    let cli = try_parse_from([
        "rperf3", "-c", "127.0.0.1", "-p", "5202", "-t", "3", "-P", "2", "-l", "65536",
    ])
    .expect("parse");

    assert!(!cli.server);
    assert_eq!(cli.host.as_deref(), Some("127.0.0.1"));
    assert_eq!(cli.port, 5202);
    assert_eq!(cli.time, 3);
    assert_eq!(cli.parallel, 2);
    assert_eq!(cli.len, Some(65_536));
}

#[test]
fn applies_defaults_when_only_host_given() {
    let cli = try_parse_from(["rperf3", "-c", "example.com"]).expect("parse");
    assert_eq!(cli.port, DEFAULT_PORT);
    assert_eq!(cli.time, DEFAULT_TIME_SECS);
    assert_eq!(cli.parallel, DEFAULT_PARALLEL);
    assert_eq!(cli.len, None);
}

#[test]
fn udp_default_len_is_sub_mtu() {
    let cli = try_parse_from(["rperf3", "-c", "h", "-u"]).unwrap();
    match into_mode(cli) {
        Mode::Client(cfg) => assert_eq!(cfg.len, DEFAULT_UDP_LEN),
        _ => panic!("expected client"),
    }
}

#[test]
fn tcp_default_len_is_iperf3_tcp_default() {
    let cli = try_parse_from(["rperf3", "-c", "h"]).unwrap();
    match into_mode(cli) {
        Mode::Client(cfg) => assert_eq!(cfg.len, DEFAULT_TCP_LEN as u32),
        _ => panic!("expected client"),
    }
}

#[test]
fn parses_server_only_mode() {
    let cli = try_parse_from(["rperf3", "-s"]).expect("parse");
    assert!(cli.server);
    assert_eq!(cli.host, None);
    assert_eq!(cli.port, DEFAULT_PORT);
}

#[test]
fn parses_server_with_port() {
    let cli = try_parse_from(["rperf3", "-s", "-p", "5202"]).expect("parse");
    assert!(cli.server);
    assert_eq!(cli.port, 5202);
}

#[test]
fn server_and_client_conflict() {
    let err = try_parse_from(["rperf3", "-s", "-c", "1.2.3.4"]).unwrap_err();
    assert_eq!(err.kind(), clap::error::ErrorKind::ArgumentConflict);
}

#[test]
fn missing_both_server_and_client_is_error() {
    assert!(try_parse_from(["rperf3"]).is_err());
}

#[test]
fn client_mode_uses_host() {
    let cli = try_parse_from(["rperf3", "-c", "10.0.0.1", "-p", "5202"]).unwrap();
    match into_mode(cli) {
        Mode::Client(cfg) => {
            assert_eq!(cfg.host, "10.0.0.1");
            assert_eq!(cfg.port, 5202);
            assert_eq!(cfg.host_port(), "10.0.0.1:5202");
        }
        Mode::Server(_) => panic!("expected client mode"),
    }
}

#[test]
fn server_mode_uses_default_bind() {
    let cli = try_parse_from(["rperf3", "-s", "-p", "5202"]).unwrap();
    match into_mode(cli) {
        Mode::Server(cfg) => {
            assert_eq!(cfg.host, DEFAULT_BIND);
            assert_eq!(cfg.port, 5202);
        }
        Mode::Client(_) => panic!("expected server mode"),
    }
}

#[test]
fn parses_udp_flag() {
    let cli = try_parse_from(["rperf3", "-c", "h", "-u"]).unwrap();
    assert!(cli.udp);
    match into_mode(cli) {
        Mode::Client(cfg) => {
            assert_eq!(cfg.transport, TransportKind::Udp);
            assert_eq!(cfg.bandwidth, 1_000_000);
        }
        Mode::Server(_) => panic!("expected client"),
    }
}

#[test]
fn parses_bandwidth_flag() {
    let cli = try_parse_from(["rperf3", "-c", "h", "-u", "-b", "100M"]).unwrap();
    match into_mode(cli) {
        Mode::Client(cfg) => assert_eq!(cfg.bandwidth, 100_000_000),
        _ => panic!("expected client"),
    }
}

#[test]
fn bandwidth_zero_is_unlimited() {
    let cli = try_parse_from(["rperf3", "-c", "h", "-u", "-b", "0"]).unwrap();
    match into_mode(cli) {
        Mode::Client(cfg) => assert_eq!(cfg.bandwidth, 0),
        _ => panic!("expected client"),
    }
}

#[test]
fn tcp_default_bandwidth_is_zero() {
    let cli = try_parse_from(["rperf3", "-c", "h"]).unwrap();
    match into_mode(cli) {
        Mode::Client(cfg) => {
            assert_eq!(cfg.transport, TransportKind::Tcp);
            assert_eq!(cfg.bandwidth, 0);
        }
        _ => panic!("expected client"),
    }
}

#[test]
fn invalid_bandwidth_errors_on_try_into_mode() {
    let cli = try_parse_from(["rperf3", "-c", "h", "-b", "garbage"]).unwrap();
    assert!(cli.try_into_mode().is_err());
}

#[test]
fn parses_reverse_flag() {
    let cli = try_parse_from(["rperf3", "-c", "h", "-R"]).unwrap();
    match into_mode(cli) {
        Mode::Client(cfg) => assert_eq!(cfg.direction, Direction::Reverse),
        _ => panic!("expected client"),
    }
}

#[test]
fn parses_bidir_flag() {
    let cli = try_parse_from(["rperf3", "-c", "h", "--bidir"]).unwrap();
    match into_mode(cli) {
        Mode::Client(cfg) => assert_eq!(cfg.direction, Direction::Bidirectional),
        _ => panic!("expected client"),
    }
}

#[test]
fn reverse_and_bidir_conflict() {
    let err = try_parse_from(["rperf3", "-c", "h", "-R", "--bidir"]).unwrap_err();
    assert_eq!(err.kind(), clap::error::ErrorKind::ArgumentConflict);
}

#[test]
fn default_direction_is_forward() {
    let cli = try_parse_from(["rperf3", "-c", "h"]).unwrap();
    match into_mode(cli) {
        Mode::Client(cfg) => assert_eq!(cfg.direction, Direction::Forward),
        _ => panic!("expected client"),
    }
}

#[test]
fn one_off_defaults_false() {
    let cli = try_parse_from(["rperf3", "-s"]).unwrap();
    assert!(!cli.one_off);
    match into_mode(cli) {
        Mode::Server(cfg) => assert!(!cfg.one_off),
        _ => panic!(),
    }
}

#[test]
fn parses_one_off_short() {
    let cli = try_parse_from(["rperf3", "-s", "-1"]).unwrap();
    assert!(cli.one_off);
}

#[test]
fn parses_max_concurrent() {
    let cli = try_parse_from(["rperf3", "-s", "--max-concurrent", "4"]).unwrap();
    assert_eq!(cli.max_concurrent, 4);
    match into_mode(cli) {
        Mode::Server(cfg) => assert_eq!(cfg.max_concurrent, 4),
        _ => panic!(),
    }
}

#[test]
fn parses_json_flag() {
    let cli = try_parse_from(["rperf3", "-c", "h", "-J"]).unwrap();
    assert!(cli.json);
    match into_mode(cli) {
        Mode::Client(cfg) => assert!(cfg.json),
        _ => panic!(),
    }
}

#[test]
fn parses_format_flag() {
    let cli = try_parse_from(["rperf3", "-c", "h", "-f", "M"]).unwrap();
    assert_eq!(cli.format, Some('M'));
    match into_mode(cli) {
        Mode::Client(cfg) => assert_eq!(cfg.format_unit, Some('M')),
        _ => panic!(),
    }
}

#[test]
fn parses_logfile_flag() {
    let cli = try_parse_from(["rperf3", "-s", "--logfile", "/tmp/out.log"]).unwrap();
    assert!(cli.logfile.is_some());
}

#[test]
fn parses_verbose_and_timestamps_stubs() {
    let cli = try_parse_from(["rperf3", "-c", "h", "-V", "--timestamps"]).unwrap();
    assert!(cli.verbose);
    assert!(cli.timestamps);
}

#[test]
fn tuning_options_reach_the_configuration() {
    let cli = try_parse_from([
        "rperf3", "-c", "h", "-w", "256K", "-S", "0x10", "-n", "1G", "-M", "1400", "-C", "cubic",
        "-k", "9", "-T", "run-1", "-A", "2", "-O", "3", "-Z",
    ])
    .unwrap();
    match into_mode(cli) {
        Mode::Client(cfg) => {
            assert_eq!(cfg.window_size, Some(262_144));
            assert_eq!(cfg.tos, Some(16));
            assert_eq!(cfg.total_bytes, Some(1_073_741_824));
            assert_eq!(cfg.mss, Some(1_400));
            assert_eq!(cfg.congestion.as_deref(), Some("cubic"));
            assert_eq!(cfg.total_blocks, Some(9));
            assert_eq!(cfg.title.as_deref(), Some("run-1"));
            assert_eq!(cfg.affinity.as_deref(), Some("2"));
            assert_eq!(cfg.omit, 3);
            assert!(cfg.zero_copy);
        }
        Mode::Server(_) => panic!("expected client"),
    }
}

#[test]
fn zero_sessions_at_once_means_one() {
    let cli = try_parse_from(["rperf3", "-s", "--max-concurrent", "0"]).unwrap();
    match into_mode(cli) {
        Mode::Server(cfg) => assert_eq!(cfg.max_concurrent, 1),
        Mode::Client(_) => panic!("expected server"),
    }
}

#[test]
fn window_has_to_fit_32_bits() {
    let cli = try_parse_from(["rperf3", "-c", "h", "-w", "4G"]).unwrap();
    assert_eq!(cli.try_into_mode().unwrap_err(), "window size '4G' exceeds u32::MAX");
    let cli = try_parse_from(["rperf3", "-c", "h", "-w", "4294967295"]).unwrap();
    assert!(cli.try_into_mode().is_ok());
}

#[test]
fn first_error_in_order_is_reported() {
    let all = ["rperf3", "-c", "h", "-b", "x", "-w", "y", "-S", "z", "-n", "q"];
    let mut cli = try_parse_from(all).unwrap();
    assert_eq!(
        cli.clone().try_into_mode().unwrap_err(),
        "invalid bandwidth 'x': invalid digit found in string"
    );
    cli.bandwidth = None;
    assert_eq!(
        cli.clone().try_into_mode().unwrap_err(),
        "invalid size 'y': invalid digit found in string"
    );
    cli.window = None;
    assert_eq!(
        cli.clone().try_into_mode().unwrap_err(),
        "invalid TOS 'z': invalid digit found in string"
    );
    cli.tos = None;
    assert_eq!(
        cli.clone().try_into_mode().unwrap_err(),
        "invalid size 'q': invalid digit found in string"
    );
    cli.bytes = None;
    assert!(cli.try_into_mode().is_ok());
}
