use rperf3::common::message::UnknownCode;
use rperf3::common::{Direction, Message, TransportKind};

const VARIANTS: [Message; 18] = [
    Message::TestStart,
    Message::TestRunning,
    Message::ResultRequest,
    Message::TestEnd,
    Message::StreamBegin,
    Message::StreamRunning,
    Message::StreamEnd,
    Message::AllStreamsEnd,
    Message::ParamExchange,
    Message::CreateStreams,
    Message::ServerTerminate,
    Message::ClientTerminate,
    Message::ExchangeResults,
    Message::DisplayResults,
    Message::IperfStart,
    Message::IperfDone,
    Message::AccessDenied,
    Message::ServerError,
];

#[test]
fn message_roundtrip_try_from_primitive() {
    for variant in VARIANTS {
        let code = variant.code();
        let roundtripped = Message::try_from(code)
            .unwrap_or_else(|_| panic!("code {} failed to round-trip", code));
        assert_eq!(roundtripped.code(), code, "variant value {} did not round-trip", code);
        assert_eq!(roundtripped, variant);
    }
}

#[test]
fn message_try_from_unknown_code_is_err() {
    assert!(Message::try_from(0i8).is_err());
    assert!(Message::try_from(127i8).is_err());
    assert!(Message::try_from(-128i8).is_err());
}

#[test]
fn message_codes_are_those_of_the_protocol() {
    let codes: Vec<i8> = VARIANTS.iter().map(|m| m.code()).collect();
    assert_eq!(codes, vec![1, 2, 3, 4, 5, 6, 7, 8, 9, 10, 11, 12, 13, 14, 15, 16, -1, -2]);
    for m in VARIANTS {
        assert_eq!(m.byte(), m.code() as u8);
        assert_eq!(Message::from_byte(m.byte()), Ok(m));
    }
    let known = (0..=255u8).filter(|b| Message::from_byte(*b).is_ok()).count();
    assert_eq!(known, 18);
    assert_eq!(Message::try_from(17), Err(UnknownCode { code: 17 }));
    assert_eq!(Message::from_byte(200), Err(UnknownCode { code: -56 }));
}

#[test]
fn default_is_forward() {
    assert_eq!(Direction::default(), Direction::Forward);
}

#[test]
fn forward_client_sends_server_receives() {
    assert!(Direction::Forward.client_sends());
    assert!(!Direction::Forward.client_receives());
    assert!(!Direction::Forward.server_sends());
    assert!(Direction::Forward.server_receives());
}

#[test]
fn reverse_swaps_roles() {
    assert!(!Direction::Reverse.client_sends());
    assert!(Direction::Reverse.client_receives());
    assert!(Direction::Reverse.server_sends());
    assert!(!Direction::Reverse.server_receives());
    assert!(Direction::Reverse.is_reverse());
    assert!(!Direction::Reverse.is_bidirectional());
}

#[test]
fn bidirectional_both_sides_send_and_receive() {
    assert!(Direction::Bidirectional.client_sends());
    assert!(Direction::Bidirectional.client_receives());
    assert!(Direction::Bidirectional.server_sends());
    assert!(Direction::Bidirectional.server_receives());
    assert!(Direction::Bidirectional.is_bidirectional());
    assert!(!Direction::Bidirectional.is_reverse());
}

#[test]
fn default_is_tcp() {
    assert_eq!(TransportKind::default(), TransportKind::Tcp);
}

#[test]
fn is_udp_true_only_for_udp() {
    assert!(!TransportKind::Tcp.is_udp());
    assert!(TransportKind::Udp.is_udp());
}
