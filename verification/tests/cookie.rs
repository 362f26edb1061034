use rperf3::common::cookie::{generate_cookie, recv_cookie, same_cookie, send_cookie, COOKIE_LEN};
use rperf3::common::error::{ErrorKind, IoError};
use rperf3::common::protocol::{MockSocket, Protocol};

#[test]
fn cookie_is_36_alnum_plus_null() {
    let cookie = generate_cookie();
    assert_eq!(cookie.len(), 37);
    assert_eq!(cookie[36], 0, "last byte must be NUL");
    for (i, b) in cookie[..36].iter().enumerate() {
        assert!(b.is_ascii_alphanumeric(), "byte {} = {} is not ASCII alphanumeric", i, b);
    }
}

#[test]
fn two_cookies_differ() {
    let a = generate_cookie();
    let b = generate_cookie();
    assert_ne!(a, b, "two consecutive cookies should not match");
    assert!(!same_cookie(&a, &b));
    assert!(same_cookie(&a, &a));
}

#[test]
fn recv_cookie_reads_exact_37_bytes() {
    let cookie = generate_cookie();
    let mut mock = MockSocket::new();
    mock.recv_queue.push(cookie.to_vec());
    let received = recv_cookie(&mut Protocol::new(Box::new(mock))).unwrap();
    assert_eq!(received, cookie);
}

#[test]
fn recv_cookie_reassembles_short_reads() {
    let cookie = generate_cookie();
    let mut mock = MockSocket::new();
    mock.recv_queue.push(cookie[..10].to_vec());
    mock.recv_queue.push(cookie[10..25].to_vec());
    mock.recv_queue.push(cookie[25..].to_vec());
    let received = recv_cookie(&mut Protocol::new(Box::new(mock))).unwrap();
    assert_eq!(received, cookie);
}

#[test]
fn recv_cookie_errors_on_premature_close() {
    let mut mock = MockSocket::new();
    mock.recv_queue.push(vec![b'x'; 5]);
    mock.recv_queue.push(Vec::new());
    let err = recv_cookie(&mut Protocol::new(Box::new(mock))).unwrap_err();
    assert_eq!(err.kind(), ErrorKind::UnexpectedEof);
    assert_eq!(err.message, "peer closed before cookie was fully received");
}

#[test]
fn cookies_differ_in_any_byte() {
    let a = [b'a'; COOKIE_LEN];
    for i in 0..COOKIE_LEN {
        let mut b = a;
        b[i] = b'b';
        assert!(!same_cookie(&a, &b));
    }
}

#[test]
fn send_cookie_reports_the_socket_error() {
    let cookie = generate_cookie();
    let mut good = Protocol::new(Box::new(MockSocket::new()));
    assert!(send_cookie(&mut good, &cookie).is_ok());
    let broken = MockSocket::new().with_send_error(IoError::new(ErrorKind::BrokenPipe, "gone"));
    let mut bad = Protocol::new(Box::new(broken));
    let err = send_cookie(&mut bad, &cookie).unwrap_err();
    assert_eq!(err.kind(), ErrorKind::BrokenPipe);
}
