use rperf3::common::big_endian::be_at_least;
use rperf3::common::error::ErrorKind;
use rperf3::common::udp_header::UdpHeader;

#[test]
fn encode_decode_roundtrip() {
    let h = UdpHeader { tv_sec: 0x11223344, tv_usec: 0x55667788, seq: 0x0A0B_0C0D_1234_5678 };
    let mut buf = [0u8; 16];
    h.encode(&mut buf).unwrap();
    let back = UdpHeader::decode(&buf).unwrap();
    assert_eq!(h, back);
}

#[test]
fn encode_layout_is_big_endian() {
    let h = UdpHeader { tv_sec: 1, tv_usec: 2, seq: 3 };
    let mut buf = [0u8; 16];
    h.encode(&mut buf).unwrap();
    assert_eq!(&buf[0..4], &[0, 0, 0, 1]);
    assert_eq!(&buf[4..8], &[0, 0, 0, 2]);
    assert_eq!(&buf[8..16], &[0, 0, 0, 0, 0, 0, 0, 3]);
}

#[test]
fn decode_rejects_short_buffer() {
    let short = [0u8; 8];
    let err = UdpHeader::decode(&short).unwrap_err();
    assert_eq!(err.kind(), ErrorKind::InvalidData);
    assert_eq!(err.message, "datagram shorter than 16-byte UDP header");
}

#[test]
fn encode_rejects_short_buffer() {
    let h = UdpHeader { tv_sec: 0, tv_usec: 0, seq: 0 };
    let mut tiny = [0u8; 4];
    let err = h.encode(&mut tiny).unwrap_err();
    assert_eq!(err.kind(), ErrorKind::InvalidInput);
    assert_eq!(err.message, "buffer too small for UDP header");
}

#[test]
fn sentinel_is_negative_seq() {
    let h = UdpHeader { tv_sec: 0, tv_usec: 0, seq: -1 };
    assert!(h.is_sentinel());
    let not = UdpHeader { tv_sec: 0, tv_usec: 0, seq: 0 };
    assert!(!not.is_sentinel());
}

#[test]
fn decode_negative_seq_roundtrips() {
    let h = UdpHeader { tv_sec: 10, tv_usec: 20, seq: -42 };
    let mut buf = [0u8; 16];
    h.encode(&mut buf).unwrap();
    let back = UdpHeader::decode(&buf).unwrap();
    assert_eq!(back.seq, -42);
    assert!(back.is_sentinel());
}

#[test]
fn header_leaves_the_rest_of_the_datagram() {
    let h = UdpHeader { tv_sec: u32::MAX, tv_usec: 999_999, seq: i64::MAX };
    let mut buf = [7u8; 20];
    h.encode(&mut buf).unwrap();
    assert_eq!(&buf[16..], &[7, 7, 7, 7]);
    assert_eq!(UdpHeader::decode(&buf).unwrap(), h);
    let lowest = UdpHeader { tv_sec: 0, tv_usec: 0, seq: i64::MIN };
    lowest.encode(&mut buf).unwrap();
    assert_eq!(buf[8..16], i64::MIN.to_be_bytes());
    assert_eq!(UdpHeader::decode(&buf).unwrap(), lowest);
}

#[test]
fn numbers_compare_by_value() {
    let samples: [&[u8]; 9] =
        [&[], &[0], &[0, 0, 7], &[7], &[8], &[1, 0], &[0, 1, 0], &[255, 255], &[1, 0, 0]];
    let value = |s: &[u8]| s.iter().fold(0u64, |n, b| n * 256 + *b as u64);
    for a in samples {
        for b in samples {
            assert_eq!(be_at_least(a, b), value(a) >= value(b), "{:?} {:?}", a, b);
        }
    }
}
