//! The summary that a client prints as JSON: the figures under
//! `start` and `end`, ready to be written out.

use vstd::prelude::*;

use super::binary64::{bits_of, to_bits, Double};
use super::direction::Direction;
use super::float_bits::FloatBits;
use super::format::{bits_per_second, rate_over};
use super::test::Config;
use super::transport_kind::TransportKind;

verus! {

pub struct JsonOutput {
    pub start: JsonStart,
    pub end: JsonEnd,
}

pub struct JsonStart {
    pub connecting_to: Option<JsonConnectingTo>,
    pub test_start: JsonTestStart,
}

pub struct JsonConnectingTo {
    pub host: String,
    pub port: u16,
}

pub struct JsonTestStart {
    pub protocol: String,
    pub num_streams: u32,
    pub blksize: u32,
    pub duration: u32,
    pub reverse: u32,
    pub bidir: u32,
}

pub struct JsonEnd {
    pub sum_sent: JsonSum,
    pub sum_received: JsonSum,
}

#[derive(Debug, Clone, Copy, PartialEq, Eq, Structural)]
pub struct JsonSum {
    pub bytes: u64,
    pub seconds: FloatBits,
    pub bits_per_second: FloatBits,
}

impl JsonSum {
    /// The figures of `bytes` moved in `seconds`.
    pub open spec fn tells(self, bytes: u64, seconds: Double) -> bool {
        &&& self.bytes == bytes
        &&& self.seconds.bits == bits_of(seconds)
        &&& self.bits_per_second.bits == bits_of(rate_over(bytes, seconds))
    }

    /// The figures of `bytes` moved in `seconds`. Less than a millionth of a
    /// second counts as that much in the rate.
    pub fn new(bytes: u64, seconds: Double) -> (s: JsonSum)
        requires
            seconds.within(-1_000, 60),
        ensures
            s.tells(bytes, seconds),
    {
        JsonSum {
            bytes,
            seconds: to_bits(seconds),
            bits_per_second: to_bits(bits_per_second(bytes, seconds)),
        }
    }
}

/// The summary of a test: what was asked for, what the client counted, and
/// what the server reported over the same time.
pub fn summary(config: &Config, sender_bytes: u64, server_bytes: u64, seconds: Double) -> (o:
    JsonOutput)
    requires
        seconds.within(-1_000, 60),
    ensures
        o.start.connecting_to matches Some(c) && c.host@ == config.host@ && c.port == config.port,
        o.start.test_start.protocol@ == (if config.transport == TransportKind::Udp {
            "UDP"@
        } else {
            "TCP"@
        }),
        o.start.test_start.num_streams == config.parallel,
        o.start.test_start.blksize == config.len,
        o.start.test_start.duration == config.time,
        o.start.test_start.reverse == (if config.direction == Direction::Reverse {
            1int
        } else {
            0int
        }),
        o.start.test_start.bidir == (if config.direction == Direction::Bidirectional {
            1int
        } else {
            0int
        }),
        o.end.sum_sent.tells(sender_bytes, seconds),
        o.end.sum_received.tells(server_bytes, seconds),
{
    let protocol = if config.transport.is_udp() {
        "UDP".to_owned()
    } else {
        "TCP".to_owned()
    };
    JsonOutput {
        start: JsonStart {
            connecting_to: Some(
                JsonConnectingTo { host: config.host.as_str().to_owned(), port: config.port },
            ),
            test_start: JsonTestStart {
                protocol,
                num_streams: config.parallel,
                blksize: config.len,
                duration: config.time,
                reverse: if config.direction.is_reverse() {
                    1
                } else {
                    0
                },
                bidir: if config.direction.is_bidirectional() {
                    1
                } else {
                    0
                },
            },
        },
        end: JsonEnd {
            sum_sent: JsonSum::new(sender_bytes, seconds),
            sum_received: JsonSum::new(server_bytes, seconds),
        },
    }
}

} // verus!
