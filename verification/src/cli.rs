//! The rules of the command line.
//!
//! Either `-s` (server) or `-c <host>` (client) is given. The arguments, once
//! taken apart, are a [`Cli`]; [`Cli::try_into_mode`] turns it into the
//! [`Mode`] to run in.

use vstd::prelude::*;
use vstd::string::StringExecFns;

use crate::common::bandwidth::{parse, parse_size, parse_tos, scale_error_text, scaled};
use crate::common::bandwidth::{tos_error_lead, tos_number};
use crate::common::direction::Direction;
use crate::common::test::Config;
use crate::common::text::{decimal, number_error_text};
use crate::common::transport_kind::TransportKind;

verus! {

/// Default port of the server.
pub const DEFAULT_PORT: u16 = 5201;

/// Default length of a test in seconds.
pub const DEFAULT_TIME_SECS: u32 = 10;

/// Default number of parallel streams.
pub const DEFAULT_PARALLEL: u32 = 1;

/// Default address that a server listens on.
pub const DEFAULT_BIND: &'static str = "0.0.0.0";

/// Default length of the omit window in seconds.
pub const DEFAULT_OMIT_SECS: u32 = 0;

/// Default bytes per TCP write.
pub const DEFAULT_TCP_WRITE: u32 = 131_072;

/// Default bytes per datagram: small enough for an Ethernet frame, with room
/// for encapsulation.
pub const DEFAULT_UDP_LEN: u32 = 1460;

/// Default rate of UDP streams in bits per second.
pub const DEFAULT_UDP_BANDWIDTH_BPS: u64 = 1_000_000;

/// The command line, taken apart.
#[derive(Debug, Clone, PartialEq, Eq)]
pub struct Cli {
    /// Run as a server.
    pub server: bool,
    /// Run as a client and connect to this host.
    pub host: Option<String>,
    /// Port of the server.
    pub port: u16,
    /// Length of the test in seconds.
    pub time: u32,
    /// Number of parallel streams.
    pub parallel: u32,
    /// Bytes per write.
    pub len: Option<u32>,
    /// Seconds to omit at the start of the test.
    pub omit: u32,
    /// Use UDP for the data streams.
    pub udp: bool,
    /// Target rate, with an optional K, M or G; `0` is unlimited.
    pub bandwidth: Option<String>,
    /// Exit after one test.
    pub one_off: bool,
    /// How many sessions to run at once.
    pub max_concurrent: u32,
    /// The server sends and the client receives.
    pub reverse: bool,
    /// Both sides send and receive.
    pub bidir: bool,
    /// Print JSON at the end of the test.
    pub json: bool,
    /// Accepted, without effect: text output chooses its unit itself.
    pub format: Option<char>,
    /// Where all output goes.
    pub logfile: Option<std::path::PathBuf>,
    /// Accepted, without effect.
    pub verbose: bool,
    /// Accepted, without effect.
    pub timestamps: bool,
    /// Socket buffer size, with an optional K, M or G.
    pub window: Option<String>,
    /// TCP segment size.
    pub mss: Option<u32>,
    /// TCP congestion algorithm.
    pub congestion: Option<String>,
    /// Type of service: decimal, `0x` hexadecimal or `0` octal.
    pub tos: Option<String>,
    /// Accepted, without effect.
    pub zerocopy: bool,
    /// A number of bytes, with an optional K, M or G; accepted, without effect.
    pub bytes: Option<String>,
    /// A number of writes; accepted, without effect.
    pub blockcount: Option<u64>,
    /// What output rows begin with.
    pub title: Option<String>,
    /// Processor to run on.
    pub affinity: Option<String>,
    /// Who to authenticate as.
    pub username: Option<String>,
    /// The password to authenticate with.
    pub password: Option<String>,
    /// The server's public key file.
    pub rsa_public_key: Option<std::path::PathBuf>,
    /// The server's private key file.
    pub rsa_private_key: Option<std::path::PathBuf>,
    /// The file of authorized users.
    pub authorized_users: Option<std::path::PathBuf>,
}

/// What to run as, with the configuration of the test.
#[derive(Debug, Clone, PartialEq, Eq)]
pub enum Mode {
    Client(Config),
    Server(Config),
}

impl Cli {
    /// The rate that was asked for: by default 1 Mbit/s for UDP, and
    /// unlimited for TCP.
    pub open spec fn asked_bandwidth(self) -> Result<int, Seq<char>> {
        match self.bandwidth {
            Some(s) => match scaled(s@, 1000) {
                Ok(v) => Ok(v),
                Err(e) => Err(scale_error_text("bandwidth"@, s@, e)),
            },
            None => Ok(
                if self.udp {
                    DEFAULT_UDP_BANDWIDTH_BPS as int
                } else {
                    0
                },
            ),
        }
    }

    /// The socket buffer size that was asked for, which has to fit 32 bits.
    pub open spec fn asked_window(self) -> Result<Option<int>, Seq<char>> {
        match self.window {
            Some(s) => match scaled(s@, 1024) {
                Ok(v) => if v > u32::MAX {
                    Err("window size '"@ + s@ + "' exceeds u32::MAX"@)
                } else {
                    Ok(Some(v))
                },
                Err(e) => Err(scale_error_text("size"@, s@, e)),
            },
            None => Ok(None),
        }
    }

    /// The type of service that was asked for, which has to fit a byte.
    pub open spec fn asked_tos(self) -> Result<Option<int>, Seq<char>> {
        match self.tos {
            Some(s) => match tos_number(s@) {
                Ok(v) => if v > 255 {
                    Err("TOS value "@ + decimal(v as nat) + " out of range (0-255)"@)
                } else {
                    Ok(Some(v))
                },
                Err(e) => Err(tos_error_lead(s@) + s@ + "': "@ + number_error_text(e)),
            },
            None => Ok(None),
        }
    }

    /// The byte limit that was asked for.
    pub open spec fn asked_bytes(self) -> Result<Option<int>, Seq<char>> {
        match self.bytes {
            Some(s) => match scaled(s@, 1024) {
                Ok(v) => Ok(Some(v)),
                Err(e) => Err(scale_error_text("size"@, s@, e)),
            },
            None => Ok(None),
        }
    }

    /// What is wrong with the command line: the first error in the order
    /// rate, buffer size, type of service, byte limit.
    pub open spec fn first_error(self) -> Option<Seq<char>> {
        match (self.asked_bandwidth(), self.asked_window(), self.asked_tos(), self.asked_bytes()) {
            (Err(e), _, _, _) => Some(e),
            (_, Err(e), _, _) => Some(e),
            (_, _, Err(e), _) => Some(e),
            (_, _, _, Err(e)) => Some(e),
            _ => None,
        }
    }

    /// The configuration that a command line without errors stands for.
    pub open spec fn stands_for(self, c: Config) -> bool {
        &&& c.host@ == (match self.host {
            Some(h) => h@,
            None => DEFAULT_BIND@,
        })
        &&& c.port == self.port
        &&& c.time == self.time
        &&& c.parallel == self.parallel
        &&& c.len == (match self.len {
            Some(n) => n,
            None => if self.udp {
                DEFAULT_UDP_LEN
            } else {
                DEFAULT_TCP_WRITE
            },
        })
        &&& c.omit == self.omit
        &&& c.transport == (if self.udp {
            TransportKind::Udp
        } else {
            TransportKind::Tcp
        })
        &&& self.asked_bandwidth() == Ok::<int, Seq<char>>(c.bandwidth as int)
        &&& c.one_off == self.one_off
        &&& c.max_concurrent == (if self.max_concurrent > 1 {
            self.max_concurrent as int
        } else {
            1
        })
        &&& c.direction == (if self.bidir {
            Direction::Bidirectional
        } else if self.reverse {
            Direction::Reverse
        } else {
            Direction::Forward
        })
        &&& c.json == self.json
        &&& c.format_unit == self.format
        &&& c.logfile == self.logfile
        &&& self.asked_window() == Ok::<Option<int>, Seq<char>>(
            match c.window_size {
                Some(n) => Some(n as int),
                None => None,
            },
        )
        &&& c.mss == self.mss
        &&& c.congestion == self.congestion
        &&& self.asked_tos() == Ok::<Option<int>, Seq<char>>(
            match c.tos {
                Some(n) => Some(n as int),
                None => None,
            },
        )
        &&& c.zero_copy == self.zerocopy
        &&& self.asked_bytes() == Ok::<Option<int>, Seq<char>>(
            match c.total_bytes {
                Some(n) => Some(n as int),
                None => None,
            },
        )
        &&& c.total_blocks == self.blockcount
        &&& c.title == self.title
        &&& c.affinity == self.affinity
        &&& c.username == self.username
        &&& c.password == self.password
        &&& c.rsa_public_key == self.rsa_public_key
        &&& c.rsa_private_key == self.rsa_private_key
        &&& c.authorized_users == self.authorized_users
    }

    /// Turns the command line into the mode to run in, or says what is wrong
    /// with it.
    pub fn try_into_mode(self) -> (r: Result<Mode, String>)
        ensures
            match self.first_error() {
                Some(text) => r is Err && r->Err_0@ == text,
                None => match r {
                    Ok(Mode::Server(c)) => self.server && self.stands_for(c),
                    Ok(Mode::Client(c)) => !self.server && self.stands_for(c),
                    Err(_) => false,
                },
            },
    {
        let transport = if self.udp {
            TransportKind::Udp
        } else {
            TransportKind::Tcp
        };
        let bandwidth: u64 = match &self.bandwidth {
            Some(s) => match parse(s.as_str()) {
                Ok(v) => v,
                Err(e) => {
                    return Err(e);
                },
            },
            None => if self.udp {
                DEFAULT_UDP_BANDWIDTH_BPS
            } else {
                0
            },
        };
        let len: u32 = match self.len {
            Some(n) => n,
            None => if self.udp {
                DEFAULT_UDP_LEN
            } else {
                DEFAULT_TCP_WRITE
            },
        };
        let direction = if self.bidir {
            Direction::Bidirectional
        } else if self.reverse {
            Direction::Reverse
        } else {
            Direction::Forward
        };
        let window_size: Option<u32> = match &self.window {
            Some(s) => match parse_size(s.as_str()) {
                Ok(v) => {
                    if v > u32::MAX as u64 {
                        let mut text = "window size '".to_owned();
                        text.append(s.as_str());
                        text.append("' exceeds u32::MAX");
                        return Err(text);
                    }
                    Some(v as u32)
                },
                Err(e) => {
                    return Err(e);
                },
            },
            None => None,
        };
        let tos: Option<u8> = match &self.tos {
            Some(s) => match parse_tos(s.as_str()) {
                Ok(v) => Some(v),
                Err(e) => {
                    return Err(e);
                },
            },
            None => None,
        };
        let total_bytes: Option<u64> = match &self.bytes {
            Some(s) => match parse_size(s.as_str()) {
                Ok(v) => Some(v),
                Err(e) => {
                    return Err(e);
                },
            },
            None => None,
        };
        let host = match &self.host {
            Some(h) => h.as_str().to_owned(),
            None => DEFAULT_BIND.to_owned(),
        };
        let config = Config {
            host,
            port: self.port,
            time: self.time,
            parallel: self.parallel,
            len,
            omit: self.omit,
            transport,
            bandwidth,
            one_off: self.one_off,
            max_concurrent: if self.max_concurrent > 1 {
                self.max_concurrent
            } else {
                1
            },
            direction,
            json: self.json,
            format_unit: self.format,
            logfile: self.logfile,
            window_size,
            mss: self.mss,
            congestion: self.congestion,
            tos,
            zero_copy: self.zerocopy,
            total_bytes,
            total_blocks: self.blockcount,
            title: self.title,
            affinity: self.affinity,
            username: self.username,
            password: self.password,
            rsa_public_key: self.rsa_public_key,
            rsa_private_key: self.rsa_private_key,
            authorized_users: self.authorized_users,
        };
        if self.server {
            Ok(Mode::Server(config))
        } else {
            Ok(Mode::Client(config))
        }
    }
}

} // verus!
