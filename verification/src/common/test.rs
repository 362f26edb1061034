//! The configuration of a test, what its streams report, and its state.

use vstd::prelude::*;
use vstd::string::StringExecFns;

use super::accounting::{span, span_nanos, Account, Delivery};
use super::cookie::{generate_cookie, is_cookie, COOKIE_LEN};
use super::cpu::CpuSnapshot;
use super::direction::Direction;
use super::float_bits::FloatBits;
use super::message::Message;
use super::protocol::Protocol;
use super::stream::Stream;
use super::text::{decimal, push_decimal};
use super::time::{Duration, Instant};
use super::transport_kind::TransportKind;

verus! {

/// A path of the standard library, carried unread.
#[verifier::external_type_specification]
#[verifier::external_body]
pub struct ExPathBuf(std::path::PathBuf);

/// What a client's stream reports when it ends.
#[derive(Debug, Clone, Copy, PartialEq, Eq, Structural)]
pub struct ClientStreamReceipt {
    pub stream_id: u32,
    pub bytes_sent: u64,
    /// Bytes sent within the omit window. They are part of `bytes_sent`.
    pub bytes_omit: u64,
    pub first_send_at: Option<Instant>,
    /// The first send outside the omit window.
    pub first_measured_at: Option<Instant>,
    pub last_send_at: Option<Instant>,
    /// TCP segments that were sent again, where the platform counts them.
    pub retransmits: u32,
    /// Jitter of a UDP stream in milliseconds.
    pub jitter_ms: FloatBits,
    /// UDP datagrams that were lost.
    pub lost: u64,
    /// UDP datagrams that came out of order.
    pub ooo: u64,
    /// UDP datagrams in all.
    pub packets: u64,
}

impl ClientStreamReceipt {
    /// The part of a receipt that counts bytes.
    pub open spec fn account(self) -> Account {
        Account {
            bytes: self.bytes_sent as nat,
            omitted: self.bytes_omit as nat,
            first: self.first_send_at,
            first_measured: self.first_measured_at,
            last: self.last_send_at,
        }
    }

    /// The omitted bytes are some of the bytes.
    pub open spec fn wf(self) -> bool {
        self.bytes_omit <= self.bytes_sent
    }

    /// The receipt of a stream on which nothing was sent.
    pub open spec fn spec_empty(stream_id: u32) -> ClientStreamReceipt {
        ClientStreamReceipt {
            stream_id,
            bytes_sent: 0,
            bytes_omit: 0,
            first_send_at: None,
            first_measured_at: None,
            last_send_at: None,
            retransmits: 0,
            jitter_ms: FloatBits { bits: 0 },
            lost: 0,
            ooo: 0,
            packets: 0,
        }
    }

    /// The receipt of a stream on which nothing was sent.
    pub fn empty(stream_id: u32) -> (r: ClientStreamReceipt)
        ensures
            r == Self::spec_empty(stream_id),
            r.wf(),
            r.account() == Account::empty(),
    {
        ClientStreamReceipt {
            stream_id,
            bytes_sent: 0,
            bytes_omit: 0,
            first_send_at: None,
            first_measured_at: None,
            last_send_at: None,
            retransmits: 0,
            jitter_ms: FloatBits::zero(),
            lost: 0,
            ooo: 0,
            packets: 0,
        }
    }

    /// The receipts differ at most in bytes, points in time and datagrams.
    pub open spec fn same_but_counts(self, other: ClientStreamReceipt) -> bool {
        &&& self.stream_id == other.stream_id
        &&& self.retransmits == other.retransmits
        &&& self.jitter_ms == other.jitter_ms
        &&& self.lost == other.lost
        &&& self.ooo == other.ooo
    }

    /// Counts `n` bytes sent at `now`, in a test that omits what is sent
    /// within `omit` of the first send.
    pub fn record(&mut self, n: u64, now: Instant, omit: Duration)
        requires
            old(self).wf(),
            old(self).bytes_sent + n <= u64::MAX,
        ensures
            final(self).wf(),
            final(self).account() == old(self).account().after(
                (Delivery { bytes: n as nat, at: now }),
                omit,
            ),
            final(self).same_but_counts(*old(self)),
            final(self).packets == old(self).packets,
    {
        let first = match self.first_send_at {
            Some(f) => f,
            None => now,
        };
        self.first_send_at = Some(first);
        self.last_send_at = Some(now);
        self.bytes_sent = self.bytes_sent + n;
        if now.duration_since(first).nanos < omit.nanos {
            self.bytes_omit = self.bytes_omit + n;
        } else if self.first_measured_at.is_none() {
            self.first_measured_at = Some(now);
        }
    }

    /// Bytes of the measurement window.
    pub fn bytes_measured(&self) -> (n: u64)
        ensures
            n == (if self.bytes_sent >= self.bytes_omit {
                self.bytes_sent - self.bytes_omit
            } else {
                0
            }),
    {
        self.bytes_sent.saturating_sub(self.bytes_omit)
    }

    /// From the first send to the last, the omit window included.
    pub fn elapsed(&self) -> (d: Duration)
        ensures
            d.nanos == span_nanos(self.first_send_at, self.last_send_at),
    {
        span(self.first_send_at, self.last_send_at)
    }

    /// From the first send outside the omit window to the last send.
    pub fn measured_elapsed(&self) -> (d: Duration)
        ensures
            d.nanos == span_nanos(self.first_measured_at, self.last_send_at),
    {
        span(self.first_measured_at, self.last_send_at)
    }
}

/// The configuration of a single test.
#[derive(Debug, Clone, PartialEq, Eq)]
pub struct Config {
    pub host: String,
    pub port: u16,
    pub time: u32,
    pub parallel: u32,
    pub len: u32,
    /// Seconds at the start of each stream whose bytes are left out of the
    /// reported measurement.
    pub omit: u32,
    pub transport: TransportKind,
    /// Sender-side limit in bits per second; 0 is unlimited.
    pub bandwidth: u64,
    /// The server exits after one test.
    pub one_off: bool,
    /// How many sessions the server runs at once.
    pub max_concurrent: u32,
    pub direction: Direction,
    /// Print JSON in place of text at the end of the test.
    pub json: bool,
    /// Unit of text output (`-f`), accepted and without effect.
    pub format_unit: Option<char>,
    /// Where all output goes, if not to the terminal.
    pub logfile: Option<std::path::PathBuf>,
    /// Socket buffer size in bytes (`-w`).
    pub window_size: Option<u32>,
    /// TCP segment size in bytes (`-M`).
    pub mss: Option<u32>,
    /// TCP congestion algorithm (`-C`).
    pub congestion: Option<String>,
    /// Type of service (`-S`).
    pub tos: Option<u8>,
    /// Zero-copy mode (`-Z`), accepted and without effect.
    pub zero_copy: bool,
    /// A number of bytes (`-n`), accepted and without effect.
    pub total_bytes: Option<u64>,
    /// A number of writes (`-k`), accepted and without effect.
    pub total_blocks: Option<u64>,
    /// What text rows begin with (`-T`).
    pub title: Option<String>,
    /// Processor to run on (`-A`).
    pub affinity: Option<String>,
    /// Client: who to authenticate as.
    pub username: Option<String>,
    /// Client: the password, asked for if it is missing and needed.
    pub password: Option<String>,
    /// Client: the server's public key file.
    pub rsa_public_key: Option<std::path::PathBuf>,
    /// Server: the private key file.
    pub rsa_private_key: Option<std::path::PathBuf>,
    /// Server: the file of authorized users.
    pub authorized_users: Option<std::path::PathBuf>,
}

impl Config {
    /// The usual defaults: TCP, 10 seconds, one stream, 128 KiB writes.
    pub fn with_host(host: &str) -> (c: Config)
        ensures
            c.host@ == host@,
            c.port == 5201,
            c.time == 10,
            c.parallel == 1,
            c.len == 131_072,
            c.omit == 0,
            c.transport == TransportKind::Tcp,
            c.bandwidth == 0,
            !c.one_off,
            c.max_concurrent == 1,
            c.direction == Direction::Forward,
            !c.json,
            c.format_unit is None,
            c.logfile is None,
            c.window_size is None,
            c.mss is None,
            c.congestion is None,
            c.tos is None,
            !c.zero_copy,
            c.total_bytes is None,
            c.total_blocks is None,
            c.title is None,
            c.affinity is None,
            c.username is None,
            c.password is None,
            c.rsa_public_key is None,
            c.rsa_private_key is None,
            c.authorized_users is None,
    {
        Config {
            host: host.to_owned(),
            port: 5201,
            time: 10,
            parallel: 1,
            len: 131_072,
            omit: 0,
            transport: TransportKind::Tcp,
            bandwidth: 0,
            one_off: false,
            max_concurrent: 1,
            direction: Direction::Forward,
            json: false,
            format_unit: None,
            logfile: None,
            window_size: None,
            mss: None,
            congestion: None,
            tos: None,
            zero_copy: false,
            total_bytes: None,
            total_blocks: None,
            title: None,
            affinity: None,
            username: None,
            password: None,
            rsa_public_key: None,
            rsa_private_key: None,
            authorized_users: None,
        }
    }

    /// The address to connect to or to listen on.
    pub fn host_port(&self) -> (s: String)
        ensures
            s@ == self.host@ + seq![':'] + decimal(self.port as nat),
    {
        let mut s = self.host.as_str().to_owned();
        s.push(':');
        push_decimal(&mut s, self.port as u128);
        proof {
            assert(self.host@.push(':') =~= self.host@ + seq![':']);
        }
        s
    }
}

/// The state of a client's test.
pub struct Test {
    pub config: Config,
    /// Sent first on the control connection and on every data connection.
    pub cookie: [u8; COOKIE_LEN],
    pub control_channel: Option<Protocol>,
    pub stream: Option<Stream>,
    pub is_started: bool,
    pub is_running: bool,
    pub state: Message,
    /// What the streams that have ended reported.
    pub receipts: Vec<ClientStreamReceipt>,
    /// Processor time at the start of the test.
    pub cpu_start: Option<CpuSnapshot>,
    /// The port of the UDP data streams, where it is not that of the control
    /// connection.
    pub data_port_override: Option<u16>,
}

impl Test {
    /// A test that has not begun, with a fresh cookie.
    pub fn new(config: Config) -> (t: Test)
        ensures
            t.config == config,
            is_cookie(t.cookie@),
            t.control_channel is None,
            t.stream is None,
            !t.is_started,
            !t.is_running,
            t.state == Message::TestStart,
            t.receipts@.len() == 0,
            t.cpu_start is None,
            t.data_port_override is None,
    {
        Test {
            config,
            cookie: generate_cookie(),
            control_channel: None,
            stream: None,
            is_started: false,
            is_running: false,
            state: Message::TestStart,
            receipts: Vec::new(),
            cpu_start: None,
            data_port_override: None,
        }
    }

    /// Takes in the receipts that have arrived, in the order of arrival.
    pub fn drain_receipts(&mut self, arrived: Vec<ClientStreamReceipt>)
        ensures
            *final(self) == (Test { receipts: final(self).receipts, ..*old(self) }),
            final(self).receipts@ == old(self).receipts@ + arrived@,
    {
        let mut arrived = arrived;
        self.receipts.append(&mut arrived);
    }
}

} // verus!
