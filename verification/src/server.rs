//! The server's side of a test.
//!
//! A session accepts a control connection, reads the cookie, asks for the
//! options, takes in the data streams, counts bytes until the client says
//! that the test is over, and exchanges results.

use vstd::prelude::*;
use vstd::slice::slice_subrange;
use vstd::string::StringExecFns;
use vstd::utf8::{decode_utf8, valid_utf8};

use crate::common::accounting::{account_from_the_start, account_of, overall_span, span};
use crate::common::accounting::{span_nanos, spans, Account, Delivery};
use crate::common::binary64::{at_least_a_millionth, bits_of, positive_seconds, seconds};
use crate::common::binary64::{span_seconds, to_bits, to_seconds};
use crate::common::cookie::{cookie_run, recv_cookie, same_cookie, COOKIE_LEN};
use crate::common::cpu::CpuUsage;
use crate::common::error::{ErrorKind, IoError};
use crate::common::float_bits::FloatBits;
use crate::common::format::{bitrate, bitrate_text, bytes, bytes_text, fixed2, push_fixed2};
use crate::common::format::rate_over;
use crate::common::interval::{megabit_rate, megabits_per_second};
use crate::common::interval::{IntervalReporter, IntervalSnapshot};
use crate::common::message::Message;
use crate::common::protocol::{moved_by, Protocol, SocketEvent};
use crate::common::session::transport_allowed;
use crate::common::stream::{judge, step_of, verdict, StreamPause, StreamStep, Transfer, Verdict};
use crate::common::stream::{deliveries, STRETCH_CALLS};
use crate::common::text::{decimal, push_decimal};
use crate::common::time::{Duration, Instant, MAX_NANOS};
use crate::common::timer::{all_shown, readings, readings_after_push, Clock};
use crate::common::wire::{bytes_result, calls, calls_after_push, calls_compose, control_run};
use crate::common::wire::{control_run_is_one_call, extends, failed_write_is_unfinished};
use crate::common::wire::{recv_control_byte, recv_frame_run, recv_framed_json};
use crate::common::wire::{send_control_byte, write_progress, write_run, ClientOptions};
use crate::common::wire::{Results, StreamResults, DEFAULT_TCP_LEN};
use crate::common::wire::{frame_as_it_arrived, frame_header, message_as_it_arrived};
use crate::common::wire::{received_bytes, received_bytes_compose, sent_bytes};
use crate::common::wire::{sent_bytes_compose, write_receives_nothing, write_sends_the_buffer};

verus! {

/// What a single receiving stream observed.
#[derive(Debug, Clone, Copy, PartialEq, Eq, Structural)]
pub struct StreamReceipt {
    pub bytes: u64,
    /// Bytes of the omit window. They are part of `bytes`.
    pub bytes_omit: u64,
    pub first_byte_at: Option<Instant>,
    pub first_measured_at: Option<Instant>,
    pub last_byte_at: Option<Instant>,
    pub jitter_ms: FloatBits,
    pub lost: u64,
    pub ooo: u64,
    pub packets: u64,
}

impl StreamReceipt {
    /// The part of a receipt that counts bytes.
    pub open spec fn account(self) -> Account {
        Account {
            bytes: self.bytes as nat,
            omitted: self.bytes_omit as nat,
            first: self.first_byte_at,
            first_measured: self.first_measured_at,
            last: self.last_byte_at,
        }
    }

    /// The omitted bytes are some of the bytes.
    pub open spec fn wf(self) -> bool {
        self.bytes_omit <= self.bytes
    }

    /// The receipt of a stream on which nothing came.
    pub open spec fn spec_empty() -> StreamReceipt {
        StreamReceipt {
            bytes: 0,
            bytes_omit: 0,
            first_byte_at: None,
            first_measured_at: None,
            last_byte_at: None,
            jitter_ms: FloatBits { bits: 0 },
            lost: 0,
            ooo: 0,
            packets: 0,
        }
    }

    /// The receipt of a stream on which nothing came.
    pub fn empty() -> (r: StreamReceipt)
        ensures
            r == Self::spec_empty(),
            r.wf(),
            r.account() == Account::empty(),
    {
        StreamReceipt {
            bytes: 0,
            bytes_omit: 0,
            first_byte_at: None,
            first_measured_at: None,
            last_byte_at: None,
            jitter_ms: FloatBits::zero(),
            lost: 0,
            ooo: 0,
            packets: 0,
        }
    }

    /// Counts `n` bytes seen at `now`, in a test that omits what comes within
    /// `omit` of the first byte.
    pub fn record(&mut self, n: u64, now: Instant, omit: Duration)
        requires
            old(self).wf(),
            old(self).bytes + n <= u64::MAX,
        ensures
            final(self).wf(),
            final(self).account() == old(self).account().after(
                (Delivery { bytes: n as nat, at: now }),
                omit,
            ),
            final(self).jitter_ms == old(self).jitter_ms,
            final(self).lost == old(self).lost,
            final(self).ooo == old(self).ooo,
            final(self).packets == old(self).packets,
    {
        let first = match self.first_byte_at {
            Some(f) => f,
            None => now,
        };
        self.first_byte_at = Some(first);
        self.last_byte_at = Some(now);
        self.bytes = self.bytes + n;
        if now.duration_since(first).nanos < omit.nanos {
            self.bytes_omit = self.bytes_omit + n;
        } else if self.first_measured_at.is_none() {
            self.first_measured_at = Some(now);
        }
    }

    /// Bytes of the measurement window.
    pub open spec fn spec_bytes_measured(self) -> int {
        if self.bytes >= self.bytes_omit {
            self.bytes - self.bytes_omit
        } else {
            0
        }
    }

    /// Bytes of the measurement window.
    pub fn bytes_measured(&self) -> (n: u64)
        ensures
            n == self.spec_bytes_measured(),
    {
        self.bytes.saturating_sub(self.bytes_omit)
    }

    /// From the first byte to the last, the omit window included.
    pub fn elapsed(&self) -> (d: Duration)
        ensures
            d.nanos == span_nanos(self.first_byte_at, self.last_byte_at),
    {
        span(self.first_byte_at, self.last_byte_at)
    }

    /// From the first byte outside the omit window to the last byte.
    pub fn measured_elapsed(&self) -> (d: Duration)
        ensures
            d.nanos == span_nanos(self.first_measured_at, self.last_byte_at),
    {
        span(self.first_measured_at, self.last_byte_at)
    }
}

// ---------------------------------------------------------------------
// Sums and spans over all streams.

/// When each stream saw its first byte.
pub open spec fn first_bytes(receipts: Seq<StreamReceipt>) -> Seq<Option<Instant>> {
    receipts.map_values(|r: StreamReceipt| r.first_byte_at)
}

/// When each stream saw its first byte outside the omit window.
pub open spec fn first_measured(receipts: Seq<StreamReceipt>) -> Seq<Option<Instant>> {
    receipts.map_values(|r: StreamReceipt| r.first_measured_at)
}

/// When each stream saw its last byte.
pub open spec fn last_bytes(receipts: Seq<StreamReceipt>) -> Seq<Option<Instant>> {
    receipts.map_values(|r: StreamReceipt| r.last_byte_at)
}

fn collect_first_bytes(receipts: &[StreamReceipt]) -> (v: Vec<Option<Instant>>)
    ensures
        v@ == first_bytes(receipts@),
{
    let mut v: Vec<Option<Instant>> = Vec::new();
    let mut i: usize = 0;
    while i < receipts.len()
        invariant
            i <= receipts.len(),
            v@ == first_bytes(receipts@.take(i as int)),
        decreases receipts.len() - i,
    {
        v.push(receipts[i].first_byte_at);
        proof {
            assert(v@ =~= first_bytes(receipts@.take(i as int + 1)));
        }
        i = i + 1;
    }
    proof {
        assert(receipts@.take(i as int) =~= receipts@);
    }
    v
}

fn collect_first_measured(receipts: &[StreamReceipt]) -> (v: Vec<Option<Instant>>)
    ensures
        v@ == first_measured(receipts@),
{
    let mut v: Vec<Option<Instant>> = Vec::new();
    let mut i: usize = 0;
    while i < receipts.len()
        invariant
            i <= receipts.len(),
            v@ == first_measured(receipts@.take(i as int)),
        decreases receipts.len() - i,
    {
        v.push(receipts[i].first_measured_at);
        proof {
            assert(v@ =~= first_measured(receipts@.take(i as int + 1)));
        }
        i = i + 1;
    }
    proof {
        assert(receipts@.take(i as int) =~= receipts@);
    }
    v
}

fn collect_last_bytes(receipts: &[StreamReceipt]) -> (v: Vec<Option<Instant>>)
    ensures
        v@ == last_bytes(receipts@),
{
    let mut v: Vec<Option<Instant>> = Vec::new();
    let mut i: usize = 0;
    while i < receipts.len()
        invariant
            i <= receipts.len(),
            v@ == last_bytes(receipts@.take(i as int)),
        decreases receipts.len() - i,
    {
        v.push(receipts[i].last_byte_at);
        proof {
            assert(v@ =~= last_bytes(receipts@.take(i as int + 1)));
        }
        i = i + 1;
    }
    proof {
        assert(receipts@.take(i as int) =~= receipts@);
    }
    v
}

/// From the earliest first byte on any stream to the latest last byte on any
/// stream: the time during which data was really flowing.
pub fn measured_duration(receipts: &[StreamReceipt]) -> (d: Duration)
    ensures
        spans(first_bytes(receipts@), last_bytes(receipts@), d.nanos as int),
{
    let firsts = collect_first_bytes(receipts);
    let lasts = collect_last_bytes(receipts);
    overall_span(&firsts, &lasts)
}

/// From the earliest byte outside the omit window to the latest last byte.
pub fn measured_steady_state(receipts: &[StreamReceipt]) -> (d: Duration)
    ensures
        spans(first_measured(receipts@), last_bytes(receipts@), d.nanos as int),
{
    let firsts = collect_first_measured(receipts);
    let lasts = collect_last_bytes(receipts);
    overall_span(&firsts, &lasts)
}

/// All bytes over all streams.
pub open spec fn sum_bytes(receipts: Seq<StreamReceipt>) -> int
    decreases receipts.len(),
{
    if receipts.len() == 0 {
        0
    } else {
        sum_bytes(receipts.drop_last()) + receipts.last().bytes
    }
}

/// The measured bytes over all streams.
pub open spec fn sum_measured(receipts: Seq<StreamReceipt>) -> int
    decreases receipts.len(),
{
    if receipts.len() == 0 {
        0
    } else {
        sum_measured(receipts.drop_last()) + receipts.last().spec_bytes_measured()
    }
}

/// The sum of a part is no larger than the whole.
proof fn sums_grow(receipts: Seq<StreamReceipt>, k: int)
    requires
        0 <= k <= receipts.len(),
    ensures
        0 <= sum_bytes(receipts.take(k)) <= sum_bytes(receipts),
        0 <= sum_measured(receipts.take(k)) <= sum_measured(receipts),
        sum_measured(receipts) <= sum_bytes(receipts),
    decreases receipts.len(),
{
    if receipts.len() == 0 {
        assert(receipts.take(k) =~= receipts);
    } else if k == receipts.len() {
        assert(receipts.take(k) =~= receipts);
        sums_grow(receipts.drop_last(), 0);
        assert(receipts.drop_last().take(0) =~= Seq::<StreamReceipt>::empty());
    } else {
        sums_grow(receipts.drop_last(), k);
        assert(receipts.drop_last().take(k) =~= receipts.take(k));
    }
}

fn add_bytes(receipts: &[StreamReceipt]) -> (n: u64)
    requires
        sum_bytes(receipts@) <= u64::MAX,
    ensures
        n == sum_bytes(receipts@),
{
    let mut n: u64 = 0;
    let mut i: usize = 0;
    while i < receipts.len()
        invariant
            i <= receipts.len(),
            sum_bytes(receipts@) <= u64::MAX,
            n == sum_bytes(receipts@.take(i as int)),
        decreases receipts.len() - i,
    {
        proof {
            sums_grow(receipts@, i as int + 1);
            assert(receipts@.take(i as int + 1).drop_last() =~= receipts@.take(i as int));
        }
        n = n + receipts[i].bytes;
        i = i + 1;
    }
    proof {
        assert(receipts@.take(i as int) =~= receipts@);
    }
    n
}

fn add_measured(receipts: &[StreamReceipt]) -> (n: u64)
    requires
        sum_bytes(receipts@) <= u64::MAX,
    ensures
        n == sum_measured(receipts@),
{
    let mut n: u64 = 0;
    let mut i: usize = 0;
    while i < receipts.len()
        invariant
            i <= receipts.len(),
            sum_bytes(receipts@) <= u64::MAX,
            n == sum_measured(receipts@.take(i as int)),
        decreases receipts.len() - i,
    {
        proof {
            sums_grow(receipts@, i as int + 1);
            assert(receipts@.take(i as int + 1).drop_last() =~= receipts@.take(i as int));
        }
        n = n + receipts[i].bytes_measured();
        i = i + 1;
    }
    proof {
        assert(receipts@.take(i as int) =~= receipts@);
    }
    n
}

/// Whether the bytes over all streams fit their sum.
pub fn check_totals(receipts: &[StreamReceipt]) -> (b: bool)
    ensures
        b == (sum_bytes(receipts@) <= u64::MAX),
{
    let mut n: u64 = 0;
    let mut i: usize = 0;
    while i < receipts.len()
        invariant
            i <= receipts.len(),
            n == sum_bytes(receipts@.take(i as int)),
        decreases receipts.len() - i,
    {
        proof {
            sums_grow(receipts@, i as int + 1);
            assert(receipts@.take(i as int + 1).drop_last() =~= receipts@.take(i as int));
        }
        match n.checked_add(receipts[i].bytes) {
            Some(m) => {
                n = m;
            },
            None => {
                return false;
            },
        }
        i = i + 1;
    }
    proof {
        assert(receipts@.take(i as int) =~= receipts@);
    }
    true
}

/// The entry of one stream in the server's results. Streams are numbered from
/// one, and the number wraps at 2^32.
pub open spec fn stream_entry(i: int, r: StreamReceipt) -> StreamResults {
    StreamResults {
        id: ((i + 1) % 0x1_0000_0000) as u32,
        bytes: r.bytes,
        retransmits: 0,
        jitter: r.jitter_ms,
        errors: r.lost,
        packets: r.packets,
    }
}

/// The results that the server reports: one entry per receipt, in order.
pub fn build_server_results(receipts: &[StreamReceipt], cpu: &CpuUsage) -> (r: Results)
    requires
        cpu.wf(),
    ensures
        r.cpu_util_total.bits == bits_of(cpu.total_pct),
        r.cpu_util_user.bits == bits_of(cpu.user_pct),
        r.cpu_util_system.bits == bits_of(cpu.system_pct),
        r.sender_has_retransmits == 0,
        r.streams@ == Seq::new(receipts@.len(), |i: int| stream_entry(i, receipts@[i])),
{
    let mut streams: Vec<StreamResults> = Vec::new();
    let mut i: usize = 0;
    while i < receipts.len()
        invariant
            i <= receipts.len(),
            streams@ == Seq::new(i as nat, |j: int| stream_entry(j, receipts@[j])),
        decreases receipts.len() - i,
    {
        let r = receipts[i];
        streams.push(
            StreamResults {
                id: ((i as u64 + 1u64) % 0x1_0000_0000u64) as u32,
                bytes: r.bytes,
                retransmits: 0,
                jitter: r.jitter_ms,
                errors: r.lost,
                packets: r.packets,
            },
        );
        proof {
            assert(streams@ =~= Seq::new((i + 1) as nat, |j: int| stream_entry(j, receipts@[j])));
        }
        i = i + 1;
    }
    Results {
        cpu_util_total: to_bits(cpu.total_pct),
        cpu_util_user: to_bits(cpu.user_pct),
        cpu_util_system: to_bits(cpu.system_pct),
        sender_has_retransmits: 0,
        streams,
    }
}

/// What a session comes to, over all of its streams.
#[derive(Debug, Clone, Copy, PartialEq, Eq, Structural)]
pub struct SessionTotals {
    pub total_bytes: u64,
    /// Bytes outside the omit window.
    pub measured_bytes: u64,
    /// From the first byte to the last.
    pub raw: Duration,
    /// From the first byte outside the omit window to the last.
    pub steady: Duration,
    /// The time that processor use is measured against.
    pub wall: Duration,
    /// What the summary line is about.
    pub summary_bytes: u64,
    pub summary_duration: Duration,
}

/// Adds up the receipts of a session. The summary is about the measurement
/// window where one was asked for and bytes came within; else about all
/// bytes, over the time in which they came, or over the time that the client
/// announced where that is empty.
pub fn session_totals(receipts: &[StreamReceipt], omit: u32, time: u32) -> (t: SessionTotals)
    requires
        sum_bytes(receipts@) <= u64::MAX,
    ensures
        t.total_bytes == sum_bytes(receipts@),
        t.measured_bytes == sum_measured(receipts@),
        spans(first_bytes(receipts@), last_bytes(receipts@), t.raw.nanos as int),
        spans(first_measured(receipts@), last_bytes(receipts@), t.steady.nanos as int),
        t.wall == (if t.steady.nanos != 0 {
            t.steady
        } else {
            t.raw
        }),
        t.summary_bytes == (if omit > 0 && t.steady.nanos != 0 {
            t.measured_bytes
        } else {
            t.total_bytes
        }),
        t.summary_duration.nanos == (if omit > 0 && t.steady.nanos != 0 {
            t.steady.nanos as int
        } else if t.raw.nanos != 0 {
            t.raw.nanos as int
        } else {
            time * 1_000_000_000
        }),
{
    let total_bytes: u64 = add_bytes(receipts);
    let measured_bytes: u64 = add_measured(receipts);
    let raw = measured_duration(receipts);
    let steady = measured_steady_state(receipts);
    let wall = if !steady.is_zero() {
        steady
    } else {
        raw
    };
    let (summary_bytes, summary_duration): (u64, Duration) = if omit > 0 && !steady.is_zero() {
        (measured_bytes, steady)
    } else if !raw.is_zero() {
        (total_bytes, raw)
    } else {
        (total_bytes, Duration::from_secs(time as u64))
    };
    SessionTotals {
        total_bytes,
        measured_bytes,
        raw,
        steady,
        wall,
        summary_bytes,
        summary_duration,
    }
}

/// The measured bytes and the omitted ones are all the bytes.
pub proof fn measured_and_omitted_are_all(receipts: Seq<StreamReceipt>)
    requires
        forall|i: int| 0 <= i < receipts.len() ==> (#[trigger] receipts[i]).wf(),
    ensures
        sum_measured(receipts) + sum_omitted(receipts) == sum_bytes(receipts),
    decreases receipts.len(),
{
    if receipts.len() > 0 {
        let head = receipts.drop_last();
        assert forall|i: int| 0 <= i < head.len() implies (#[trigger] head[i]).wf() by {
            assert(receipts[i].wf());
        }
        measured_and_omitted_are_all(head);
        assert(receipts[receipts.len() - 1].wf());
    }
}

/// The omitted bytes over all streams.
pub open spec fn sum_omitted(receipts: Seq<StreamReceipt>) -> int
    decreases receipts.len(),
{
    if receipts.len() == 0 {
        0
    } else {
        sum_omitted(receipts.drop_last()) + receipts.last().bytes_omit
    }
}

// ---------------------------------------------------------------------
// Lines for people.

/// The summary line of a session.
pub open spec fn summary_text(total_bytes: u64, duration: Duration, streams: nat) -> Seq<char> {
    "received "@ + decimal(total_bytes as nat) + " bytes across "@ + decimal(streams)
        + " stream(s) in "@ + fixed2(positive_seconds(seconds(duration))) + "s ("@ + fixed2(
        megabit_rate(total_bytes, positive_seconds(seconds(duration))),
    ) + " Mbits/sec)"@
}

/// Renders the summary line of a session.
pub fn format_summary(total_bytes: u64, duration: Duration, streams: usize) -> (s: String)
    requires
        duration.nanos <= MAX_NANOS,
    ensures
        s@ == summary_text(total_bytes, duration, streams as nat),
{
    let secs = at_least_a_millionth(to_seconds(duration));
    let mbits = megabits_per_second(total_bytes, secs);
    let mut s = "received ".to_owned();
    push_decimal(&mut s, total_bytes as u128);
    s.append(" bytes across ");
    push_decimal(&mut s, streams as u128);
    s.append(" stream(s) in ");
    push_fixed2(&mut s, secs);
    s.append("s (");
    push_fixed2(&mut s, mbits);
    s.append(" Mbits/sec)");
    proof {
        assert(s@ =~= summary_text(total_bytes, duration, streams as nat));
    }
    s
}

/// A row about one interval of a stream, or about what came after the last
/// whole one.
pub open spec fn server_row_text(snap: IntervalSnapshot, last: bool) -> Seq<char> {
    "[SRV "@ + decimal(snap.stream_id as nat) + "] "@ + fixed2(seconds(snap.start)) + "-"@ + fixed2(
        seconds(snap.end),
    ) + " sec  "@ + bytes_text(snap.bytes) + "  "@ + bitrate_text(
        rate_over(snap.bytes, snap.length()),
    ) + (if last {
        " (final)"@
    } else {
        Seq::<char>::empty()
    })
}

/// Renders a row about one interval of a stream.
pub fn format_server_row(snap: &IntervalSnapshot, last: bool) -> (s: String)
    requires
        snap.wf(),
    ensures
        s@ == server_row_text(*snap, last),
{
    let mut s = "[SRV ".to_owned();
    push_decimal(&mut s, snap.stream_id as u128);
    s.append("] ");
    push_fixed2(&mut s, to_seconds(snap.start));
    s.append("-");
    push_fixed2(&mut s, to_seconds(snap.end));
    s.append(" sec  ");
    s.append(bytes(snap.bytes).as_str());
    s.append("  ");
    let secs = span_seconds(to_seconds(snap.start), to_seconds(snap.end));
    s.append(bitrate(snap.bytes, secs).as_str());
    if last {
        s.append(" (final)");
    }
    proof {
        assert(s@ =~= server_row_text(*snap, last));
    }
    s
}

/// What `String::from_utf8_lossy` makes of bytes.
pub uninterp spec fn utf8_lossy(bytes: Seq<u8>) -> Seq<char>;

/// `String::from_utf8_lossy`: a text for any bytes. Bytes that are valid
/// UTF-8 are decoded; how others are replaced is left to the name.
#[verifier::external_body]
fn decode_lossy(bytes: &[u8]) -> (s: String)
    ensures
        s@ == utf8_lossy(bytes@),
        valid_utf8(bytes@) ==> s@ == decode_utf8(bytes@),
{
    String::from_utf8_lossy(bytes).into_owned()
}

/// A cookie for the log, without the byte that ends it.
pub fn cookie_display(cookie: &[u8; COOKIE_LEN]) -> (s: String)
    ensures
        s@ == utf8_lossy(cookie@.drop_last()),
        valid_utf8(cookie@.drop_last()) ==> s@ == decode_utf8(cookie@.drop_last()),
{
    let front = slice_subrange(cookie.as_slice(), 0, COOKIE_LEN - 1);
    proof {
        assert(front@ =~= cookie@.drop_last());
    }
    decode_lossy(front)
}

// ---------------------------------------------------------------------
// Counting what a stream carries.

/// Keeps the books of a stream on the server's side.
pub struct ServerMeter {
    pub transfer: Transfer,
    pub receipt: StreamReceipt,
    pub reporter: Option<IntervalReporter>,
    pub omit: Duration,
}

impl ServerMeter {
    pub open spec fn wf(self) -> bool {
        &&& self.receipt.wf()
        &&& self.reporter matches Some(r) ==> r.wf() && r.bytes_in_interval <= self.receipt.bytes
    }

    /// The counts and the clock can take `n` bytes more at `now`.
    pub open spec fn has_room(self, n: int, now: Instant) -> bool {
        &&& self.receipt.bytes + n <= u64::MAX
        &&& self.reporter matches Some(r) ==> r.boundary_at(now) + r.interval.nanos <= u128::MAX
    }

    /// The books of a stream, with or without rows.
    pub fn new(transfer: Transfer, omit: Duration, reporter: Option<IntervalReporter>) -> (m:
        ServerMeter)
        requires
            reporter matches Some(r) ==> r.wf() && r.bytes_in_interval == 0,
        ensures
            m.wf(),
            m.transfer == transfer,
            m.receipt == StreamReceipt::spec_empty(),
            m.reporter == reporter,
            m.omit == omit,
    {
        ServerMeter { transfer, receipt: StreamReceipt::empty(), reporter, omit }
    }

    /// Whether the counts and the clock can take `n` bytes more at `now`.
    pub fn check_room(&self, n: usize, now: Instant) -> (b: bool)
        ensures
            b == self.has_room(n as int, now),
    {
        if self.receipt.bytes > u64::MAX - n as u64 {
            return false;
        }
        match &self.reporter {
            None => true,
            Some(r) => {
                let boundary: u128 = match r.next_boundary {
                    Some(b) => b.nanos,
                    None => {
                        if now.nanos > u128::MAX - r.interval.nanos {
                            return false;
                        }
                        now.nanos + r.interval.nanos
                    },
                };
                boundary <= u128::MAX - r.interval.nanos
            },
        }
    }

    /// The books after a call on the socket that came back at `now`, and what
    /// the stream does next.
    pub open spec fn notes(
        self,
        outcome: Result<usize, IoError>,
        now: Instant,
        after: ServerMeter,
        step: StreamStep,
    ) -> bool {
        &&& after.transfer == self.transfer
        &&& after.omit == self.omit
        &&& match verdict(self.transfer, outcome) {
            Verdict::Count(n) => {
                let given = match step {
                    StreamStep::Report(s) => Some(s),
                    _ => None,
                };
                &&& step == step_of(given)
                &&& match (self.reporter, after.reporter) {
                    (Some(a), Some(b)) => a.counts(n, now, b, given),
                    (None, None) => given is None,
                    _ => false,
                }
                &&& after.receipt.account() == self.receipt.account().after(
                    (Delivery { bytes: n as nat, at: now }),
                    self.omit,
                )
                &&& after.receipt.jitter_ms == self.receipt.jitter_ms
                &&& after.receipt.lost == self.receipt.lost
                &&& after.receipt.ooo == self.receipt.ooo
                &&& after.receipt.packets == self.receipt.packets
            },
            Verdict::Again => after == self && step == StreamStep::Continue,
            Verdict::Stop => after == self && step == StreamStep::Stop,
        }
    }

    /// Takes note of one call on the socket, which came back at `now`.
    pub fn on_outcome(&mut self, outcome: &Result<usize, IoError>, now: Instant) -> (step: StreamStep)
        requires
            old(self).wf(),
            outcome matches Ok(n) ==> old(self).has_room(*n as int, now),
        ensures
            final(self).wf(),
            old(self).notes(*outcome, now, *final(self), step),
    {
        match judge(self.transfer, outcome) {
            Verdict::Count(n) => {
                self.receipt.record(n, now, self.omit);
                match self.reporter {
                    Some(r) => {
                        let mut reporter = r;
                        let given = reporter.on_bytes(n, now);
                        self.reporter = Some(reporter);
                        match given {
                            Some(s) => StreamStep::Report(s),
                            None => StreamStep::Continue,
                        }
                    },
                    None => StreamStep::Continue,
                }
            },
            Verdict::Again => StreamStep::Continue,
            Verdict::Stop => StreamStep::Stop,
        }
    }

    /// Reads after which the stream goes on with nothing to print. Each was
    /// noted with what the clock read when it had come back.
    pub open spec fn reads_quietly(
        self,
        run: Seq<SocketEvent>,
        times: Seq<Instant>,
        after: ServerMeter,
    ) -> bool
        decreases run.len(),
    {
        if run.len() == 0 {
            times.len() == 0 && after == self
        } else {
            &&& times.len() == run.len()
            &&& asks_for(run.last(), DEFAULT_TCP_LEN as nat)
            &&& exists|mid: ServerMeter|
                {
                    &&& self.reads_quietly(run.drop_last(), times.drop_last(), mid)
                    &&& #[trigger] mid.notes(
                        moved_by(run.last()),
                        times.last(),
                        after,
                        StreamStep::Continue,
                    )
                }
        }
    }

    /// The read that ends a stretch, and what comes of it: no bytes mean that
    /// the peer has closed.
    pub open spec fn pauses_at(
        self,
        call: SocketEvent,
        now: Instant,
        after: ServerMeter,
        pause: StreamPause,
    ) -> bool {
        match pause {
            StreamPause::Report(s) => self.notes(
                moved_by(call),
                now,
                after,
                StreamStep::Report(s),
            ),
            StreamPause::Over => moved_by(call) == Ok::<usize, IoError>(0) && self.notes(
                moved_by(call),
                now,
                after,
                StreamStep::Stop,
            ),
            StreamPause::Failed(e) => moved_by(call) == Err::<usize, IoError>(e) && self.notes(
                moved_by(call),
                now,
                after,
                StreamStep::Stop,
            ),
            StreamPause::Full => {
                &&& after == self
                &&& moved_by(call) matches Ok(n) && !self.has_room(n as int, now)
            },
            _ => false,
        }
    }

    /// A stretch of reads, with the readings of the clock meanwhile: it ends
    /// with the first read after which there is something to tell.
    pub open spec fn read_stretch(
        self,
        run: Seq<SocketEvent>,
        times: Seq<Instant>,
        after: ServerMeter,
        pause: StreamPause,
    ) -> bool {
        if pause is Quiet {
            run.len() == STRETCH_CALLS && self.reads_quietly(run, times, after)
        } else {
            &&& run.len() > 0
            &&& times.len() == run.len()
            &&& asks_for(run.last(), DEFAULT_TCP_LEN as nat)
            &&& exists|mid: ServerMeter|
                {
                    &&& self.reads_quietly(run.drop_last(), times.drop_last(), mid)
                    &&& #[trigger] mid.pauses_at(run.last(), times.last(), after, pause)
                }
        }
    }

    /// The row that is still to print at the end, if any bytes are left for
    /// it.
    pub open spec fn last_row(self) -> Option<IntervalSnapshot> {
        match (self.reporter, self.receipt.last_byte_at) {
            (Some(r), Some(t)) => match r.last_snapshot(t) {
                Some(s) => if s.bytes > 0 {
                    Some(s)
                } else {
                    None
                },
                None => None,
            },
            _ => None,
        }
    }

    /// Closes the books: the receipt, and the row that is still to print.
    pub fn finish(self) -> (r: (StreamReceipt, Option<IntervalSnapshot>))
        requires
            self.wf(),
        ensures
            r.0 == self.receipt,
            r.1 == self.last_row(),
    {
        let row = match self.receipt.last_byte_at {
            Some(t) => match self.reporter {
                Some(r) => {
                    let mut reporter = r;
                    match reporter.flush(t) {
                        Some(s) => if s.bytes > 0 {
                            Some(s)
                        } else {
                            None
                        },
                        None => None,
                    }
                },
                None => None,
            },
            None => None,
        };
        (self.receipt, row)
    }
}

/// The call asks for up to `room` bytes.
pub open spec fn asks_for(call: SocketEvent, want: nat) -> bool {
    match call {
        SocketEvent::Recv { room, got } => room == want && (got matches Ok(bytes) ==> bytes.len()
            <= room),
        _ => false,
    }
}

/// What one more read adds to the bytes that a run has brought in.
proof fn received_by_one_more(run: Seq<SocketEvent>, want: nat)
    requires
        run.len() > 0,
        asks_for(run.last(), want),
    ensures
        received_bytes(run).len() == received_bytes(run.drop_last()).len() + (match run.last() {
            SocketEvent::Recv { got: Ok(bytes), .. } => bytes.len(),
            _ => 0,
        }),
{
}

/// Takes bytes in and throws them away, until the peer closes, an error ends
/// the stream, or a row is to be printed. Each read is noted with what the
/// clock reads when it has come back. What arrived on the channel is what the
/// receipt counts.
pub fn recv_stream_bytes(
    protocol: &mut Protocol,
    meter: &mut ServerMeter,
    clock: &mut Clock,
) -> (pause: StreamPause)
    requires
        old(meter).wf(),
        old(meter).transfer == Transfer::TcpRecv,
    ensures
        final(meter).wf(),
        extends(old(protocol).log(), final(protocol).log()),
        final(clock).stopwatch() == old(clock).stopwatch(),
        old(clock).log().is_prefix_of(final(clock).log()),
        all_shown(old(clock).stopwatch(), readings(old(clock).log(), final(clock).log())),
        old(meter).read_stretch(
            calls(old(protocol).log(), final(protocol).log()),
            readings(old(clock).log(), final(clock).log()),
            *final(meter),
            pause,
        ),
        !(pause is Full) ==> final(meter).receipt.bytes == old(meter).receipt.bytes
            + received_bytes(calls(old(protocol).log(), final(protocol).log())).len(),
{
    let ghost start = *meter;
    let ghost before = protocol.log();
    let ghost clock0 = clock.log();
    let mut buf: Vec<u8> = vec![0u8; DEFAULT_TCP_LEN];
    let mut left: u64 = STRETCH_CALLS;
    proof {
        assert(calls(before, protocol.log()) =~= Seq::<SocketEvent>::empty());
        assert(readings(clock0, clock.log()) =~= Seq::<Instant>::empty());
    }
    while left > 0
        invariant
            meter.wf(),
            buf@.len() == DEFAULT_TCP_LEN,
            start == *old(meter),
            start.transfer == Transfer::TcpRecv,
            meter.transfer == Transfer::TcpRecv,
            before == old(protocol).log(),
            clock0 == old(clock).log(),
            extends(before, protocol.log()),
            clock0.is_prefix_of(clock.log()),
            clock.stopwatch() == old(clock).stopwatch(),
            all_shown(clock.stopwatch(), readings(clock0, clock.log())),
            calls(before, protocol.log()).len() == STRETCH_CALLS - left,
            readings(clock0, clock.log()).len() == STRETCH_CALLS - left,
            start.reads_quietly(
                calls(before, protocol.log()),
                readings(clock0, clock.log()),
                *meter,
            ),
            meter.receipt.bytes == start.receipt.bytes + received_bytes(
                calls(before, protocol.log()),
            ).len(),
        decreases left,
    {
        let ghost mid = *meter;
        let ghost log = protocol.log();
        let ghost clock1 = clock.log();
        let outcome = protocol.recv(buf.as_mut_slice());
        let now = clock.read();
        let ghost run = calls(before, protocol.log());
        let ghost times = readings(clock0, clock.log());
        proof {
            readings_after_push(clock0, clock1, now);
            assert(times.drop_last() =~= readings(clock0, clock1));
            assert(times.last() == now);
            assert(protocol.log().drop_last() =~= log);
            calls_after_push(before, log, protocol.log());
            assert(asks_for(run.last(), DEFAULT_TCP_LEN as nat));
            assert(moved_by(run.last()) == outcome);
            received_by_one_more(run, DEFAULT_TCP_LEN as nat);
        }
        let full = match &outcome {
            Ok(n) => !meter.check_room(*n, now),
            Err(_) => false,
        };
        if full {
            proof {
                assert(mid.pauses_at(run.last(), times.last(), *meter, StreamPause::Full));
            }
            return StreamPause::Full;
        }
        let step = meter.on_outcome(&outcome, now);
        let pause = match step {
            StreamStep::Continue => {
                proof {
                    assert(mid.notes(
                        moved_by(run.last()),
                        times.last(),
                        *meter,
                        StreamStep::Continue,
                    ));
                }
                left = left - 1;
                continue ;
            },
            StreamStep::Report(s) => StreamPause::Report(s),
            StreamStep::Stop => match outcome {
                Ok(_) => StreamPause::Over,
                Err(e) => StreamPause::Failed(e),
            },
        };
        proof {
            assert(mid.pauses_at(run.last(), times.last(), *meter, pause));
        }
        return pause;
    }
    StreamPause::Quiet
}

proof fn quiet_reads_add_up(
    before: ServerMeter,
    run: Seq<SocketEvent>,
    times: Seq<Instant>,
    after: ServerMeter,
)
    requires
        before.reads_quietly(run, times, after),
    ensures
        after.omit == before.omit,
        after.receipt.account() == before.receipt.account().after_all(
            deliveries(run, times),
            before.omit,
        ),
    decreases run.len(),
{
    if run.len() > 0 {
        let mid = choose|mid: ServerMeter|
            {
                &&& before.reads_quietly(run.drop_last(), times.drop_last(), mid)
                &&& #[trigger] mid.notes(
                    moved_by(run.last()),
                    times.last(),
                    after,
                    StreamStep::Continue,
                )
            };
        quiet_reads_add_up(before, run.drop_last(), times.drop_last(), mid);
        one_read_adds_up(before, run, times, mid, after, StreamStep::Continue);
    }
}

/// What one more read does to the account.
proof fn one_read_adds_up(
    before: ServerMeter,
    run: Seq<SocketEvent>,
    times: Seq<Instant>,
    mid: ServerMeter,
    after: ServerMeter,
    step: StreamStep,
)
    requires
        run.len() > 0,
        mid.omit == before.omit,
        mid.receipt.account() == before.receipt.account().after_all(
            deliveries(run.drop_last(), times.drop_last()),
            before.omit,
        ),
        mid.notes(moved_by(run.last()), times.last(), after, step),
    ensures
        after.omit == before.omit,
        after.receipt.account() == before.receipt.account().after_all(
            deliveries(run, times),
            before.omit,
        ),
{
    let moved = deliveries(run.drop_last(), times.drop_last());
    match moved_by(run.last()) {
        Ok(n) => {
            let d = Delivery { bytes: n as nat, at: times.last() };
            before.receipt.account().after_all_and_one(moved, d, before.omit);
        },
        Err(_) => {},
    }
}

/// A stream's receipt is the account of what arrived on its channel, each
/// read at the point in time at which it had come back.
pub proof fn reads_make_up_the_account(
    before: ServerMeter,
    run: Seq<SocketEvent>,
    times: Seq<Instant>,
    after: ServerMeter,
    pause: StreamPause,
)
    requires
        before.read_stretch(run, times, after, pause),
        !(pause is Full),
    ensures
        after.receipt.account() == before.receipt.account().after_all(
            deliveries(run, times),
            before.omit,
        ),
        before.receipt.account() == Account::empty() ==> after.receipt.account() == account_of(
            deliveries(run, times),
            before.omit,
        ),
{
    if pause is Quiet {
        quiet_reads_add_up(before, run, times, after);
    } else {
        let mid = choose|mid: ServerMeter|
            {
                &&& before.reads_quietly(run.drop_last(), times.drop_last(), mid)
                &&& #[trigger] mid.pauses_at(run.last(), times.last(), after, pause)
            };
        quiet_reads_add_up(before, run.drop_last(), times.drop_last(), mid);
        let step = match pause {
            StreamPause::Report(s) => StreamStep::Report(s),
            _ => StreamStep::Stop,
        };
        one_read_adds_up(before, run, times, mid, after, step);
    }
    account_from_the_start(deliveries(run, times), before.omit);
}

/// One call on the socket that moved bytes, with the meter before and after.
pub struct ServerMeterStep {
    pub before: ServerMeter,
    pub n: u64,
    pub now: Instant,
    pub after: ServerMeter,
    pub given: Option<IntervalSnapshot>,
}

impl ServerMeterStep {
    /// The call is one that `on_outcome` counted, on a stream with rows.
    pub open spec fn holds(self) -> bool {
        &&& self.before.wf()
        &&& match (self.before.reporter, self.after.reporter) {
            (Some(a), Some(b)) => a.counts(self.n, self.now, b, self.given),
            _ => false,
        }
        &&& self.after.receipt.account() == self.before.receipt.account().after(
            (Delivery { bytes: self.n as nat, at: self.now }),
            self.before.omit,
        )
    }

    /// The bytes of the row that the call gave.
    pub open spec fn row_bytes(self) -> int {
        match self.given {
            Some(s) => s.bytes as int,
            None => 0,
        }
    }
}

/// The calls of a run follow on each other, from a meter that has counted
/// nothing.
pub open spec fn is_metered(run: Seq<ServerMeterStep>) -> bool
    decreases run.len(),
{
    if run.len() == 0 {
        true
    } else {
        let head = run.drop_last();
        &&& is_metered(head)
        &&& run.last().holds()
        &&& if head.len() == 0 {
            run.last().before.receipt.bytes == 0
        } else {
            run.last().before == head.last().after
        }
    }
}

/// All bytes of the rows that a run gave.
pub open spec fn rows_total(run: Seq<ServerMeterStep>) -> int
    decreases run.len(),
{
    if run.len() == 0 {
        0
    } else {
        rows_total(run.drop_last()) + run.last().row_bytes()
    }
}

/// The rows of a stream add up to its receipt on the server's side too: what
/// the rows report, with the last one that is printed at the end, is what the
/// receipt says has come.
pub proof fn server_rows_add_up_to_the_receipt(run: Seq<ServerMeterStep>)
    requires
        is_metered(run),
        run.len() > 0,
    ensures
        rows_total(run) + (match run.last().after.last_row() {
            Some(s) => s.bytes as int,
            None => 0,
        }) == run.last().after.receipt.bytes,
        run.last().after.reporter matches Some(r) && rows_total(run) + r.bytes_in_interval
            == run.last().after.receipt.bytes,
    decreases run.len(),
{
    let head = run.drop_last();
    let step = run.last();
    assert(step.after.receipt.account().bytes == step.before.receipt.account().bytes + step.n);
    assert(step.after.receipt.account().last == Some(step.now));
    if head.len() > 0 {
        server_rows_add_up_to_the_receipt(head);
    } else {
        assert(rows_total(head) == 0);
    }
}

// ---------------------------------------------------------------------
// How many tests to serve.

/// How a server goes about its tests.
#[derive(Debug, Clone, Copy, PartialEq, Eq, Structural)]
pub enum Serving {
    /// One test, and then no more.
    Once,
    /// One test after the other.
    Forever,
    /// Several tests at once.
    Concurrent,
}

/// Says how a server goes about its tests: several at once where more than
/// one may run, unless only one is to be served.
pub fn serving(one_off: bool, max_concurrent: u32) -> (m: Serving)
    ensures
        m == (if max_concurrent > 1 && !one_off {
            Serving::Concurrent
        } else if one_off {
            Serving::Once
        } else {
            Serving::Forever
        }),
{
    if one_off {
        Serving::Once
    } else if max_concurrent > 1 {
        Serving::Concurrent
    } else {
        Serving::Forever
    }
}

// ---------------------------------------------------------------------
// The control channel.

/// How long a peer may take over each step before and after the data
/// transfer.
pub const DEFAULT_HANDSHAKE_SECS: u64 = 30;

/// The usual handshake timeout.
pub fn default_handshake_timeout() -> (d: Duration)
    ensures
        d.nanos == DEFAULT_HANDSHAKE_SECS * 1_000_000_000,
{
    Duration::from_secs(DEFAULT_HANDSHAKE_SECS)
}

/// How long the client may be silent on the control channel while the test
/// runs: the handshake timeout on top of the whole test. Without a handshake
/// timeout there is no limit.
pub fn run_timeout(handshake_timeout: Option<Duration>, time: u32, omit: u32) -> (r: Option<
    Duration,
>)
    requires
        time + omit <= u32::MAX,
        handshake_timeout matches Some(h) ==> h.nanos + (time + omit) * 1_000_000_000 <= MAX_NANOS,
    ensures
        match (handshake_timeout, r) {
            (Some(h), Some(d)) => d.nanos == h.nanos + (time + omit) * 1_000_000_000,
            (None, None) => true,
            _ => false,
        },
{
    match handshake_timeout {
        Some(h) => Some(h.plus(Duration::from_secs((time + omit) as u64))),
        None => None,
    }
}

/// The calls that greet a peer: its silence is limited, then its cookie is
/// read.
pub open spec fn greet_run(
    run: Seq<SocketEvent>,
    timeout: Option<Duration>,
    r: Result<[u8; COOKIE_LEN], IoError>,
) -> bool {
    &&& run.len() > 0
    &&& match run[0] {
        SocketEvent::ReadTimeout { timeout: t, outcome } => t == timeout && match outcome {
            Ok(_) => cookie_run(run.skip(1), r),
            Err(e) => run.len() == 1 && r == Err::<[u8; COOKIE_LEN], IoError>(e),
        },
        _ => false,
    }
}

/// Greets a peer that has just connected. The timeout comes first, so that
/// one that never sends anything cannot hang the server.
pub fn accept_control(control: &mut Protocol, handshake_timeout: Option<Duration>) -> (r: Result<
    [u8; COOKIE_LEN],
    IoError,
>)
    ensures
        extends(old(control).log(), final(control).log()),
        greet_run(
            calls(old(control).log(), final(control).log()),
            handshake_timeout,
            r,
        ),
{
    let ghost before = control.log();
    let outcome = control.set_read_timeout(handshake_timeout);
    let ghost mid = control.log();
    proof {
        assert(calls(before, mid).len() == 1);
        assert(calls(before, mid)[0] == mid.last());
    }
    match outcome {
        Err(e) => Err(e),
        Ok(_) => {
            let r = recv_cookie(control);
            proof {
                calls_compose(before, mid, control.log());
                let run = calls(before, control.log());
                assert(run[0] == run.take(1)[0]);
            }
            r
        },
    }
}

/// What a data connection with the wrong cookie is told of.
pub open spec fn mismatch_text(index: u32) -> Seq<char> {
    "stream "@ + decimal(index as nat) + " cookie mismatch"@
}

/// A data connection, accepted in two goes: its peer is greeted, and if it
/// shows the cookie of the session, its silence is no longer limited.
pub open spec fn accept_stream_parts(
    greeting: Seq<SocketEvent>,
    rest: Seq<SocketEvent>,
    expected: Seq<u8>,
    index: u32,
    timeout: Option<Duration>,
    cookie: Result<[u8; COOKIE_LEN], IoError>,
    r: Result<(), IoError>,
) -> bool {
    &&& greet_run(greeting, timeout, cookie)
    &&& match cookie {
        Err(e) => rest.len() == 0 && r == Err::<(), IoError>(e),
        Ok(c) => if c@ == expected {
            rest.len() == 1 && rest[0] == (SocketEvent::ReadTimeout { timeout: None, outcome: r })
        } else {
            &&& rest.len() == 0
            &&& r matches Err(e) && e.is(ErrorKind::InvalidData, mismatch_text(index))
        },
    }
}

/// The calls that accept a data connection.
pub open spec fn accept_stream_run(
    run: Seq<SocketEvent>,
    expected: Seq<u8>,
    index: u32,
    timeout: Option<Duration>,
    r: Result<(), IoError>,
) -> bool {
    exists|k: int, cookie: Result<[u8; COOKIE_LEN], IoError>|
        #![trigger run.take(k), greet_run(run.take(k), timeout, cookie)]
        0 <= k <= run.len() && accept_stream_parts(
            run.take(k),
            run.skip(k),
            expected,
            index,
            timeout,
            cookie,
            r,
        )
}

/// Accepts the data connection number `index`: it has to show the cookie of
/// the session. The timeout holds while the cookie is read and is cleared
/// afterwards, because the data may take any time.
pub fn accept_stream(
    data: &mut Protocol,
    expected_cookie: &[u8; COOKIE_LEN],
    index: u32,
    handshake_timeout: Option<Duration>,
) -> (r: Result<(), IoError>)
    ensures
        extends(old(data).log(), final(data).log()),
        accept_stream_run(
            calls(old(data).log(), final(data).log()),
            expected_cookie@,
            index,
            handshake_timeout,
            r,
        ),
{
    let ghost before = data.log();
    let cookie = accept_control(data, handshake_timeout);
    let ghost mid = data.log();
    proof {
        let run = calls(before, mid);
        assert(run.take(run.len() as int) =~= run);
        assert(run.skip(run.len() as int).len() == 0);
    }
    match cookie {
        Err(e) => {
            proof {
                assert(greet_run(
                    calls(before, mid).take(calls(before, mid).len() as int),
                    handshake_timeout,
                    cookie,
                ));
            }
            Err(e)
        },
        Ok(got) => {
            if !same_cookie(&got, expected_cookie) {
                let mut text = "stream ".to_owned();
                push_decimal(&mut text, index as u128);
                text.append(" cookie mismatch");
                proof {
                    assert(greet_run(
                        calls(before, mid).take(calls(before, mid).len() as int),
                        handshake_timeout,
                        cookie,
                    ));
                }
                return Err(IoError { kind: ErrorKind::InvalidData, message: text });
            }
            let r = data.set_read_timeout(None);
            proof {
                calls_compose(before, mid, data.log());
                let run = calls(before, data.log());
                let k = calls(before, mid).len() as int;
                assert(greet_run(run.take(k), handshake_timeout, cookie));
            }
            r
        },
    }
}

/// A question to the client in two goes: the message, and if that got out,
/// the frame that answers it.
pub open spec fn ask_parts(
    msg: Message,
    asked: Seq<SocketEvent>,
    answered: Seq<SocketEvent>,
    r: Result<Seq<u8>, IoError>,
) -> bool {
    if write_progress(seq![msg.spec_byte()], asked) == Some(1int) {
        recv_frame_run(answered, r)
    } else {
        &&& answered.len() == 0
        &&& r matches Err(e) && write_run(seq![msg.spec_byte()], asked, Err(e))
    }
}

/// The calls that put a question to the client.
pub open spec fn ask_run(
    msg: Message,
    run: Seq<SocketEvent>,
    r: Result<Seq<u8>, IoError>,
) -> bool {
    exists|k: int|
        0 <= k <= run.len() && ask_parts(msg, #[trigger] run.take(k), run.skip(k), r)
}

fn ask(control: &mut Protocol, msg: Message) -> (r: Result<Vec<u8>, IoError>)
    ensures
        extends(old(control).log(), final(control).log()),
        ask_run(
            msg,
            calls(old(control).log(), final(control).log()),
            bytes_result(r),
        ),
{
    let ghost before = control.log();
    let asked = send_control_byte(control, msg);
    let ghost mid = control.log();
    match asked {
        Err(e) => {
            proof {
                let run = calls(before, mid);
                assert(run.take(run.len() as int) =~= run);
                assert(run.skip(run.len() as int).len() == 0);
                failed_write_is_unfinished(seq![msg.spec_byte()], run, e);
            }
            Err(e)
        },
        Ok(_) => {
            let r = recv_framed_json(control);
            proof {
                calls_compose(before, mid, control.log());
            }
            r
        },
    }
}

/// Asks the client for its options and reads the JSON text that it answers.
pub fn negotiate_options(control: &mut Protocol) -> (r: Result<Vec<u8>, IoError>)
    ensures
        extends(old(control).log(), final(control).log()),
        ask_run(
            Message::ParamExchange,
            calls(old(control).log(), final(control).log()),
            bytes_result(r),
        ),
{
    ask(control, Message::ParamExchange)
}

/// Asks the client for its results and reads the JSON text that it answers.
/// The server's own results go out in a frame once that text was understood.
pub fn request_results(control: &mut Protocol) -> (r: Result<Vec<u8>, IoError>)
    ensures
        extends(old(control).log(), final(control).log()),
        ask_run(
            Message::ExchangeResults,
            calls(old(control).log(), final(control).log()),
            bytes_result(r),
        ),
{
    ask(control, Message::ExchangeResults)
}

/// Two messages, the second only if the first got out.
pub open spec fn two_messages_parts(
    first: Message,
    second: Message,
    a: Seq<SocketEvent>,
    b: Seq<SocketEvent>,
    r: Result<(), IoError>,
) -> bool {
    if write_progress(seq![first.spec_byte()], a) == Some(1int) {
        write_run(seq![second.spec_byte()], b, r)
    } else {
        b.len() == 0 && r is Err && write_run(seq![first.spec_byte()], a, r)
    }
}

/// The calls that send two messages.
pub open spec fn two_messages_run(
    first: Message,
    second: Message,
    run: Seq<SocketEvent>,
    r: Result<(), IoError>,
) -> bool {
    exists|k: int|
        0 <= k <= run.len() && two_messages_parts(
            first,
            second,
            #[trigger] run.take(k),
            run.skip(k),
            r,
        )
}

/// Tells the client that the test starts, and then that it runs: two
/// messages of one byte each.
pub fn send_test_start_running(control: &mut Protocol) -> (r: Result<(), IoError>)
    ensures
        extends(old(control).log(), final(control).log()),
        two_messages_run(
            Message::TestStart,
            Message::TestRunning,
            calls(old(control).log(), final(control).log()),
            r,
        ),
{
    let ghost before = control.log();
    let first = send_control_byte(control, Message::TestStart);
    let ghost mid = control.log();
    match first {
        Err(e) => {
            proof {
                let run = calls(before, mid);
                assert(run.take(run.len() as int) =~= run);
                assert(run.skip(run.len() as int).len() == 0);
                failed_write_is_unfinished(seq![Message::TestStart.spec_byte()], run, e);
            }
            Err(e)
        },
        Ok(_) => {
            let second = send_control_byte(control, Message::TestRunning);
            proof {
                calls_compose(before, mid, control.log());
            }
            second
        },
    }
}

/// How many messages other than the awaited one are passed over before the
/// wait is given up. No channel carries as many.
pub const MAX_PASSED_OVER: u64 = 0xffff_ffff_ffff_ffff;

/// The calls passed over messages other than the awaited one, and nothing
/// else.
pub open spec fn passed_over(run: Seq<SocketEvent>, awaited: Message) -> bool {
    forall|i: int| 0 <= i < run.len() ==> is_other_message(#[trigger] run[i], awaited)
}

/// The call read a message other than the awaited one.
pub open spec fn is_other_message(call: SocketEvent, awaited: Message) -> bool {
    exists|m: Message| m != awaited && #[trigger] control_run(seq![call], Ok(m))
}

/// The calls that wait for a message. Other messages are passed over; the
/// wait ends with the awaited one, and at the first error.
pub open spec fn wait_run(
    run: Seq<SocketEvent>,
    awaited: Message,
    r: Result<(), IoError>,
) -> bool {
    ||| {
        &&& run.len() > 0
        &&& passed_over(run.drop_last(), awaited)
        &&& control_run(
            seq![run.last()],
            match r {
                Ok(_) => Ok(awaited),
                Err(e) => Err(e),
            },
        )
    }
    ||| {
        &&& run.len() == MAX_PASSED_OVER
        &&& passed_over(run, awaited)
        &&& r matches Err(e) && e.is(ErrorKind::TimedOut, "gave up waiting"@)
    }
}

fn wait_for(control: &mut Protocol, awaited: Message) -> (r: Result<(), IoError>)
    ensures
        extends(old(control).log(), final(control).log()),
        wait_run(calls(old(control).log(), final(control).log()), awaited, r),
{
    let ghost before = control.log();
    let mut passed: u64 = 0;
    while passed < MAX_PASSED_OVER
        invariant
            passed <= MAX_PASSED_OVER,
            before == old(control).log(),
            extends(before, control.log()),
            calls(before, control.log()).len() == passed,
            passed_over(calls(before, control.log()), awaited),
        decreases MAX_PASSED_OVER - passed,
    {
        let ghost mid = control.log();
        let outcome = recv_control_byte(control);
        let ghost after = control.log();
        proof {
            calls_compose(before, mid, after);
            control_run_is_one_call(calls(mid, after), outcome);
            let run = calls(before, after);
            assert(run.drop_last() =~= calls(before, mid));
            assert(run.last() == calls(mid, after)[0]);
            assert(seq![run.last()] =~= calls(mid, after));
        }
        match outcome {
            Err(e) => {
                return Err(e);
            },
            Ok(m) => {
                if m == awaited {
                    return Ok(());
                }
                proof {
                    let run = calls(before, after);
                    assert(is_other_message(run.last(), awaited)) by {
                        assert(control_run(seq![run.last()], Ok(m)));
                    }
                    assert forall|i: int| 0 <= i < run.len() implies is_other_message(
                        #[trigger] run[i],
                        awaited,
                    ) by {
                        if i < run.len() - 1 {
                            assert(run[i] == calls(before, mid)[i]);
                        }
                    }
                }
            },
        }
        passed = passed + 1;
    }
    Err(IoError::new(ErrorKind::TimedOut, "gave up waiting"))
}

/// Waits until the client says that the test is over. Other messages are
/// passed over.
pub fn wait_for_test_end(control: &mut Protocol) -> (r: Result<(), IoError>)
    ensures
        extends(old(control).log(), final(control).log()),
        wait_run(
            calls(old(control).log(), final(control).log()),
            Message::TestEnd,
            r,
        ),
{
    wait_for(control, Message::TestEnd)
}

/// A farewell in two goes: the results may be shown, and if that got out, the
/// client says that it is done.
pub open spec fn finalize_parts(
    told: Seq<SocketEvent>,
    waited: Seq<SocketEvent>,
    r: Result<(), IoError>,
) -> bool {
    if write_progress(seq![Message::DisplayResults.spec_byte()], told) == Some(1int) {
        wait_run(waited, Message::IperfDone, r)
    } else {
        &&& waited.len() == 0
        &&& r is Err
        &&& write_run(seq![Message::DisplayResults.spec_byte()], told, r)
    }
}

/// The calls that end a session.
pub open spec fn finalize_run(run: Seq<SocketEvent>, r: Result<(), IoError>) -> bool {
    exists|k: int| 0 <= k <= run.len() && finalize_parts(#[trigger] run.take(k), run.skip(k), r)
}

/// Tells the client to show its results and waits until it is done.
pub fn finalize_test(control: &mut Protocol) -> (r: Result<(), IoError>)
    ensures
        extends(old(control).log(), final(control).log()),
        finalize_run(calls(old(control).log(), final(control).log()), r),
{
    let ghost before = control.log();
    let told = send_control_byte(control, Message::DisplayResults);
    let ghost mid = control.log();
    match told {
        Err(e) => {
            proof {
                let run = calls(before, mid);
                assert(run.take(run.len() as int) =~= run);
                assert(run.skip(run.len() as int).len() == 0);
                failed_write_is_unfinished(seq![Message::DisplayResults.spec_byte()], run, e);
            }
            Err(e)
        },
        Ok(_) => {
            let r = wait_for(control, Message::IperfDone);
            proof {
                calls_compose(before, mid, control.log());
            }
            r
        },
    }
}

// ---------------------------------------------------------------------
// What a session looks like on the wire.

/// A question that was answered put its message on the wire, and the answer
/// came as a frame.
pub proof fn question_on_the_wire(msg: Message, run: Seq<SocketEvent>, body: Seq<u8>)
    requires
        ask_run(msg, run, Ok(body)),
    ensures
        sent_bytes(run) == seq![msg.spec_byte()],
        received_bytes(run) == frame_header(body) + body,
{
    let r = Ok::<Seq<u8>, IoError>(body);
    let k = choose|k: int|
        0 <= k <= run.len() && ask_parts(msg, #[trigger] run.take(k), run.skip(k), r);
    let asked = run.take(k);
    let answered = run.skip(k);
    write_sends_the_buffer(seq![msg.spec_byte()], asked, Ok(()));
    write_receives_nothing(seq![msg.spec_byte()], asked, Ok(()));
    frame_as_it_arrived(answered, body);
    sent_bytes_compose(asked, answered);
    received_bytes_compose(asked, answered);
    assert(asked + answered =~= run);
    assert(sent_bytes(run) =~= seq![msg.spec_byte()]);
    assert(received_bytes(run) =~= frame_header(body) + body);
}

/// The start of a test puts its two messages on the wire, in order.
pub proof fn start_on_the_wire(first: Message, second: Message, run: Seq<SocketEvent>)
    requires
        two_messages_run(first, second, run, Ok(())),
    ensures
        sent_bytes(run) == seq![first.spec_byte(), second.spec_byte()],
        received_bytes(run) == Seq::<u8>::empty(),
{
    let k = choose|k: int|
        0 <= k <= run.len() && two_messages_parts(
            first,
            second,
            #[trigger] run.take(k),
            run.skip(k),
            Ok(()),
        );
    let a = run.take(k);
    let b = run.skip(k);
    write_sends_the_buffer(seq![first.spec_byte()], a, Ok(()));
    write_receives_nothing(seq![first.spec_byte()], a, Ok(()));
    write_sends_the_buffer(seq![second.spec_byte()], b, Ok(()));
    write_receives_nothing(seq![second.spec_byte()], b, Ok(()));
    sent_bytes_compose(a, b);
    received_bytes_compose(a, b);
    assert(a + b =~= run);
    assert(sent_bytes(run) =~= seq![first.spec_byte(), second.spec_byte()]);
    assert(received_bytes(run) =~= Seq::<u8>::empty());
}

/// Passing messages over sends nothing.
proof fn passing_over_sends_nothing(run: Seq<SocketEvent>, awaited: Message)
    requires
        passed_over(run, awaited),
    ensures
        sent_bytes(run) == Seq::<u8>::empty(),
    decreases run.len(),
{
    if run.len() > 0 {
        let head = run.drop_last();
        assert forall|i: int| 0 <= i < head.len() implies is_other_message(
            #[trigger] head[i],
            awaited,
        ) by {
            assert(is_other_message(run[i], awaited));
        }
        passing_over_sends_nothing(head, awaited);
        assert(is_other_message(run[run.len() - 1], awaited));
        let m = choose|m: Message| m != awaited && #[trigger] control_run(seq![run.last()], Ok(m));
        message_as_it_arrived(seq![run.last()], m);
        sent_bytes_compose(head, seq![run.last()]);
        assert(head + seq![run.last()] =~= run);
        assert(sent_bytes(run) =~= Seq::<u8>::empty());
    }
}

/// A wait that succeeds ends with the byte of the awaited message, and sends
/// nothing.
pub proof fn wait_on_the_wire(run: Seq<SocketEvent>, awaited: Message)
    requires
        wait_run(run, awaited, Ok(())),
    ensures
        sent_bytes(run) == Seq::<u8>::empty(),
        received_bytes(run).len() > 0,
        received_bytes(run).last() == awaited.spec_byte(),
{
    let head = run.drop_last();
    passing_over_sends_nothing(head, awaited);
    message_as_it_arrived(seq![run.last()], awaited);
    sent_bytes_compose(head, seq![run.last()]);
    received_bytes_compose(head, seq![run.last()]);
    assert(head + seq![run.last()] =~= run);
    assert(sent_bytes(run) =~= Seq::<u8>::empty());
}

/// A session ends with the server's word that results may be shown and the
/// client's that it is done.
pub proof fn farewell_on_the_wire(run: Seq<SocketEvent>)
    requires
        finalize_run(run, Ok(())),
    ensures
        sent_bytes(run) == seq![Message::DisplayResults.spec_byte()],
        received_bytes(run).len() > 0,
        received_bytes(run).last() == Message::IperfDone.spec_byte(),
{
    let k = choose|k: int|
        0 <= k <= run.len() && finalize_parts(#[trigger] run.take(k), run.skip(k), Ok(()));
    let told = run.take(k);
    let waited = run.skip(k);
    let word = seq![Message::DisplayResults.spec_byte()];
    write_sends_the_buffer(word, told, Ok(()));
    write_receives_nothing(word, told, Ok(()));
    wait_on_the_wire(waited, Message::IperfDone);
    sent_bytes_compose(told, waited);
    received_bytes_compose(told, waited);
    assert(told + waited =~= run);
    assert(sent_bytes(run) =~= word);
    assert(received_bytes(run) =~= received_bytes(waited));
}

// ---------------------------------------------------------------------
// Letting clients in.

/// The calls that turn a client away: it is told that access is denied.
pub open spec fn refuse_run(run: Seq<SocketEvent>) -> bool {
    exists|r: Result<(), IoError>| #[trigger]
        write_run(seq![Message::AccessDenied.spec_byte()], run, r)
}

/// Turns a client away.
pub fn refuse(control: &mut Protocol) -> (r: Result<(), IoError>)
    ensures
        extends(old(control).log(), final(control).log()),
        write_run(
            seq![Message::AccessDenied.spec_byte()],
            calls(old(control).log(), final(control).log()),
            r,
        ),
{
    send_control_byte(control, Message::AccessDenied)
}

/// Whether a client whose token was decided on, as `identity` says, may run
/// the test it asks for; and the reason if it may not.
pub open spec fn session_decision(
    identity: Result<(), String>,
    udp: bool,
    max_concurrent: u32,
    r: Result<(), String>,
) -> bool {
    match identity {
        Err(e) => r == Err::<(), String>(e),
        Ok(_) => if max_concurrent > 1 && udp {
            r is Err && r->Err_0@ == "UDP needs a server for one test at a time"@
        } else {
            r is Ok
        },
    }
}

/// Decides whether a client may run the test that it asks for. One that may
/// not is told that access is denied, and nothing else; one that may is told
/// nothing. The error is the reason.
pub fn admit_session(
    control: &mut Protocol,
    identity: Result<(), String>,
    opts: &ClientOptions,
    max_concurrent: u32,
) -> (r: Result<(), String>)
    ensures
        session_decision(identity, opts.udp, max_concurrent, r),
        extends(old(control).log(), final(control).log()),
        r is Ok ==> calls(old(control).log(), final(control).log()).len() == 0,
        r is Err ==> refuse_run(calls(old(control).log(), final(control).log())),
{
    let decision: Result<(), String> = match identity {
        Err(e) => Err(e),
        Ok(_) => {
            if transport_allowed(max_concurrent, opts.udp) {
                Ok(())
            } else {
                Err("UDP needs a server for one test at a time".to_owned())
            }
        },
    };
    if decision.is_err() {
        let told = refuse(control);
        proof {
            assert(write_run(
                seq![Message::AccessDenied.spec_byte()],
                calls(old(control).log(), control.log()),
                told,
            ));
        }
    }
    decision
}

} // verus!
