//! A client's data streams.

use vstd::prelude::*;
use vstd::string::StringExecFns;

use super::accounting::{account_from_the_start, account_of, Account, Delivery};
use super::binary64::{seconds_between, span_seconds, Double};
use super::error::{ErrorKind, IoError};
use super::format::{bitrate_text, bytes_text, fixed2, pad_left, pad_right, rate_over};
use super::format::{push_fixed2, push_padded_left, push_padded_right};
use super::interval::{IntervalReporter, IntervalSnapshot};
use super::pacing::{pace_lasts, rate_is_kept, sending_when_due_keeps_the_pace, TokenBucket};
use super::rounding::about_le;
use super::protocol::{moved_by, taken, Protocol, SocketEvent};
use super::test::ClientStreamReceipt;
use super::text::{decimal, to_decimal};
use super::time::{Duration, Instant, MAX_NANOS};
use super::timer::{all_shown, has_elapsed, readings, readings_after_push, Clock, Timer};
use super::udp_header::{header_of, header_reads_back, UdpHeader, UDP_HEADER_LEN};
use super::udp_session::{gaps_are_losses, seq_account, sequence_numbers_balance};
use super::wire::{calls, calls_after_push, extends, sent_bytes};

verus! {

/// Heading of the interval table.
pub const INTERVAL_HEADER: &'static str = "[ ID] Interval           Transfer     Bitrate";

/// The line between the interval rows and the summary rows.
pub const SUMMARY_SEPARATOR: &'static str = "- - - - - - - - - - - - - - - - - - - - - - - - -";

/// A data stream: the channel it sends on, once there is one.
pub struct Stream {
    pub protocol: Option<Protocol>,
}

impl Default for Stream {
    fn default() -> (s: Stream)
        ensures
            s.protocol is None,
    {
        Stream { protocol: None }
    }
}

/// The bytes of one write. Their values do not matter: only how many there
/// are is ever counted.
pub fn build_payload(len: usize) -> (payload: Vec<u8>)
    ensures
        payload@ == Seq::new(len as nat, |i: int| 1u8),
{
    let payload: Vec<u8> = vec![1u8; len];
    proof {
        assert(payload@ =~= Seq::new(len as nat, |i: int| 1u8));
    }
    payload
}

/// Whether the timer has been running for at least `duration`.
pub fn should_stop(timer: &Timer, duration: Duration) -> (b: bool)
    ensures
        exists|d: Duration| #[trigger] timer.shows(d) && b == (d.nanos >= duration.nanos),
        duration.nanos == 0 ==> b,
        duration.nanos > MAX_NANOS ==> !b,
{
    timer.is_elapsed(duration)
}

impl Stream {
    /// A stream without a channel.
    pub fn new() -> (s: Stream)
        ensures
            s.protocol is None,
    {
        Stream { protocol: None }
    }

    /// Offers bytes to the channel once; without a channel nothing is sent.
    pub fn send_data(&mut self, buf: &[u8]) -> (r: Result<usize, IoError>)
        ensures
            old(self).protocol is None ==> r == Ok::<usize, IoError>(0) && final(self).protocol
                is None,
            old(self).protocol matches Some(p) ==> {
                &&& final(self).protocol matches Some(q) && q.log()
                    == p.log().push(
                    SocketEvent::Send { data: buf@, taken: taken(r) },
                )
                &&& r matches Ok(n) ==> n <= buf@.len()
            },
    {
        match &mut self.protocol {
            Some(protocol) => protocol.send(buf),
            None => Ok(0),
        }
    }
}

// ---------------------------------------------------------------------
// Rows.

/// A row of the interval table, from `start` to `end` in seconds.
pub open spec fn row_text(stream_id: u32, start: Double, end: Double, n: u64) -> Seq<char> {
    seq!['['] + pad_left(decimal(stream_id as nat), 3) + "] "@ + pad_left(fixed2(start), 6)
        + seq!['-'] + pad_right(fixed2(end), 5) + " sec  "@ + pad_left(bytes_text(n), 10) + "  "@
        + pad_left(bitrate_text(rate_over(n, seconds_between(start, end))), 14)
}

/// Renders a row of the interval table:
/// `[  5]   0.00-1.00  sec  128.00 MBytes  1.07 Gbits/sec`.
pub fn format_interval_row(stream_id: u32, start: Double, end: Double, bytes: u64) -> (s: String)
    requires
        start.within(-1_000, 30),
        end.within(-1_000, 30),
    ensures
        s@ == row_text(stream_id, start, end, bytes),
{
    let id = to_decimal(stream_id as u128);
    let mut from = String::new();
    push_fixed2(&mut from, start);
    let mut to = String::new();
    push_fixed2(&mut to, end);
    let amount = super::format::bytes(bytes);
    let rate = super::format::bitrate(bytes, span_seconds(start, end));
    proof {
        assert(from@ =~= fixed2(start));
        assert(to@ =~= fixed2(end));
    }
    let mut s = String::new();
    s.push('[');
    push_padded_left(&mut s, id.as_str(), 3);
    s.append("] ");
    push_padded_left(&mut s, from.as_str(), 6);
    s.push('-');
    push_padded_right(&mut s, to.as_str(), 5);
    s.append(" sec  ");
    push_padded_left(&mut s, amount.as_str(), 10);
    s.append("  ");
    push_padded_left(&mut s, rate.as_str(), 14);
    proof {
        assert(s@ =~= row_text(stream_id, start, end, bytes));
    }
    s
}

/// Renders a row with the role of the side that it is about.
pub fn format_summary_row(stream_id: u32, start: Double, end: Double, bytes: u64, role: &str) -> (s:
    String)
    requires
        start.within(-1_000, 30),
        end.within(-1_000, 30),
    ensures
        s@ == row_text(stream_id, start, end, bytes) + "  "@ + role@,
{
    let mut s = format_interval_row(stream_id, start, end, bytes);
    s.append("  ");
    s.append(role);
    s
}

/// A row behind the title of its test, where the test has one.
pub open spec fn titled_text(title: Option<Seq<char>>, row: Seq<char>) -> Seq<char> {
    match title {
        Some(t) => t + ":  "@ + row,
        None => row,
    }
}

/// Puts the title of the test in front of a row.
pub fn titled(title: &Option<String>, row: &str) -> (s: String)
    ensures
        s@ == titled_text(
            match title {
                Some(t) => Some(t@),
                None => None,
            },
            row@,
        ),
{
    match title {
        Some(t) => {
            let mut s = t.as_str().to_owned();
            s.append(":  ");
            s.append(row);
            s
        },
        None => row.to_owned(),
    }
}

// ---------------------------------------------------------------------
// What the outcome of a send or receive means.

/// What a stream does with its socket.
#[derive(Debug, Clone, Copy, PartialEq, Eq, Structural)]
pub enum Transfer {
    TcpSend,
    TcpRecv,
    UdpSend,
    UdpRecv,
}

/// What to make of one call on the socket.
#[derive(Debug, Clone, Copy, PartialEq, Eq, Structural)]
pub enum Verdict {
    /// So many bytes moved.
    Count(u64),
    /// Nothing moved; try again.
    Again,
    /// The stream is over.
    Stop,
}

/// What to make of one call on the socket. Nothing received ends a TCP
/// stream, because the peer has closed; nothing sent, or an empty datagram,
/// ends none. A call that would have had to wait, or was cut short, is made
/// again where such a thing is expected; any other error ends the stream.
pub open spec fn verdict(t: Transfer, outcome: Result<usize, IoError>) -> Verdict {
    match outcome {
        Ok(n) => if n > 0 {
            Verdict::Count(n as u64)
        } else if t == Transfer::TcpRecv {
            Verdict::Stop
        } else {
            Verdict::Again
        },
        Err(e) => {
            let again = match t {
                Transfer::TcpSend => e.kind == ErrorKind::WouldBlock,
                Transfer::TcpRecv => e.kind == ErrorKind::Interrupted,
                Transfer::UdpSend => false,
                Transfer::UdpRecv => e.kind == ErrorKind::WouldBlock || e.kind
                    == ErrorKind::TimedOut,
            };
            if again {
                Verdict::Again
            } else {
                Verdict::Stop
            }
        },
    }
}

/// What to make of one call on the socket.
pub fn judge(t: Transfer, outcome: &Result<usize, IoError>) -> (v: Verdict)
    ensures
        v == verdict(t, *outcome),
{
    match outcome {
        Ok(n) => if *n > 0 {
            Verdict::Count(*n as u64)
        } else {
            match t {
                Transfer::TcpRecv => Verdict::Stop,
                _ => Verdict::Again,
            }
        },
        Err(e) => {
            let again = match t {
                Transfer::TcpSend => matches!(e.kind, ErrorKind::WouldBlock),
                Transfer::TcpRecv => matches!(e.kind, ErrorKind::Interrupted),
                Transfer::UdpSend => false,
                Transfer::UdpRecv => matches!(e.kind, ErrorKind::WouldBlock | ErrorKind::TimedOut),
            };
            if again {
                Verdict::Again
            } else {
                Verdict::Stop
            }
        },
    }
}

/// What a stream does next.
#[derive(Debug, Clone, Copy, PartialEq, Eq, Structural)]
pub enum StreamStep {
    /// Go on.
    Continue,
    /// Print a row and go on.
    Report(IntervalSnapshot),
    /// The stream is over.
    Stop,
}

/// The step that follows a snapshot, or none.
pub open spec fn step_of(given: Option<IntervalSnapshot>) -> StreamStep {
    match given {
        Some(s) => StreamStep::Report(s),
        None => StreamStep::Continue,
    }
}

/// Why a stretch of calls on a socket came to its end.
pub enum StreamPause {
    /// A row is to be printed, and the stream goes on.
    Report(IntervalSnapshot),
    /// The stream is over.
    Over,
    /// The stream is over, because of an error.
    Failed(IoError),
    /// The counts or the clock cannot take what the last call moved.
    Full,
    /// The stream is ahead of its rate: it is to pause, and goes on.
    Pause(Duration),
    /// The stream is ahead of its rate by more than a pause can be long.
    TooFarAhead,
    /// Nothing has come up; the stream goes on.
    Quiet,
}

/// What a sender does next.
#[derive(Debug, Clone, Copy, PartialEq, Eq, Structural)]
pub enum SendStep {
    /// Its time is over.
    Stop,
    /// It is ahead of its rate: pause, then ask again.
    Pause(Duration),
    /// Send.
    Send,
}

/// What a sender does at `now`, given whether its time is over.
pub open spec fn next_send(bucket: TokenBucket, over: bool, now: Instant) -> SendStep {
    if over {
        SendStep::Stop
    } else {
        match bucket.pause_at(now) {
            Some(n) => SendStep::Pause(Duration { nanos: n as u128 }),
            None => SendStep::Send,
        }
    }
}

fn decide_send(bucket: &TokenBucket, over: bool, now: Instant) -> (step: SendStep)
    requires
        over || bucket.can_wait(now),
    ensures
        step == next_send(*bucket, over, now),
        step matches SendStep::Pause(d) ==> bucket.pause_at(now) == Some(d.nanos as int),
{
    if over {
        return SendStep::Stop;
    }
    match bucket.wait(now) {
        Some(d) => SendStep::Pause(d),
        None => SendStep::Send,
    }
}

/// How many calls a stretch makes at most.
pub const STRETCH_CALLS: u64 = 0xffff_ffff_ffff_ffff;

/// How long an interval of the table is.
pub const INTERVAL_SECS: u64 = 1;

/// How long a stream runs: the omit window comes on top of the time of the
/// test.
pub fn stream_duration(time: u32, omit: u32) -> (d: Duration)
    requires
        time + omit <= u32::MAX,
    ensures
        d.nanos == (time + omit) * 1_000_000_000,
{
    Duration::from_secs((time + omit) as u64)
}

/// The call offers `payload` for sending.
pub open spec fn offers(call: SocketEvent, payload: Seq<u8>) -> bool {
    match call {
        SocketEvent::Send { data, taken } => data == payload && (taken matches Ok(n) ==> n
            <= data.len()),
        _ => false,
    }
}

/// All readings lie before the end of a span.
pub open spec fn all_before(times: Seq<Instant>, duration: Duration) -> bool {
    forall|i: int| 0 <= i < times.len() ==> (#[trigger] times[i]).nanos < duration.nanos
}

/// What a timer read in the course of a stretch of `n` calls: it was asked
/// before each call, and once more where the stretch ended between two. The
/// time was over by the last reading exactly where the stretch says so, and
/// by no other.
pub open spec fn runs_until(
    times: Seq<Instant>,
    n: nat,
    duration: Duration,
    pause: StreamPause,
) -> bool {
    match pause {
        StreamPause::Over => {
            &&& times.len() == n + 1
            &&& all_before(times.drop_last(), duration)
            &&& times.last().nanos >= duration.nanos
        },
        StreamPause::Pause(_) | StreamPause::TooFarAhead => times.len() == n + 1 && all_before(
            times,
            duration,
        ),
        _ => times.len() == n && all_before(times, duration),
    }
}

/// What one more call adds to the bytes that a run has sent.
proof fn sent_by_one_more(run: Seq<SocketEvent>, payload: Seq<u8>)
    requires
        run.len() > 0,
        offers(run.last(), payload),
    ensures
        sent_bytes(run).len() == sent_bytes(run.drop_last()).len() + (match run.last() {
            SocketEvent::Send { taken: Ok(n), .. } => n,
            _ => 0,
        }),
{
}

/// Keeps the books of a client's stream, and its pace where it sends.
pub struct StreamMeter {
    pub transfer: Transfer,
    pub receipt: ClientStreamReceipt,
    pub reporter: IntervalReporter,
    pub omit: Duration,
    pub bucket: TokenBucket,
}

impl StreamMeter {
    pub open spec fn wf(self) -> bool {
        &&& self.receipt.wf()
        &&& self.reporter.wf()
        &&& self.reporter.stream_id == self.receipt.stream_id
        &&& self.reporter.bytes_in_interval <= self.receipt.bytes_sent
        &&& self.bucket.bytes_sent == self.receipt.bytes_sent
    }

    /// The counts and the clock can take `n` bytes more at `now`.
    pub open spec fn has_room(self, n: int, now: Instant) -> bool {
        &&& self.receipt.bytes_sent + n <= u64::MAX
        &&& self.receipt.packets < u64::MAX
        &&& self.reporter.boundary_at(now) + self.reporter.interval.nanos <= u128::MAX
    }

    /// The books of a stream that starts at `start` and sends at most
    /// `bandwidth` bits per second; as fast as it can if that is zero.
    pub fn new(
        transfer: Transfer,
        stream_id: u32,
        omit: Duration,
        bandwidth: u64,
        start: Instant,
    ) -> (m: StreamMeter)
        ensures
            m.wf(),
            m.transfer == transfer,
            m.receipt == ClientStreamReceipt::spec_empty(stream_id),
            m.reporter.stream_id == stream_id,
            m.reporter.interval.nanos == INTERVAL_SECS * 1_000_000_000,
            m.reporter.origin is None,
            m.reporter.bytes_in_interval == 0,
            m.omit == omit,
            m.bucket == (TokenBucket { rate_bps: bandwidth, bytes_sent: 0, start }),
    {
        StreamMeter {
            transfer,
            receipt: ClientStreamReceipt::empty(stream_id),
            reporter: IntervalReporter::new(stream_id, Duration::from_secs(INTERVAL_SECS)),
            omit,
            bucket: TokenBucket::new(bandwidth, start),
        }
    }

    /// Whether the counts and the clock can take `n` bytes more at `now`.
    pub fn check_room(&self, n: usize, now: Instant) -> (b: bool)
        ensures
            b == self.has_room(n as int, now),
    {
        if self.receipt.bytes_sent > u64::MAX - n as u64 || self.receipt.packets == u64::MAX {
            return false;
        }
        let boundary: u128 = match self.reporter.next_boundary {
            Some(b) => b.nanos,
            None => {
                if now.nanos > u128::MAX - self.reporter.interval.nanos {
                    return false;
                }
                now.nanos + self.reporter.interval.nanos
            },
        };
        boundary <= u128::MAX - self.reporter.interval.nanos
    }

    /// The books after a call on the socket that came back at `now`, and what
    /// the stream does next.
    pub open spec fn notes(
        self,
        outcome: Result<usize, IoError>,
        now: Instant,
        after: StreamMeter,
        step: StreamStep,
    ) -> bool {
        &&& after.transfer == self.transfer
        &&& after.omit == self.omit
        &&& match verdict(self.transfer, outcome) {
            Verdict::Count(n) => {
                let given = match step {
                    StreamStep::Report(s) => Some(s),
                    _ => None,
                };
                let udp = self.transfer == Transfer::UdpSend || self.transfer == Transfer::UdpRecv;
                &&& step == step_of(given)
                &&& self.reporter.counts(n, now, after.reporter, given)
                &&& after.receipt.account() == self.receipt.account().after(
                    (Delivery { bytes: n as nat, at: now }),
                    self.omit,
                )
                &&& after.receipt.packets == self.receipt.packets + (if udp {
                    1int
                } else {
                    0int
                })
                &&& after.receipt.same_but_counts(self.receipt)
                &&& after.bucket == self.bucket.after(n)
            },
            Verdict::Again => after == self && step == StreamStep::Continue,
            Verdict::Stop => after == self && step == StreamStep::Stop,
        }
    }

    /// Takes note of one call on the socket, which came back at `now`.
    pub fn on_outcome(&mut self, outcome: &Result<usize, IoError>, now: Instant) -> (step: StreamStep)
        requires
            old(self).wf(),
            outcome matches Ok(n) ==> old(self).has_room(*n as int, now),
        ensures
            final(self).wf(),
            old(self).notes(*outcome, now, *final(self), step),
    {
        match judge(self.transfer, outcome) {
            Verdict::Count(n) => {
                self.bucket.record(n);
                self.receipt.record(n, now, self.omit);
                match self.transfer {
                    Transfer::UdpSend | Transfer::UdpRecv => {
                        self.receipt.packets = self.receipt.packets + 1;
                    },
                    _ => {},
                }
                match self.reporter.on_bytes(n, now) {
                    Some(s) => StreamStep::Report(s),
                    None => StreamStep::Continue,
                }
            },
            Verdict::Again => StreamStep::Continue,
            Verdict::Stop => StreamStep::Stop,
        }
    }

    /// Calls that all offer `payload`, and after which the stream goes on with
    /// nothing to print. The clock was read twice for each: it was made when
    /// the stream was not ahead of its rate by the first reading, and noted
    /// with the second.
    pub open spec fn sends_quietly(
        self,
        payload: Seq<u8>,
        run: Seq<SocketEvent>,
        times: Seq<Instant>,
        after: StreamMeter,
    ) -> bool
        decreases run.len(),
    {
        if run.len() == 0 {
            times.len() == 0 && after == self
        } else {
            &&& times.len() == 2 * run.len()
            &&& offers(run.last(), payload)
            &&& exists|mid: StreamMeter|
                {
                    &&& self.sends_quietly(
                        payload,
                        run.drop_last(),
                        times.take(times.len() - 2),
                        mid,
                    )
                    &&& #[trigger] mid.pauses_at(
                        run.last(),
                        times[times.len() - 2],
                        times.last(),
                        after,
                        StreamPause::Quiet,
                    )
                }
        }
    }

    /// A call that is made at `at`, when the stream is not ahead of its rate,
    /// and comes back at `now`; and what comes of it.
    pub open spec fn pauses_at(
        self,
        call: SocketEvent,
        at: Instant,
        now: Instant,
        after: StreamMeter,
        pause: StreamPause,
    ) -> bool {
        &&& self.bucket.pause_at(at) is None
        &&& match pause {
            StreamPause::Report(s) => self.notes(
                moved_by(call),
                now,
                after,
                StreamStep::Report(s),
            ),
            StreamPause::Failed(e) => moved_by(call) == Err::<usize, IoError>(e) && self.notes(
                moved_by(call),
                now,
                after,
                StreamStep::Stop,
            ),
            StreamPause::Full => {
                &&& after == self
                &&& moved_by(call) matches Ok(n) && !self.has_room(n as int, now)
            },
            StreamPause::Quiet => self.notes(moved_by(call), now, after, StreamStep::Continue),
            _ => false,
        }
    }

    /// A stretch of calls that offer `payload`, with the readings of the clock
    /// meanwhile: it ends between two calls when the time is over or the stream
    /// is ahead of its rate by the last reading, and else with the first call
    /// after which there is something to tell.
    pub open spec fn send_stretch(
        self,
        payload: Seq<u8>,
        run: Seq<SocketEvent>,
        times: Seq<Instant>,
        after: StreamMeter,
        pause: StreamPause,
    ) -> bool {
        match pause {
            StreamPause::Over => self.sends_quietly(payload, run, times, after),
            StreamPause::Quiet => run.len() == STRETCH_CALLS && self.sends_quietly(
                payload,
                run,
                times,
                after,
            ),
            StreamPause::Pause(d) => {
                &&& times.len() > 0
                &&& self.sends_quietly(payload, run, times.drop_last(), after)
                &&& after.bucket.pause_at(times.last()) == Some(d.nanos as int)
            },
            StreamPause::TooFarAhead => {
                &&& times.len() > 0
                &&& self.sends_quietly(payload, run, times.drop_last(), after)
                &&& !after.bucket.can_wait(times.last())
            },
            _ => {
                &&& run.len() > 0
                &&& times.len() == 2 * run.len()
                &&& offers(run.last(), payload)
                &&& exists|mid: StreamMeter|
                    {
                        &&& self.sends_quietly(
                            payload,
                            run.drop_last(),
                            times.take(times.len() - 2),
                            mid,
                        )
                        &&& #[trigger] mid.pauses_at(
                            run.last(),
                            times[times.len() - 2],
                            times.last(),
                            after,
                            pause,
                        )
                    }
            },
        }
    }

    /// What to do at `now`, given whether the time of the stream is over.
    pub fn next_step(&self, over: bool, now: Instant) -> (step: SendStep)
        requires
            over || self.bucket.can_wait(now),
        ensures
            step == next_send(self.bucket, over, now),
            step matches SendStep::Pause(d) ==> self.bucket.pause_at(now) == Some(d.nanos as int),
    {
        decide_send(&self.bucket, over, now)
    }

    /// Sends `payload` once, and takes note of it when the call has come back;
    /// or nothing, where the time is over or the stream is ahead of its rate
    /// at `at`.
    pub fn send_once(
        &mut self,
        protocol: &mut Protocol,
        payload: &[u8],
        over: bool,
        at: Instant,
        clock: &mut Clock,
    ) -> (pause: StreamPause)
        requires
            old(self).wf(),
            old(self).transfer == Transfer::TcpSend,
            over || old(self).bucket.can_wait(at),
        ensures
            final(self).wf(),
            final(clock).stopwatch() == old(clock).stopwatch(),
            match next_send(old(self).bucket, over, at) {
                SendStep::Stop => {
                    &&& pause is Over
                    &&& *final(self) == *old(self)
                    &&& final(protocol).log() == old(protocol).log()
                    &&& final(clock).log() == old(clock).log()
                },
                SendStep::Pause(d) => {
                    &&& pause == StreamPause::Pause(d)
                    &&& old(self).bucket.pause_at(at) == Some(d.nanos as int)
                    &&& *final(self) == *old(self)
                    &&& final(protocol).log() == old(protocol).log()
                    &&& final(clock).log() == old(clock).log()
                },
                SendStep::Send => {
                    let log = final(protocol).log();
                    &&& log.len() == old(protocol).log().len() + 1
                    &&& log.drop_last() == old(protocol).log()
                    &&& offers(log.last(), payload@)
                    &&& final(clock).log().len() == old(clock).log().len() + 1
                    &&& final(clock).log().drop_last() == old(clock).log()
                    &&& old(clock).stopwatch().shows(
                        (Duration { nanos: final(clock).log().last().nanos }),
                    )
                    &&& old(self).pauses_at(
                        log.last(),
                        at,
                        final(clock).log().last(),
                        *final(self),
                        pause,
                    )
                },
            },
    {
        match self.next_step(over, at) {
            SendStep::Stop => {
                return StreamPause::Over;
            },
            SendStep::Pause(d) => {
                return StreamPause::Pause(d);
            },
            SendStep::Send => {},
        }
        let ghost before = protocol.log();
        let outcome = protocol.send(payload);
        let now = clock.read();
        let ghost call = protocol.log().last();
        proof {
            assert(protocol.log().drop_last() =~= before);
            assert(clock.log().drop_last() =~= old(clock).log());
            assert(moved_by(call) == outcome);
        }
        let full = match &outcome {
            Ok(n) => !self.check_room(*n, now),
            Err(_) => false,
        };
        let pause = if full {
            StreamPause::Full
        } else {
            match self.on_outcome(&outcome, now) {
                StreamStep::Continue => StreamPause::Quiet,
                StreamStep::Report(s) => StreamPause::Report(s),
                StreamStep::Stop => match outcome {
                    Ok(_) => StreamPause::Over,
                    Err(e) => StreamPause::Failed(e),
                },
            }
        };
        proof {
            assert(old(self).pauses_at(call, at, now, *self, pause));
        }
        pause
    }

    /// Sends `payload` over and over, until the timer has run for `duration`,
    /// the stream is ahead of its rate, an error ends it, or a row is to be
    /// printed. Before each write the timer is asked whether the time is over,
    /// and the clock whether the stream is ahead; the write is noted with what
    /// the clock reads when it has come back. What the channel took is what
    /// the receipt counts.
    pub fn send_bytes(
        &mut self,
        protocol: &mut Protocol,
        payload: &[u8],
        timer: &mut Clock,
        duration: Duration,
        clock: &mut Clock,
    ) -> (pause: StreamPause)
        requires
            old(self).wf(),
            old(self).transfer == Transfer::TcpSend,
        ensures
            final(self).wf(),
            extends(old(protocol).log(), final(protocol).log()),
            final(timer).stopwatch() == old(timer).stopwatch(),
            final(clock).stopwatch() == old(clock).stopwatch(),
            old(timer).log().is_prefix_of(final(timer).log()),
            old(clock).log().is_prefix_of(final(clock).log()),
            all_shown(
                old(timer).stopwatch(),
                readings(old(timer).log(), final(timer).log()),
            ),
            all_shown(
                old(clock).stopwatch(),
                readings(old(clock).log(), final(clock).log()),
            ),
            old(self).send_stretch(
                payload@,
                calls(old(protocol).log(), final(protocol).log()),
                readings(old(clock).log(), final(clock).log()),
                *final(self),
                pause,
            ),
            runs_until(
                readings(old(timer).log(), final(timer).log()),
                calls(old(protocol).log(), final(protocol).log()).len(),
                duration,
                pause,
            ),
            !(pause is Full) ==> final(self).receipt.bytes_sent == old(self).receipt.bytes_sent
                + sent_bytes(calls(old(protocol).log(), final(protocol).log())).len(),
    {
        let ghost start = *self;
        let ghost before = protocol.log();
        let ghost timer0 = timer.log();
        let ghost clock0 = clock.log();
        let mut left: u64 = STRETCH_CALLS;
        proof {
            assert(calls(before, protocol.log()) =~= Seq::<SocketEvent>::empty());
            assert(readings(timer0, timer.log()) =~= Seq::<Instant>::empty());
            assert(readings(clock0, clock.log()) =~= Seq::<Instant>::empty());
        }
        while left > 0
            invariant
                self.wf(),
                start == *old(self),
                start.transfer == Transfer::TcpSend,
                self.transfer == Transfer::TcpSend,
                before == old(protocol).log(),
                timer0 == old(timer).log(),
                clock0 == old(clock).log(),
                extends(before, protocol.log()),
                timer0.is_prefix_of(timer.log()),
                clock0.is_prefix_of(clock.log()),
                timer.stopwatch() == old(timer).stopwatch(),
                clock.stopwatch() == old(clock).stopwatch(),
                all_shown(timer.stopwatch(), readings(timer0, timer.log())),
                all_shown(clock.stopwatch(), readings(clock0, clock.log())),
                calls(before, protocol.log()).len() == STRETCH_CALLS - left,
                start.sends_quietly(
                    payload@,
                    calls(before, protocol.log()),
                    readings(clock0, clock.log()),
                    *self,
                ),
                readings(timer0, timer.log()).len() == STRETCH_CALLS - left,
                all_before(readings(timer0, timer.log()), duration),
                self.receipt.bytes_sent == start.receipt.bytes_sent + sent_bytes(
                    calls(before, protocol.log()),
                ).len(),
            decreases left,
        {
            let ghost mid = *self;
            let ghost log = protocol.log();
            let ghost timer1 = timer.log();
            let ghost clock1 = clock.log();
            let elapsed = timer.read();
            let over = has_elapsed(Duration { nanos: elapsed.nanos }, duration);
            proof {
                readings_after_push(timer0, timer1, elapsed);
                let seen = readings(timer0, timer.log());
                assert(seen.drop_last() =~= readings(timer0, timer1));
                assert(!over ==> all_before(seen, duration));
            }
            if over {
                return StreamPause::Over;
            }
            let at = clock.read();
            let ghost clock2 = clock.log();
            proof {
                readings_after_push(clock0, clock1, at);
                assert(readings(clock0, clock2).drop_last() =~= readings(clock0, clock1));
            }
            if !self.bucket.check_wait(at) {
                return StreamPause::TooFarAhead;
            }
            let pause = self.send_once(protocol, payload, false, at, clock);
            match pause {
                StreamPause::Pause(d) => {
                    return StreamPause::Pause(d);
                },
                _ => {},
            }
            proof {
                calls_after_push(before, log, protocol.log());
                let run = calls(before, protocol.log());
                sent_by_one_more(run, payload@);
                assert(payload@.len() == payload.len());
                let now = clock.log().last();
                assert(clock.log() =~= clock2.push(now));
                readings_after_push(clock0, clock2, now);
                let times = readings(clock0, clock.log());
                assert(times.take(times.len() - 2) =~= readings(clock0, clock1));
                assert(times[times.len() - 2] == at);
                assert(mid.pauses_at(
                    run.last(),
                    times[times.len() - 2],
                    times.last(),
                    *self,
                    pause,
                ));
            }
            match pause {
                StreamPause::Quiet => {
                    left = left - 1;
                },
                _ => {
                    return pause;
                },
            }
        }
        StreamPause::Quiet
    }

    /// The row that is still to print at the end, if any bytes are left for
    /// it.
    pub open spec fn last_row(self) -> Option<IntervalSnapshot> {
        match self.receipt.last_send_at {
            Some(t) => match self.reporter.last_snapshot(t) {
                Some(s) => if s.bytes > 0 {
                    Some(s)
                } else {
                    None
                },
                None => None,
            },
            None => None,
        }
    }

    /// Closes the books: the receipt, with the retransmissions that the
    /// platform counted, and the row that is still to print.
    pub fn finish(self, retransmits: Option<u32>) -> (r: (
        ClientStreamReceipt,
        Option<IntervalSnapshot>,
    ))
        requires
            self.wf(),
        ensures
            r.0 == (ClientStreamReceipt {
                retransmits: match retransmits {
                    Some(n) => n,
                    None => 0,
                },
                ..self.receipt
            }),
            r.1 == self.last_row(),
    {
        let mut meter = self;
        let row = match meter.receipt.last_send_at {
            Some(t) => match meter.reporter.flush(t) {
                Some(s) => if s.bytes > 0 {
                    Some(s)
                } else {
                    None
                },
                None => None,
            },
            None => None,
        };
        meter.receipt.retransmits = match retransmits {
            Some(n) => n,
            None => 0,
        };
        (meter.receipt, row)
    }
}

/// What moved in a run of calls, each with the point in time at which it had
/// come back.
pub open spec fn deliveries(run: Seq<SocketEvent>, ends: Seq<Instant>) -> Seq<Delivery>
    decreases run.len(),
{
    if run.len() == 0 {
        Seq::empty()
    } else {
        let rest = deliveries(run.drop_last(), ends.drop_last());
        match moved_by(run.last()) {
            Ok(n) => if n > 0 {
                rest.push(Delivery { bytes: n as nat, at: ends.last() })
            } else {
                rest
            },
            Err(_) => rest,
        }
    }
}

/// Of the two readings that belong to each call, those at which it had come
/// back.
pub open spec fn ends_of(times: Seq<Instant>) -> Seq<Instant> {
    Seq::new((times.len() / 2) as nat, |i: int| times[2 * i + 1])
}

proof fn quiet_sends_add_up(
    before: StreamMeter,
    payload: Seq<u8>,
    run: Seq<SocketEvent>,
    times: Seq<Instant>,
    after: StreamMeter,
)
    requires
        before.sends_quietly(payload, run, times, after),
    ensures
        times.len() == 2 * run.len(),
        after.omit == before.omit,
        after.receipt.account() == before.receipt.account().after_all(
            deliveries(run, ends_of(times)),
            before.omit,
        ),
    decreases run.len(),
{
    if run.len() > 0 {
        let head = times.take(times.len() - 2);
        let at = times[times.len() - 2];
        let now = times.last();
        let mid = choose|mid: StreamMeter|
            {
                &&& before.sends_quietly(payload, run.drop_last(), head, mid)
                &&& #[trigger] mid.pauses_at(run.last(), at, now, after, StreamPause::Quiet)
            };
        quiet_sends_add_up(before, payload, run.drop_last(), head, mid);
        one_send_adds_up(before, run, times, at, mid, after, StreamPause::Quiet);
    }
}

/// What one more call does to the account.
proof fn one_send_adds_up(
    before: StreamMeter,
    run: Seq<SocketEvent>,
    times: Seq<Instant>,
    at: Instant,
    mid: StreamMeter,
    after: StreamMeter,
    pause: StreamPause,
)
    requires
        run.len() > 0,
        times.len() == 2 * run.len(),
        mid.omit == before.omit,
        mid.receipt.account() == before.receipt.account().after_all(
            deliveries(run.drop_last(), ends_of(times.take(times.len() - 2))),
            before.omit,
        ),
        mid.pauses_at(run.last(), at, times.last(), after, pause),
        !(pause is Full),
    ensures
        after.omit == before.omit,
        after.receipt.account() == before.receipt.account().after_all(
            deliveries(run, ends_of(times)),
            before.omit,
        ),
{
    let moved = deliveries(run.drop_last(), ends_of(times.take(times.len() - 2)));
    assert(ends_of(times).drop_last() =~= ends_of(times.take(times.len() - 2)));
    assert(ends_of(times).last() == times.last());
    match moved_by(run.last()) {
        Ok(n) => {
            let d = Delivery { bytes: n as nat, at: times.last() };
            before.receipt.account().after_all_and_one(moved, d, before.omit);
        },
        Err(_) => {},
    }
}

/// A stream's receipt is the account of what its channel took, each write at
/// the point in time at which it had come back.
pub proof fn sends_make_up_the_account(
    before: StreamMeter,
    payload: Seq<u8>,
    run: Seq<SocketEvent>,
    times: Seq<Instant>,
    after: StreamMeter,
    pause: StreamPause,
)
    requires
        before.send_stretch(payload, run, times, after, pause),
        !(pause is Full),
    ensures
        after.receipt.account() == before.receipt.account().after_all(
            deliveries(run, ends_of(times)),
            before.omit,
        ),
        before.receipt.account() == Account::empty() ==> after.receipt.account() == account_of(
            deliveries(run, ends_of(times)),
            before.omit,
        ),
{
    match pause {
        StreamPause::Over | StreamPause::Quiet => {
            quiet_sends_add_up(before, payload, run, times, after);
        },
        StreamPause::Pause(_) | StreamPause::TooFarAhead => {
            quiet_sends_add_up(before, payload, run, times.drop_last(), after);
            assert(ends_of(times) =~= ends_of(times.drop_last()));
        },
        _ => {
            let head = times.take(times.len() - 2);
            let at = times[times.len() - 2];
            let mid = choose|mid: StreamMeter|
                {
                    &&& before.sends_quietly(payload, run.drop_last(), head, mid)
                    &&& #[trigger] mid.pauses_at(run.last(), at, times.last(), after, pause)
                };
            quiet_sends_add_up(before, payload, run.drop_last(), head, mid);
            one_send_adds_up(before, run, times, at, mid, after, pause);
        },
    }
    account_from_the_start(deliveries(run, ends_of(times)), before.omit);
}

/// No reading lies after `now`.
pub open spec fn all_until(times: Seq<Instant>, now: Instant) -> bool {
    forall|i: int| 0 <= i < times.len() ==> (#[trigger] times[i]).nanos <= now.nanos
}

/// A call that is made when the stream is not ahead keeps its pace: what it
/// adds is no more than one payload.
proof fn one_send_keeps_the_pace(
    mid: StreamMeter,
    payload: Seq<u8>,
    call: SocketEvent,
    at: Instant,
    end: Instant,
    after: StreamMeter,
    pause: StreamPause,
    now: Instant,
)
    requires
        offers(call, payload),
        payload.len() <= usize::MAX,
        mid.pauses_at(call, at, end, after, pause),
        mid.bucket.keeps_pace(payload.len(), now),
        mid.bucket.bytes_sent == mid.receipt.bytes_sent,
        at.nanos <= now.nanos,
    ensures
        after.bucket.bytes_sent == after.receipt.bytes_sent,
        after.bucket.rate_bps == mid.bucket.rate_bps,
        after.bucket.start == mid.bucket.start,
        after.bucket.keeps_pace(payload.len(), now),
{
    assert(after.receipt.account().bytes == after.receipt.bytes_sent);
    match moved_by(call) {
        Ok(n) => {
            if n > 0 && !(pause is Full) {
                sending_when_due_keeps_the_pace(mid.bucket, at, n as u64);
                pace_lasts(after.bucket, n as nat, at, payload.len(), now);
            }
        },
        Err(_) => {},
    }
}

proof fn quiet_sends_keep_the_pace(
    before: StreamMeter,
    payload: Seq<u8>,
    run: Seq<SocketEvent>,
    times: Seq<Instant>,
    after: StreamMeter,
    now: Instant,
)
    requires
        before.sends_quietly(payload, run, times, after),
        payload.len() <= usize::MAX,
        before.bucket.keeps_pace(payload.len(), now),
        before.bucket.bytes_sent == before.receipt.bytes_sent,
        all_until(times, now),
    ensures
        after.bucket.bytes_sent == after.receipt.bytes_sent,
        after.bucket.rate_bps == before.bucket.rate_bps,
        after.bucket.start == before.bucket.start,
        after.bucket.keeps_pace(payload.len(), now),
    decreases run.len(),
{
    if run.len() > 0 {
        let head = times.take(times.len() - 2);
        let at = times[times.len() - 2];
        let end = times.last();
        let mid = choose|mid: StreamMeter|
            {
                &&& before.sends_quietly(payload, run.drop_last(), head, mid)
                &&& #[trigger] mid.pauses_at(run.last(), at, end, after, StreamPause::Quiet)
            };
        assert forall|i: int| 0 <= i < head.len() implies (#[trigger] head[i]).nanos
            <= now.nanos by {
            assert(times[i].nanos <= now.nanos);
        }
        quiet_sends_keep_the_pace(before, payload, run.drop_last(), head, mid, now);
        one_send_keeps_the_pace(
            mid,
            payload,
            run.last(),
            at,
            end,
            after,
            StreamPause::Quiet,
            now,
        );
    }
}

/// A stream that sends at a given rate keeps to it, one stretch after the
/// other: at any point in time that no reading of the clock lies after, what
/// it has sent, but for one write, is within what the rate allows for the
/// time since its start, but for the rounding of doubles.
pub proof fn streams_keep_to_their_rate(
    before: StreamMeter,
    payload: Seq<u8>,
    run: Seq<SocketEvent>,
    times: Seq<Instant>,
    after: StreamMeter,
    pause: StreamPause,
    now: Instant,
)
    requires
        before.send_stretch(payload, run, times, after, pause),
        payload.len() <= usize::MAX,
        before.bucket.keeps_pace(payload.len(), now),
        before.bucket.bytes_sent == before.receipt.bytes_sent,
        all_until(times, now),
    ensures
        after.bucket.bytes_sent == after.receipt.bytes_sent,
        after.bucket.rate_bps == before.bucket.rate_bps,
        after.bucket.start == before.bucket.start,
        after.bucket.keeps_pace(payload.len(), now),
        after.bucket.rate_bps > 0 ==> about_le(
            (after.receipt.bytes_sent - payload.len()) * 8_000_000_000,
            after.bucket.rate_bps * now.nanos_since(after.bucket.start),
            21,
        ),
{
    match pause {
        StreamPause::Over | StreamPause::Quiet => {
            quiet_sends_keep_the_pace(before, payload, run, times, after, now);
        },
        StreamPause::Pause(_) | StreamPause::TooFarAhead => {
            let head = times.drop_last();
            assert forall|i: int| 0 <= i < head.len() implies (#[trigger] head[i]).nanos
                <= now.nanos by {
                assert(times[i].nanos <= now.nanos);
            }
            quiet_sends_keep_the_pace(before, payload, run, head, after, now);
        },
        _ => {
            let head = times.take(times.len() - 2);
            let at = times[times.len() - 2];
            let end = times.last();
            let mid = choose|mid: StreamMeter|
                {
                    &&& before.sends_quietly(payload, run.drop_last(), head, mid)
                    &&& #[trigger] mid.pauses_at(run.last(), at, end, after, pause)
                };
            assert forall|i: int| 0 <= i < head.len() implies (#[trigger] head[i]).nanos
                <= now.nanos by {
                assert(times[i].nanos <= now.nanos);
            }
            quiet_sends_keep_the_pace(before, payload, run.drop_last(), head, mid, now);
            one_send_keeps_the_pace(mid, payload, run.last(), at, end, after, pause, now);
        },
    }
    if after.bucket.rate_bps > 0 {
        rate_is_kept(after.bucket, payload.len(), now);
    }
}

/// One call on the socket that moved bytes, with the meter before and after.
pub struct MeterStep {
    pub before: StreamMeter,
    pub n: u64,
    pub now: Instant,
    pub after: StreamMeter,
    pub given: Option<IntervalSnapshot>,
}

impl MeterStep {
    /// The call is one that `on_outcome` counted.
    pub open spec fn holds(self) -> bool {
        &&& self.before.wf()
        &&& self.before.reporter.counts(self.n, self.now, self.after.reporter, self.given)
        &&& self.after.receipt.account() == self.before.receipt.account().after(
            (Delivery { bytes: self.n as nat, at: self.now }),
            self.before.omit,
        )
    }

    /// The bytes of the row that the call gave.
    pub open spec fn row_bytes(self) -> int {
        match self.given {
            Some(s) => s.bytes as int,
            None => 0,
        }
    }
}

/// The call at `i` begins where the one before it ended.
pub open spec fn follows_on(run: Seq<MeterStep>, i: int) -> bool {
    run[i].before == run[i - 1].after
}

/// The calls of a run follow on each other, from a new meter.
pub open spec fn is_metered(run: Seq<MeterStep>) -> bool {
    &&& forall|i: int| 0 <= i < run.len() ==> (#[trigger] run[i]).holds()
    &&& forall|i: int| 0 < i < run.len() ==> #[trigger] follows_on(run, i)
    &&& run.len() > 0 ==> run[0].before.receipt.bytes_sent == 0
}

/// All bytes of the rows that a run gave.
pub open spec fn rows_total(run: Seq<MeterStep>) -> int
    decreases run.len(),
{
    if run.len() == 0 {
        0
    } else {
        rows_total(run.drop_last()) + run.last().row_bytes()
    }
}

/// The rows of a stream add up to its receipt: what the rows report, with the
/// last one that is printed at the end, is what the receipt says was moved.
pub proof fn rows_add_up_to_the_receipt(run: Seq<MeterStep>)
    requires
        is_metered(run),
        run.len() > 0,
    ensures
        rows_total(run) + run.last().after.reporter.bytes_in_interval
            == run.last().after.receipt.bytes_sent,
        run.last().after.last_row() matches Some(s) ==> s.bytes
            == run.last().after.reporter.bytes_in_interval,
        run.last().after.last_row() is None ==> run.last().after.reporter.bytes_in_interval == 0,
    decreases run.len(),
{
    let head = run.drop_last();
    let step = run.last();
    assert(run[run.len() - 1].holds());
    step_conserves_bytes(step);
    if head.len() > 0 {
        assert forall|i: int| 0 <= i < head.len() implies (#[trigger] head[i]).holds() by {
            assert(run[i].holds());
        }
        assert forall|i: int| 0 < i < head.len() implies #[trigger] follows_on(head, i) by {
            assert(follows_on(run, i));
        }
        rows_add_up_to_the_receipt(head);
        assert(follows_on(run, run.len() - 1));
    } else {
        assert(rows_total(head) == 0);
        assert(step == run[0]);
    }
}

/// A single call: the bytes go to the row that it gave or stay in the running
/// count, and what stays is what the last row would tell.
proof fn step_conserves_bytes(step: MeterStep)
    requires
        step.holds(),
    ensures
        step.after.receipt.bytes_sent == step.before.receipt.bytes_sent + step.n,
        step.row_bytes() + step.after.reporter.bytes_in_interval
            == step.before.reporter.bytes_in_interval + step.n,
        step.after.last_row() matches Some(s) ==> s.bytes == step.after.reporter.bytes_in_interval,
        step.after.last_row() is None ==> step.after.reporter.bytes_in_interval == 0,
        step.before.receipt.bytes_sent == 0 ==> step.before.reporter.bytes_in_interval == 0,
{
    assert(step.after.receipt.account().bytes == step.before.receipt.account().bytes + step.n);
    assert(step.after.receipt.account().last == Some(step.now));
}

// ---------------------------------------------------------------------
// Sending datagrams.

/// A UDP stream of a client: its books, its pace, and the datagram that it
/// sends over and over with a new header.
pub struct UdpSender {
    pub receipt: ClientStreamReceipt,
    pub bucket: TokenBucket,
    pub seq: i64,
    pub omit: Duration,
    pub packet: Vec<u8>,
}

/// The header of the next datagram, by the wall clock.
pub open spec fn stamped(secs: u64, micros: u32, seq: i64) -> UdpHeader {
    UdpHeader { tv_sec: (secs % 0x1_0000_0000) as u32, tv_usec: micros, seq }
}

impl UdpSender {
    /// Datagrams are numbered from zero, and the packet holds a header.
    pub open spec fn wf(self) -> bool {
        &&& self.receipt.wf()
        &&& self.seq >= 0
        &&& self.receipt.packets == self.seq
        &&& self.packet@.len() >= UDP_HEADER_LEN
    }

    /// The counts can take a datagram of `n` bytes more.
    pub open spec fn has_room(self, n: int) -> bool {
        &&& self.receipt.bytes_sent + n <= u64::MAX
        &&& self.seq < i64::MAX
    }

    /// A stream of datagrams of `len` bytes; nothing where those cannot hold
    /// a header.
    pub fn new(
        stream_id: u32,
        len: usize,
        bandwidth: u64,
        omit: Duration,
        start: Instant,
    ) -> (r: Option<UdpSender>)
        ensures
            r is Some <==> len >= UDP_HEADER_LEN,
            r matches Some(s) ==> {
                &&& s.wf()
                &&& s.receipt == ClientStreamReceipt::spec_empty(stream_id)
                &&& s.bucket.rate_bps == bandwidth
                &&& s.bucket.bytes_sent == 0
                &&& s.bucket.start == start
                &&& s.seq == 0
                &&& s.omit == omit
                &&& s.packet@ == Seq::new(len as nat, |i: int| 1u8)
            },
    {
        if len < UDP_HEADER_LEN {
            return None;
        }
        Some(
            UdpSender {
                receipt: ClientStreamReceipt::empty(stream_id),
                bucket: TokenBucket::new(bandwidth, start),
                seq: 0,
                omit,
                packet: build_payload(len),
            },
        )
    }

    /// What to do at `now`, given whether the time of the stream is over.
    pub fn next_step(&self, over: bool, now: Instant) -> (step: SendStep)
        requires
            over || self.bucket.can_wait(now),
        ensures
            step == next_send(self.bucket, over, now),
            step matches SendStep::Pause(d) ==> self.bucket.pause_at(now) == Some(d.nanos as int),
    {
        decide_send(&self.bucket, over, now)
    }

    /// Writes the header of the next datagram, given the wall clock.
    pub fn stamp(&mut self, secs: u64, micros: u32)
        requires
            old(self).wf(),
        ensures
            final(self).wf(),
            *final(self) == (UdpSender { packet: final(self).packet, ..*old(self) }),
            final(self).packet@ == stamped(secs, micros, old(self).seq).on_wire() + old(
                self,
            ).packet@.skip(UDP_HEADER_LEN as int),
    {
        let header = UdpHeader {
            tv_sec: (secs % 0x1_0000_0000) as u32,
            tv_usec: micros,
            seq: self.seq,
        };
        proof {
            header.on_wire_len();
        }
        let _ = header.encode(self.packet.as_mut_slice());
    }

    /// Takes note of a datagram that was offered for sending and came back at
    /// `now`. The result says whether the stream goes on.
    pub fn on_sent(&mut self, outcome: Result<usize, IoError>, now: Instant) -> (go_on: bool)
        requires
            old(self).wf(),
            outcome matches Ok(n) ==> old(self).has_room(n as int),
        ensures
            final(self).wf(),
            go_on == (verdict(Transfer::UdpSend, outcome) != Verdict::Stop),
            match verdict(Transfer::UdpSend, outcome) {
                Verdict::Count(n) => {
                    &&& final(self).receipt.account() == old(self).receipt.account().after(
                        (Delivery { bytes: n as nat, at: now }),
                        old(self).omit,
                    )
                    &&& final(self).receipt.packets == old(self).receipt.packets + 1
                    &&& final(self).receipt.same_but_counts(old(self).receipt)
                    &&& final(self).seq == old(self).seq + 1
                    &&& final(self).bucket == old(self).bucket.after(n)
                    &&& final(self).omit == old(self).omit
                    &&& final(self).packet == old(self).packet
                },
                _ => *final(self) == *old(self),
            },
    {
        match judge(Transfer::UdpSend, &outcome) {
            Verdict::Count(n) => {
                self.bucket.record(n);
                self.receipt.record(n, now, self.omit);
                self.receipt.packets = self.receipt.packets + 1;
                self.seq = self.seq + 1;
                true
            },
            Verdict::Again => true,
            Verdict::Stop => false,
        }
    }
}

/// The datagram that ends a UDP stream: a header alone, numbered -1.
pub fn sentinel_packet(secs: u64, micros: u32) -> (packet: Vec<u8>)
    ensures
        packet@ == stamped(secs, micros, (-1) as i64).on_wire(),
{
    let header = UdpHeader { tv_sec: (secs % 0x1_0000_0000) as u32, tv_usec: micros, seq: -1 };
    let mut packet: Vec<u8> = vec![0u8; UDP_HEADER_LEN];
    let _ = header.encode(packet.as_mut_slice());
    proof {
        header.on_wire_len();
        assert(packet@ =~= header.on_wire());
    }
    packet
}

/// The datagrams of a stream come in order and without gaps: the receiver
/// that sees all of them, as they were sent, counts none as lost and none as
/// out of order.
pub proof fn sent_in_order_means_nothing_lost(n: nat)
    ensures
        ({
            let seqs = Seq::new(n, |i: int| i);
            &&& seq_account(seqs).lost == 0
            &&& seq_account(seqs).out_of_order == 0
            &&& seq_account(seqs).packets == n
        }),
{
    let seqs = Seq::new(n, |i: int| i);
    gaps_are_losses(seqs);
    sequence_numbers_balance(seqs);
}

/// The datagram that ends a stream is read as one that ends it, whatever the
/// clock said when it was sent, and no other datagram of a stream is.
pub proof fn only_the_last_datagram_ends_a_stream(secs: u64, micros: u32, seq: i64, rest: Seq<u8>)
    requires
        seq >= -1,
    ensures
        header_of(stamped(secs, micros, seq).on_wire() + rest).seq == seq,
        header_of(stamped(secs, micros, seq).on_wire() + rest).seq < 0 <==> seq == -1,
{
    header_reads_back(stamped(secs, micros, seq), rest);
}

} // verus!
