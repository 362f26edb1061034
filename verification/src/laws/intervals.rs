//! What the rows of a stream are about.

use vstd::prelude::*;

use crate::common::interval::{IntervalReporter, IntervalSnapshot};
use crate::common::error::{ErrorKind, IoError};
use crate::common::stream::{judge, stream_duration, StreamMeter, StreamStep, Transfer};
use crate::common::stream::{UdpSender, Verdict};
use crate::common::test::ClientStreamReceipt;
use crate::common::time::{Duration, Instant};
use crate::server::{ServerMeter, StreamReceipt};

verus! {

// ---------------------------------------------------------------------
// One call.

/// A new reporter is about the given stream and intervals, and has seen
/// nothing.
pub proof fn a_new_reporter_has_seen_nothing(id: u32, interval: Duration, r: IntervalReporter)
    requires
        call_ensures(IntervalReporter::new, (id, interval), r),
    ensures
        r.stream_id == id && r.interval == interval && r.bytes_in_interval == 0,
        r.origin is None && r.next_boundary is None && !r.seen,
{
}

/// Bytes go to the running interval. When its end is reached they are given
/// out with it, and the next interval, as long as this one, follows on.
pub proof fn bytes_go_to_the_running_interval(
    m: &mut IntervalReporter,
    n: u64,
    now: Instant,
    given: Option<IntervalSnapshot>,
)
    requires
        old(m).wf(),
        old(m).boundary_at(now) + old(m).interval.nanos <= u128::MAX,
        call_ensures(IntervalReporter::on_bytes, (m, n, now), given),
    ensures
        final(m).stream_id == old(m).stream_id,
        final(m).interval == old(m).interval,
        ({
            let len = old(m).interval.nanos as int;
            let origin = match old(m).origin {
                Some(o) => o.nanos as int,
                None => now.nanos as int,
            };
            let end = match old(m).next_boundary {
                Some(b) => b.nanos as int,
                None => now.nanos + len,
            };
            &&& final(m).origin matches Some(o) && o.nanos == origin
            &&& final(m).seen == (old(m).seen || n > 0)
            &&& given is Some <==> now.nanos >= end
            &&& given is None ==> final(m).bytes_in_interval == old(m).bytes_in_interval + n
            &&& given is None ==> (final(m).next_boundary matches Some(b) && b.nanos == end)
            &&& given is Some ==> final(m).bytes_in_interval == 0
            &&& given is Some ==> (final(m).next_boundary matches Some(b) && b.nanos == end + len)
            &&& given matches Some(s) ==> {
                &&& s.stream_id == old(m).stream_id
                &&& s.bytes == old(m).bytes_in_interval + n
                &&& s.end.nanos == end - origin
                &&& s.end.nanos - s.start.nanos == len
            }
        }),
{
}

/// The end of a stream: what the running interval holds is given out, from
/// where it opened to now. Nothing is given if no byte was ever seen, or if
/// the interval is empty and yet to open.
pub proof fn the_last_row_is_the_running_interval(
    m: &mut IntervalReporter,
    now: Instant,
    given: Option<IntervalSnapshot>,
)
    requires
        old(m).wf(),
        call_ensures(IntervalReporter::flush, (m, now), given),
    ensures
        final(m).bytes_in_interval == 0,
        final(m).stream_id == old(m).stream_id,
        final(m).interval == old(m).interval,
        final(m).origin == old(m).origin,
        final(m).next_boundary == old(m).next_boundary,
        final(m).seen == old(m).seen,
        !old(m).seen ==> given is None,
        match (old(m).origin, old(m).next_boundary) {
            (Some(o), Some(b)) => {
                let opened = b.nanos - old(m).interval.nanos;
                &&& old(m).seen && (old(m).bytes_in_interval > 0 || now.nanos >= opened)
                    <==> given is Some
                &&& given matches Some(s) ==> {
                    &&& s.stream_id == old(m).stream_id
                    &&& s.bytes == old(m).bytes_in_interval
                    &&& o.nanos + s.start.nanos == opened
                    &&& now.nanos >= opened ==> o.nanos + s.end.nanos == now.nanos
                    &&& now.nanos < opened ==> s.end == s.start
                }
            },
            _ => given is None,
        },
{
}

// ---------------------------------------------------------------------
// A run of calls.

/// How many of the first `k` calls gave a row.
pub open spec fn rows_until(given: Seq<Option<IntervalSnapshot>>, k: int) -> int
    decreases k,
{
    if k <= 0 {
        0
    } else {
        rows_until(given, k - 1) + (if given[k - 1] is Some {
            1int
        } else {
            0int
        })
    }
}

/// The bytes of the first `k` calls that came after the last row among them.
pub open spec fn left_over(n: Seq<u64>, given: Seq<Option<IntervalSnapshot>>, k: int) -> int
    decreases k,
{
    if k <= 0 || given[k - 1] is Some {
        0
    } else {
        left_over(n, given, k - 1) + n[k - 1]
    }
}

/// Where the first `k` calls leave the reporter.
proof fn after_calls(
    calls: Seq<&mut IntervalReporter>,
    n: Seq<u64>,
    at: Seq<Instant>,
    given: Seq<Option<IntervalSnapshot>>,
    k: int,
)
    requires
        calls.len() == n.len() == at.len() == given.len(),
        0 <= k < calls.len(),
        forall|i: int|
            0 <= i < calls.len() ==> #[trigger] call_ensures(
                IntervalReporter::on_bytes,
                (calls[i], n[i], at[i]),
                given[i],
            ),
        forall|i: int| 0 < i < calls.len() ==> *(#[trigger] calls[i]) == *final(calls[i - 1]),
        calls[0].wf(),
        calls[0].origin is None,
        at[0].nanos + (calls.len() + 1) * calls[0].interval.nanos <= u128::MAX,
    ensures
        ({
            let r = *final(calls[k]);
            let len = calls[0].interval.nanos as int;
            let rows = rows_until(given, k);
            &&& r.stream_id == calls[0].stream_id
            &&& r.interval == calls[0].interval
            &&& r.origin == Some(at[0])
            &&& r.seen <==> exists|i: int| 0 <= i <= k && #[trigger] n[i] > 0
            &&& r.bytes_in_interval == left_over(n, given, k + 1)
            &&& r.next_boundary matches Some(b) && b.nanos == at[0].nanos + (rows_until(
                given,
                k + 1,
            ) + 1) * len
            &&& given[k] is Some <==> at[k].nanos >= at[0].nanos + (rows + 1) * len
            &&& given[k] matches Some(s) ==> {
                &&& s.stream_id == calls[0].stream_id
                &&& s.start.nanos == rows * len
                &&& s.end.nanos == (rows + 1) * len
                &&& s.bytes == left_over(n, given, k) + n[k]
            }
        }),
    decreases k,
{
    assert(call_ensures(IntervalReporter::on_bytes, (calls[k], n[k], at[k]), given[k]));
    let len = calls[0].interval.nanos as int;
    let rows = rows_until(given, k);
    assert((rows + 2) * len == (rows + 1) * len + len) by (nonlinear_arith);
    assert((rows + 1) * len == rows * len + len) by (nonlinear_arith);
    rows_not_negative(given, k);
    let most = calls.len() as int;
    assert((rows + 2) * len <= (most + 1) * len) by (nonlinear_arith)
        requires
            rows <= k < most,
            len >= 0,
    ;
    if k > 0 {
        after_calls(calls, n, at, given, k - 1);
        assert(*calls[k] == *final(calls[k - 1]));
        if exists|i: int| 0 <= i <= k - 1 && #[trigger] n[i] > 0 {
            let i = choose|i: int| 0 <= i <= k - 1 && #[trigger] n[i] > 0;
            assert(0 <= i <= k && n[i] > 0);
        }
        if n[k] > 0 {
            assert(0 <= k <= k && n[k] > 0);
        }
        if exists|i: int| 0 <= i <= k && #[trigger] n[i] > 0 {
            let i = choose|i: int| 0 <= i <= k && #[trigger] n[i] > 0;
            if i < k {
                assert(0 <= i <= k - 1 && n[i] > 0);
            }
        }
    } else {
        assert(rows_until(given, 0) == 0);
        assert(left_over(n, given, 0) == 0);
        assert(0 * len == 0);
        assert(1 * len == len);
        if n[0] > 0 {
            assert(0 <= 0 <= k && n[0int] > 0);
        }
    }
}

/// The rows of a stream cut its time into intervals of equal length, counted
/// from the first call: the call that follows on so many rows gives one
/// exactly when the next interval is over, about that interval, with all bytes
/// since the row before it.
pub proof fn rows_cut_time_into_equal_intervals(
    calls: Seq<&mut IntervalReporter>,
    n: Seq<u64>,
    at: Seq<Instant>,
    given: Seq<Option<IntervalSnapshot>>,
    k: int,
)
    requires
        calls.len() == n.len() == at.len() == given.len(),
        0 <= k < calls.len(),
        forall|i: int|
            0 <= i < calls.len() ==> #[trigger] call_ensures(
                IntervalReporter::on_bytes,
                (calls[i], n[i], at[i]),
                given[i],
            ),
        forall|i: int| 0 < i < calls.len() ==> *(#[trigger] calls[i]) == *final(calls[i - 1]),
        calls[0].wf(),
        calls[0].origin is None,
        at[0].nanos + (calls.len() + 1) * calls[0].interval.nanos <= u128::MAX,
    ensures
        ({
            let len = calls[0].interval.nanos as int;
            let rows = rows_until(given, k);
            &&& given[k] is Some <==> at[k].nanos - at[0].nanos >= (rows + 1) * len
            &&& given[k] matches Some(s) ==> {
                &&& s.stream_id == calls[0].stream_id
                &&& s.start.nanos == rows * len
                &&& s.end.nanos == (rows + 1) * len
                &&& s.bytes == left_over(n, given, k) + n[k]
            }
        }),
{
    after_calls(calls, n, at, given, k);
}

/// The last row follows on the rows before it: it starts where the last of
/// those ended, or at zero where there was none, and ends at the larger of
/// that and the time since the first call; it holds the bytes that no other
/// row does. There is none if no byte was ever seen.
pub proof fn the_last_row_follows_on(
    calls: Seq<&mut IntervalReporter>,
    n: Seq<u64>,
    at: Seq<Instant>,
    given: Seq<Option<IntervalSnapshot>>,
    m: &mut IntervalReporter,
    now: Instant,
    last: Option<IntervalSnapshot>,
)
    requires
        calls.len() == n.len() == at.len() == given.len(),
        0 < calls.len(),
        forall|i: int|
            0 <= i < calls.len() ==> #[trigger] call_ensures(
                IntervalReporter::on_bytes,
                (calls[i], n[i], at[i]),
                given[i],
            ),
        forall|i: int| 0 < i < calls.len() ==> *(#[trigger] calls[i]) == *final(calls[i - 1]),
        calls[0].wf(),
        calls[0].origin is None,
        at[0].nanos + (calls.len() + 1) * calls[0].interval.nanos <= u128::MAX,
        *old(m) == *final(calls[calls.len() - 1]),
        call_ensures(IntervalReporter::flush, (m, now), last),
    ensures
        ({
            let start = rows_until(given, given.len() as int) * calls[0].interval.nanos;
            let since = now.nanos - at[0].nanos;
            let left = left_over(n, given, given.len() as int);
            let seen = exists|i: int| 0 <= i < n.len() && #[trigger] n[i] > 0;
            &&& last is Some <==> seen && (left > 0 || since >= start)
            &&& last matches Some(s) ==> {
                &&& s.stream_id == calls[0].stream_id
                &&& s.start.nanos == start
                &&& s.end.nanos == (if since > start {
                    since
                } else {
                    start
                })
                &&& s.bytes == left
            }
        }),
{
    let k = calls.len() - 1;
    after_calls(calls, n, at, given, k);
    let len = calls[0].interval.nanos as int;
    let rows = rows_until(given, k + 1);
    assert((rows + 1) * len == rows * len + len) by (nonlinear_arith);
    rows_not_negative(given, k + 1);
    assert(rows * len >= 0) by (nonlinear_arith)
        requires
            rows >= 0,
            len >= 0,
    ;
    if exists|i: int| 0 <= i < n.len() && #[trigger] n[i] > 0 {
        let i = choose|i: int| 0 <= i < n.len() && #[trigger] n[i] > 0;
        assert(0 <= i <= k && n[i] > 0);
    }
    if exists|i: int| 0 <= i <= k && #[trigger] n[i] > 0 {
        let i = choose|i: int| 0 <= i <= k && #[trigger] n[i] > 0;
        assert(0 <= i < n.len() && n[i] > 0);
    }
}

proof fn rows_not_negative(given: Seq<Option<IntervalSnapshot>>, k: int)
    ensures
        0 <= rows_until(given, k),
        k >= 0 ==> rows_until(given, k) <= k,
    decreases k,
{
    if k > 0 {
        rows_not_negative(given, k - 1);
    }
}

// ---------------------------------------------------------------------
// Streams with rows.

/// What a call on a socket means. Bytes count, on every stream. Nothing
/// received ends a TCP stream; nothing sent, or an empty datagram, ends none.
/// A TCP write that would have to wait, a TCP read that was interrupted, and
/// a datagram that has not come yet are tried again; any other error is the
/// end.
pub proof fn calls_mean_what_they_move(
    t: Transfer,
    outcome: Result<usize, IoError>,
    v: Verdict,
)
    requires
        call_ensures(judge, (t, &outcome), v),
    ensures
        match outcome {
            Ok(n) => {
                &&& n > 0 ==> v == Verdict::Count(n as u64)
                &&& n == 0 && t == Transfer::TcpRecv ==> v == Verdict::Stop
                &&& n == 0 && t != Transfer::TcpRecv ==> v == Verdict::Again
            },
            Err(e) => {
                let again = match t {
                    Transfer::TcpSend => e.kind == ErrorKind::WouldBlock,
                    Transfer::TcpRecv => e.kind == ErrorKind::Interrupted,
                    Transfer::UdpSend => false,
                    Transfer::UdpRecv => e.kind == ErrorKind::WouldBlock || e.kind
                        == ErrorKind::TimedOut,
                };
                v == if again {
                    Verdict::Again
                } else {
                    Verdict::Stop
                }
            },
        },
{
}

/// The books of a client's stream after one call: bytes that moved are added
/// to the receipt, to the running row and to what counts against the rate;
/// each datagram counts once. Where nothing moved, nothing changes.
pub proof fn client_streams_note_their_calls(
    m: &mut StreamMeter,
    outcome: Result<usize, IoError>,
    now: Instant,
    step: StreamStep,
)
    requires
        old(m).wf(),
        call_ensures(StreamMeter::on_outcome, (m, &outcome, now), step),
    ensures
        final(m).transfer == old(m).transfer,
        final(m).omit == old(m).omit,
        final(m).bucket.rate_bps == old(m).bucket.rate_bps,
        final(m).bucket.start == old(m).bucket.start,
        match outcome {
            Ok(n) if n > 0 => {
                let first = match old(m).receipt.first_send_at {
                    Some(f) => f.nanos as int,
                    None => now.nanos as int,
                };
                let age = if now.nanos > first {
                    now.nanos - first
                } else {
                    0
                };
                let end = match old(m).reporter.next_boundary {
                    Some(b) => b.nanos as int,
                    None => now.nanos + old(m).reporter.interval.nanos,
                };
                &&& final(m).receipt.bytes_sent == old(m).receipt.bytes_sent + n
                &&& final(m).receipt.bytes_omit == old(m).receipt.bytes_omit + (if age
                    < old(m).omit.nanos {
                    n as int
                } else {
                    0
                })
                &&& final(m).receipt.last_send_at == Some(now)
                &&& final(m).receipt.first_send_at matches Some(f) && f.nanos == first
                &&& final(m).receipt.packets == old(m).receipt.packets + (match old(m).transfer {
                    Transfer::UdpSend => 1int,
                    Transfer::UdpRecv => 1,
                    _ => 0,
                })
                &&& final(m).receipt.retransmits == old(m).receipt.retransmits
                &&& final(m).bucket.bytes_sent == old(m).bucket.bytes_sent + n
                &&& now.nanos >= end <==> step is Report
                &&& now.nanos < end ==> step is Continue
                &&& step matches StreamStep::Report(s) ==> s.bytes
                    == old(m).reporter.bytes_in_interval + n
            },
            Ok(_) => *final(m) == *old(m) && (step is Stop <==> old(m).transfer
                == Transfer::TcpRecv) && (step is Continue <==> old(m).transfer
                != Transfer::TcpRecv),
            Err(_) => *final(m) == *old(m) && (step is Stop || step is Continue),
        },
{
    let a = old(m).receipt;
    let b = final(m).receipt;
    assert(b.account().bytes == b.bytes_sent && b.account().omitted == b.bytes_omit);
    assert(a.account().bytes == a.bytes_sent && a.account().omitted == a.bytes_omit);
    assert(b.account().first == b.first_send_at && b.account().last == b.last_send_at);
}

/// The books of a server's stream after one call.
pub proof fn server_streams_note_their_calls(
    m: &mut ServerMeter,
    outcome: Result<usize, IoError>,
    now: Instant,
    step: StreamStep,
)
    requires
        old(m).wf(),
        call_ensures(ServerMeter::on_outcome, (m, &outcome, now), step),
    ensures
        final(m).transfer == old(m).transfer,
        final(m).omit == old(m).omit,
        match outcome {
            Ok(n) if n > 0 => {
                let first = match old(m).receipt.first_byte_at {
                    Some(f) => f.nanos as int,
                    None => now.nanos as int,
                };
                let age = if now.nanos > first {
                    now.nanos - first
                } else {
                    0
                };
                &&& final(m).receipt.bytes == old(m).receipt.bytes + n
                &&& final(m).receipt.bytes_omit == old(m).receipt.bytes_omit + (if age
                    < old(m).omit.nanos {
                    n as int
                } else {
                    0
                })
                &&& final(m).receipt.last_byte_at == Some(now)
                &&& final(m).receipt.first_byte_at matches Some(f) && f.nanos == first
                &&& old(m).reporter is None ==> step is Continue && final(m).reporter is None
                &&& old(m).reporter matches Some(r) ==> {
                    let end = match r.next_boundary {
                        Some(b) => b.nanos as int,
                        None => now.nanos + r.interval.nanos,
                    };
                    &&& now.nanos >= end <==> step is Report
                    &&& now.nanos < end ==> step is Continue
                    &&& step matches StreamStep::Report(s) ==> s.bytes == r.bytes_in_interval + n
                }
            },
            Ok(_) => *final(m) == *old(m) && (step is Stop <==> old(m).transfer
                == Transfer::TcpRecv) && (step is Continue <==> old(m).transfer
                != Transfer::TcpRecv),
            Err(_) => *final(m) == *old(m) && (step is Stop || step is Continue),
        },
{
    let a = old(m).receipt;
    let b = final(m).receipt;
    assert(b.account().bytes == b.bytes && b.account().omitted == b.bytes_omit);
    assert(a.account().bytes == a.bytes && a.account().omitted == a.bytes_omit);
    assert(b.account().first == b.first_byte_at && b.account().last == b.last_byte_at);
}

/// The end of a client's stream: its receipt comes out with the
/// retransmissions that were counted, or none; and a last row, if the running
/// interval holds bytes, from where it opened to the last byte.
pub proof fn client_streams_close_their_books(
    m: StreamMeter,
    retransmits: Option<u32>,
    r: (ClientStreamReceipt, Option<IntervalSnapshot>),
)
    requires
        m.wf(),
        call_ensures(StreamMeter::finish, (m, retransmits), r),
    ensures
        retransmits matches Some(n) ==> r.0.retransmits == n,
        retransmits is None ==> r.0.retransmits == 0,
        r.0.bytes_sent == m.receipt.bytes_sent,
        r.0.bytes_omit == m.receipt.bytes_omit,
        r.0.first_send_at == m.receipt.first_send_at,
        r.0.first_measured_at == m.receipt.first_measured_at,
        r.0.last_send_at == m.receipt.last_send_at,
        r.0.packets == m.receipt.packets,
        r.0.stream_id == m.receipt.stream_id,
        m.receipt.last_send_at is Some ==> (r.1 is Some <==> m.reporter.bytes_in_interval > 0),
        r.1 matches Some(s) ==> match (
            m.reporter.origin,
            m.reporter.next_boundary,
            m.receipt.last_send_at,
        ) {
            (Some(o), Some(b), Some(t)) => {
                let opened = b.nanos - m.reporter.interval.nanos;
                &&& s.bytes == m.reporter.bytes_in_interval
                &&& o.nanos + s.start.nanos == opened
                &&& o.nanos + s.end.nanos == (if t.nanos > opened {
                    t.nanos as int
                } else {
                    opened
                })
            },
            _ => false,
        },
{
}

/// The end of a server's stream.
pub proof fn server_streams_close_their_books(
    m: ServerMeter,
    r: (StreamReceipt, Option<IntervalSnapshot>),
)
    requires
        m.wf(),
        call_ensures(ServerMeter::finish, (m,), r),
    ensures
        r.0 == m.receipt,
        m.reporter is None ==> r.1 is None,
        m.reporter matches Some(p) ==> (m.receipt.last_byte_at is Some ==> (r.1 is Some
            <==> p.bytes_in_interval > 0)),
        r.1 matches Some(s) ==> match (
            m.reporter->0.origin,
            m.reporter->0.next_boundary,
            m.receipt.last_byte_at,
        ) {
            (Some(o), Some(b), Some(t)) => {
                let opened = b.nanos - m.reporter->0.interval.nanos;
                &&& m.reporter is Some
                &&& s.bytes == m.reporter->0.bytes_in_interval
                &&& o.nanos + s.start.nanos == opened
                &&& o.nanos + s.end.nanos == (if t.nanos > opened {
                    t.nanos as int
                } else {
                    opened
                })
            },
            _ => false,
        },
{
}

/// New books: empty, for rows of one second, at the given rate.
pub proof fn new_books_are_empty(
    t: Transfer,
    id: u32,
    omit: Duration,
    bandwidth: u64,
    start: Instant,
    a: StreamMeter,
    reporter: Option<IntervalReporter>,
    b: ServerMeter,
)
    requires
        call_ensures(StreamMeter::new, (t, id, omit, bandwidth, start), a),
        call_ensures(ServerMeter::new, (t, omit, reporter), b),
    ensures
        a.transfer == t && a.omit == omit && a.receipt.stream_id == id,
        a.receipt.bytes_sent == 0 && a.receipt.bytes_omit == 0 && a.receipt.packets == 0,
        a.receipt.first_send_at is None && a.receipt.first_measured_at is None,
        a.receipt.last_send_at is None && a.receipt.retransmits == 0,
        a.reporter.stream_id == id && a.reporter.interval.nanos == 1_000_000_000,
        a.reporter.origin is None && a.reporter.bytes_in_interval == 0,
        a.bucket.rate_bps == bandwidth && a.bucket.bytes_sent == 0 && a.bucket.start == start,
        b.transfer == t && b.omit == omit && b.reporter == reporter,
        b.receipt.bytes == 0 && b.receipt.bytes_omit == 0 && b.receipt.packets == 0,
        b.receipt.first_byte_at is None && b.receipt.first_measured_at is None,
        b.receipt.last_byte_at is None,
{
}

/// A stream runs for the time of the test on top of the omit window.
pub proof fn streams_run_for_omit_and_time(time: u32, omit: u32, d: Duration)
    requires
        call_ensures(stream_duration, (time, omit), d),
    ensures
        d.nanos == time * 1_000_000_000 + omit * 1_000_000_000,
{
}

/// A UDP sender starts numbering at zero, with a payload of the asked length,
/// which has to hold the 16 bytes of a header.
pub proof fn datagrams_are_of_the_asked_length(
    id: u32,
    len: usize,
    bandwidth: u64,
    omit: Duration,
    start: Instant,
    r: Option<UdpSender>,
)
    requires
        call_ensures(UdpSender::new, (id, len, bandwidth, omit, start), r),
    ensures
        r is Some <==> len >= 16,
        r matches Some(s) ==> {
            &&& s.seq == 0 && s.omit == omit && s.packet@.len() == len
            &&& s.bucket.rate_bps == bandwidth && s.bucket.bytes_sent == 0
            &&& s.bucket.start == start
            &&& s.receipt.stream_id == id && s.receipt.bytes_sent == 0 && s.receipt.packets == 0
            &&& s.receipt.first_send_at is None && s.receipt.first_measured_at is None
        },
{
}

/// A datagram that was sent counts once, with its bytes, and the next one gets
/// the next number; where nothing was sent, nothing changes, and an error ends
/// the stream.
pub proof fn sent_datagrams_count_once(
    s: &mut UdpSender,
    outcome: Result<usize, IoError>,
    now: Instant,
    go_on: bool,
)
    requires
        call_ensures(UdpSender::on_sent, (s, outcome, now), go_on),
    ensures
        go_on <==> outcome is Ok,
        match outcome {
            Ok(n) if n > 0 => {
                let first = match old(s).receipt.first_send_at {
                    Some(f) => f.nanos as int,
                    None => now.nanos as int,
                };
                let age = if now.nanos > first {
                    now.nanos - first
                } else {
                    0
                };
                &&& final(s).seq == old(s).seq + 1
                &&& final(s).receipt.packets == old(s).receipt.packets + 1
                &&& final(s).receipt.bytes_sent == old(s).receipt.bytes_sent + n
                &&& final(s).receipt.bytes_omit == old(s).receipt.bytes_omit + (if age
                    < old(s).omit.nanos {
                    n as int
                } else {
                    0
                })
                &&& final(s).receipt.last_send_at == Some(now)
                &&& final(s).receipt.first_send_at matches Some(f) && f.nanos == first
                &&& final(s).bucket.bytes_sent == (if old(s).bucket.bytes_sent + n <= u64::MAX {
                    old(s).bucket.bytes_sent + n
                } else {
                    u64::MAX as int
                })
                &&& final(s).bucket.rate_bps == old(s).bucket.rate_bps
                &&& final(s).bucket.start == old(s).bucket.start
                &&& final(s).packet == old(s).packet
                &&& final(s).omit == old(s).omit
            },
            _ => *final(s) == *old(s),
        },
{
    let a = old(s).receipt;
    let b = final(s).receipt;
    assert(b.account().bytes == b.bytes_sent && b.account().omitted == b.bytes_omit);
    assert(a.account().bytes == a.bytes_sent && a.account().omitted == a.bytes_omit);
    assert(b.account().first == b.first_send_at && b.account().last == b.last_send_at);
}

} // verus!
