//! What receipts measure: bytes, the omit window, and the time between the
//! first byte and the last.

use vstd::prelude::*;

use crate::client::{check_totals as check_client_totals, client_measured_duration};
use crate::client::{client_session_duration, client_totals, settle_results};
use crate::client::{total_result_bytes, ClientTotals, Settlement};
use crate::common::accounting::{is_earliest, is_latest, spans};
use crate::common::cpu::CpuSnapshot;
use crate::common::test::{ClientStreamReceipt, Test};
use crate::common::time::{Duration, Instant};
use crate::common::wire::{Results, StreamResults};
use crate::server::{check_totals, measured_duration, measured_steady_state, session_totals};
use crate::server::{SessionTotals, StreamReceipt};

verus! {

// ---------------------------------------------------------------------
// One delivery.

/// One delivery on a server's stream: its bytes are counted, and they are
/// omitted exactly if they come less than `omit` after the first byte. The
/// first delivery that is not omitted opens the measurement.
pub proof fn server_receipt_takes_a_delivery(
    m: &mut StreamReceipt,
    n: u64,
    now: Instant,
    omit: Duration,
)
    requires
        call_ensures(StreamReceipt::record, (m, n, now, omit), ()),
    ensures
        ({
            let first = match old(m).first_byte_at {
                Some(f) => f.nanos as int,
                None => now.nanos as int,
            };
            let age = if now.nanos > first {
                now.nanos - first
            } else {
                0
            };
            &&& final(m).bytes == old(m).bytes + n
            &&& final(m).bytes_omit == old(m).bytes_omit + (if age < omit.nanos {
                n as int
            } else {
                0
            })
            &&& final(m).first_byte_at matches Some(f) && f.nanos == first
            &&& final(m).last_byte_at == Some(now)
            &&& age < omit.nanos ==> final(m).first_measured_at == old(m).first_measured_at
            &&& age >= omit.nanos && old(m).first_measured_at is None
                ==> final(m).first_measured_at == Some(now)
            &&& old(m).first_measured_at is Some ==> final(m).first_measured_at == old(
                m,
            ).first_measured_at
            &&& final(m).jitter_ms == old(m).jitter_ms
            &&& final(m).lost == old(m).lost
            &&& final(m).ooo == old(m).ooo
            &&& final(m).packets == old(m).packets
        }),
{
    let a = old(m).account();
    let b = final(m).account();
    assert(b.bytes == final(m).bytes && b.omitted == final(m).bytes_omit);
    assert(a.bytes == old(m).bytes && a.omitted == old(m).bytes_omit);
    assert(b.first == final(m).first_byte_at && b.last == final(m).last_byte_at);
    assert(b.first_measured == final(m).first_measured_at);
}

/// One delivery on a client's stream, counted as on a server's.
pub proof fn client_receipt_takes_a_delivery(
    m: &mut ClientStreamReceipt,
    n: u64,
    now: Instant,
    omit: Duration,
)
    requires
        call_ensures(ClientStreamReceipt::record, (m, n, now, omit), ()),
    ensures
        ({
            let first = match old(m).first_send_at {
                Some(f) => f.nanos as int,
                None => now.nanos as int,
            };
            let age = if now.nanos > first {
                now.nanos - first
            } else {
                0
            };
            &&& final(m).bytes_sent == old(m).bytes_sent + n
            &&& final(m).bytes_omit == old(m).bytes_omit + (if age < omit.nanos {
                n as int
            } else {
                0
            })
            &&& final(m).first_send_at matches Some(f) && f.nanos == first
            &&& final(m).last_send_at == Some(now)
            &&& age < omit.nanos ==> final(m).first_measured_at == old(m).first_measured_at
            &&& age >= omit.nanos && old(m).first_measured_at is None
                ==> final(m).first_measured_at == Some(now)
            &&& old(m).first_measured_at is Some ==> final(m).first_measured_at == old(
                m,
            ).first_measured_at
            &&& final(m).stream_id == old(m).stream_id
            &&& final(m).retransmits == old(m).retransmits
            &&& final(m).jitter_ms == old(m).jitter_ms
            &&& final(m).lost == old(m).lost
            &&& final(m).ooo == old(m).ooo
            &&& final(m).packets == old(m).packets
        }),
{
    let a = old(m).account();
    let b = final(m).account();
    assert(b.bytes == final(m).bytes_sent && b.omitted == final(m).bytes_omit);
    assert(a.bytes == old(m).bytes_sent && a.omitted == old(m).bytes_omit);
    assert(b.first == final(m).first_send_at && b.last == final(m).last_send_at);
    assert(b.first_measured == final(m).first_measured_at);
}

// ---------------------------------------------------------------------
// A run of deliveries.

/// How long after `first` the point in time `at` lies; not at all if before.
pub open spec fn age(first: Instant, at: Instant) -> int {
    if at.nanos > first.nanos {
        at.nanos - first.nanos
    } else {
        0
    }
}

/// The bytes of the first `k` deliveries.
pub open spec fn bytes_until(n: Seq<u64>, k: int) -> int
    decreases k,
{
    if k <= 0 {
        0
    } else {
        bytes_until(n, k - 1) + n[k - 1]
    }
}

/// The bytes of those among the first `k` deliveries that come less than
/// `omit` after the first one.
pub open spec fn early_bytes(n: Seq<u64>, at: Seq<Instant>, omit: Duration, k: int) -> int
    decreases k,
{
    if k <= 0 {
        0
    } else {
        early_bytes(n, at, omit, k - 1) + (if age(at[0], at[k - 1]) < omit.nanos {
            n[k - 1] as int
        } else {
            0
        })
    }
}

/// A run of deliveries on a server's stream: the omitted bytes are those that
/// came less than `omit` after the first delivery, whatever `omit` is, and the
/// measurement opens with the first delivery at least that late.
pub proof fn server_omits_what_comes_early(
    calls: Seq<&mut StreamReceipt>,
    n: Seq<u64>,
    at: Seq<Instant>,
    omit: Duration,
    k: int,
)
    requires
        calls.len() == n.len() == at.len(),
        0 <= k < calls.len(),
        forall|i: int|
            0 <= i < calls.len() ==> #[trigger] call_ensures(
                StreamReceipt::record,
                (calls[i], n[i], at[i], omit),
                (),
            ),
        forall|i: int| 0 < i < calls.len() ==> *(#[trigger] calls[i]) == *final(calls[i - 1]),
        calls[0].bytes == 0,
        calls[0].bytes_omit == 0,
        calls[0].first_byte_at is None,
        calls[0].first_measured_at is None,
    ensures
        final(calls[k]).bytes == bytes_until(n, k + 1),
        final(calls[k]).bytes_omit == early_bytes(n, at, omit, k + 1),
        final(calls[k]).first_byte_at == Some(at[0]),
        final(calls[k]).last_byte_at == Some(at[k]),
        match final(calls[k]).first_measured_at {
            None => forall|i: int| 0 <= i <= k ==> age(at[0], #[trigger] at[i]) < omit.nanos,
            Some(t) => exists|j: int|
                {
                    &&& 0 <= j <= k
                    &&& #[trigger] at[j] == t
                    &&& age(at[0], at[j]) >= omit.nanos
                    &&& forall|i: int| 0 <= i < j ==> age(at[0], #[trigger] at[i]) < omit.nanos
                },
        },
    decreases k,
{
    assert(call_ensures(StreamReceipt::record, (calls[k], n[k], at[k], omit), ()));
    server_receipt_takes_a_delivery_at(*calls[k], n[k], at[k], omit, *final(calls[k]));
    if k > 0 {
        server_omits_what_comes_early(calls, n, at, omit, k - 1);
        assert(*calls[k] == *final(calls[k - 1]));
    } else {
        assert(bytes_until(n, 0) == 0);
        assert(early_bytes(n, at, omit, 0) == 0);
        assert(at[0] == at[k]);
    }
}

/// The same of the values before and after.
pub proof fn server_receipt_takes_a_delivery_at(
    a: StreamReceipt,
    n: u64,
    now: Instant,
    omit: Duration,
    b: StreamReceipt,
)
    requires
        b.account() == a.account().after(
            (crate::common::accounting::Delivery { bytes: n as nat, at: now }),
            omit,
        ),
    ensures
        ({
            let first = match a.first_byte_at {
                Some(f) => f,
                None => now,
            };
            &&& b.bytes == a.bytes + n
            &&& b.bytes_omit == a.bytes_omit + (if age(first, now) < omit.nanos {
                n as int
            } else {
                0
            })
            &&& b.first_byte_at == Some(first)
            &&& b.last_byte_at == Some(now)
            &&& b.first_measured_at == (if age(first, now) >= omit.nanos
                && a.first_measured_at is None {
                Some(now)
            } else {
                a.first_measured_at
            })
        }),
{
    let x = a.account();
    let y = b.account();
    assert(x.bytes == a.bytes && x.omitted == a.bytes_omit && x.first == a.first_byte_at);
    assert(y.bytes == b.bytes && y.omitted == b.bytes_omit && y.first == b.first_byte_at);
    assert(y.last == b.last_byte_at && y.first_measured == b.first_measured_at);
    assert(x.first_measured == a.first_measured_at);
}

/// A run of deliveries on a client's stream, measured as on a server's.
pub proof fn client_omits_what_comes_early(
    calls: Seq<&mut ClientStreamReceipt>,
    n: Seq<u64>,
    at: Seq<Instant>,
    omit: Duration,
    k: int,
)
    requires
        calls.len() == n.len() == at.len(),
        0 <= k < calls.len(),
        forall|i: int|
            0 <= i < calls.len() ==> #[trigger] call_ensures(
                ClientStreamReceipt::record,
                (calls[i], n[i], at[i], omit),
                (),
            ),
        forall|i: int| 0 < i < calls.len() ==> *(#[trigger] calls[i]) == *final(calls[i - 1]),
        calls[0].bytes_sent == 0,
        calls[0].bytes_omit == 0,
        calls[0].first_send_at is None,
        calls[0].first_measured_at is None,
    ensures
        final(calls[k]).bytes_sent == bytes_until(n, k + 1),
        final(calls[k]).bytes_omit == early_bytes(n, at, omit, k + 1),
        final(calls[k]).first_send_at == Some(at[0]),
        final(calls[k]).last_send_at == Some(at[k]),
        match final(calls[k]).first_measured_at {
            None => forall|i: int| 0 <= i <= k ==> age(at[0], #[trigger] at[i]) < omit.nanos,
            Some(t) => exists|j: int|
                {
                    &&& 0 <= j <= k
                    &&& #[trigger] at[j] == t
                    &&& age(at[0], at[j]) >= omit.nanos
                    &&& forall|i: int| 0 <= i < j ==> age(at[0], #[trigger] at[i]) < omit.nanos
                },
        },
    decreases k,
{
    assert(call_ensures(ClientStreamReceipt::record, (calls[k], n[k], at[k], omit), ()));
    let a = *calls[k];
    let b = *final(calls[k]);
    let x = a.account();
    let y = b.account();
    assert(x.bytes == a.bytes_sent && x.omitted == a.bytes_omit && x.first == a.first_send_at);
    assert(y.bytes == b.bytes_sent && y.omitted == b.bytes_omit && y.first == b.first_send_at);
    assert(y.last == b.last_send_at && y.first_measured == b.first_measured_at);
    assert(x.first_measured == a.first_measured_at);
    if k > 0 {
        client_omits_what_comes_early(calls, n, at, omit, k - 1);
        assert(*calls[k] == *final(calls[k - 1]));
    } else {
        assert(bytes_until(n, 0) == 0);
        assert(early_bytes(n, at, omit, 0) == 0);
        assert(at[0] == at[k]);
    }
}

// ---------------------------------------------------------------------
// Readings of one receipt.

/// What is measured of a server's stream is what was not omitted, and its
/// spans run from the first byte, or the first measured one, to the last.
pub proof fn server_receipt_reads(r: StreamReceipt, n: u64, whole: Duration, measured: Duration)
    requires
        call_ensures(StreamReceipt::bytes_measured, (&r,), n),
        call_ensures(StreamReceipt::elapsed, (&r,), whole),
        call_ensures(StreamReceipt::measured_elapsed, (&r,), measured),
    ensures
        r.bytes >= r.bytes_omit ==> n + r.bytes_omit == r.bytes,
        r.bytes < r.bytes_omit ==> n == 0,
        match (r.first_byte_at, r.last_byte_at) {
            (Some(f), Some(l)) => whole.nanos == age(f, l),
            _ => whole.nanos == 0,
        },
        match (r.first_measured_at, r.last_byte_at) {
            (Some(f), Some(l)) => measured.nanos == age(f, l),
            _ => measured.nanos == 0,
        },
{
}

/// The same of a client's stream.
pub proof fn client_receipt_reads(
    r: ClientStreamReceipt,
    n: u64,
    whole: Duration,
    measured: Duration,
)
    requires
        call_ensures(ClientStreamReceipt::bytes_measured, (&r,), n),
        call_ensures(ClientStreamReceipt::elapsed, (&r,), whole),
        call_ensures(ClientStreamReceipt::measured_elapsed, (&r,), measured),
    ensures
        r.bytes_sent >= r.bytes_omit ==> n + r.bytes_omit == r.bytes_sent,
        r.bytes_sent < r.bytes_omit ==> n == 0,
        match (r.first_send_at, r.last_send_at) {
            (Some(f), Some(l)) => whole.nanos == age(f, l),
            _ => whole.nanos == 0,
        },
        match (r.first_measured_at, r.last_send_at) {
            (Some(f), Some(l)) => measured.nanos == age(f, l),
            _ => measured.nanos == 0,
        },
{
}

/// A new receipt holds nothing.
pub proof fn new_receipts_are_empty(a: StreamReceipt, id: u32, b: ClientStreamReceipt)
    requires
        call_ensures(StreamReceipt::empty, (), a),
        call_ensures(ClientStreamReceipt::empty, (id,), b),
    ensures
        a.bytes == 0 && a.bytes_omit == 0 && a.lost == 0 && a.ooo == 0 && a.packets == 0,
        a.first_byte_at is None && a.first_measured_at is None && a.last_byte_at is None,
        a.jitter_ms.bits == 0,
        b.stream_id == id && b.bytes_sent == 0 && b.bytes_omit == 0 && b.retransmits == 0,
        b.lost == 0 && b.ooo == 0 && b.packets == 0 && b.jitter_ms.bits == 0,
        b.first_send_at is None && b.first_measured_at is None && b.last_send_at is None,
{
}

// ---------------------------------------------------------------------
// Spans over all streams.

/// A span over all streams is the longest from a beginning on any stream to
/// an end on any stream.
pub open spec fn longest(firsts: Seq<Option<Instant>>, lasts: Seq<Option<Instant>>, nanos: int) -> bool {
    &&& nanos >= 0
    &&& forall|i: int, j: int|
        0 <= i < firsts.len() && 0 <= j < lasts.len() ==> match (
            #[trigger] firsts[i],
            #[trigger] lasts[j],
        ) {
            (Some(f), Some(l)) => nanos >= l.nanos - f.nanos,
            _ => true,
        }
    &&& nanos > 0 ==> exists|i: int, j: int|
        0 <= i < firsts.len() && 0 <= j < lasts.len() && match (
            #[trigger] firsts[i],
            #[trigger] lasts[j],
        ) {
            (Some(f), Some(l)) => nanos == l.nanos - f.nanos,
            _ => false,
        }
}

/// The span from the earliest to the latest is the longest.
pub proof fn spans_are_longest(firsts: Seq<Option<Instant>>, lasts: Seq<Option<Instant>>, nanos: int)
    requires
        spans(firsts, lasts, nanos),
    ensures
        longest(firsts, lasts, nanos),
{
    let (f, l) = choose|f: Option<Instant>, l: Option<Instant>|
        #![trigger is_earliest(firsts, f), is_latest(lasts, l)]
        is_earliest(firsts, f) && is_latest(lasts, l) && nanos
            == crate::common::accounting::span_nanos(f, l);
    if f is Some && l is Some {
        let i = choose|i: int| 0 <= i < firsts.len() && firsts[i] == f;
        let j = choose|j: int| 0 <= j < lasts.len() && lasts[j] == l;
        assert(firsts[i] == f && lasts[j] == l);
    }
}

/// The time that a server measures: the longest from the first byte of any
/// stream to the last byte of any, and the same from the first measured byte.
pub proof fn server_measures_over_all_streams(
    receipts: &[StreamReceipt],
    raw: Duration,
    steady: Duration,
)
    requires
        call_ensures(measured_duration, (receipts,), raw),
        call_ensures(measured_steady_state, (receipts,), steady),
    ensures
        longest(
            Seq::new(receipts@.len(), |i: int| receipts@[i].first_byte_at),
            Seq::new(receipts@.len(), |i: int| receipts@[i].last_byte_at),
            raw.nanos as int,
        ),
        longest(
            Seq::new(receipts@.len(), |i: int| receipts@[i].first_measured_at),
            Seq::new(receipts@.len(), |i: int| receipts@[i].last_byte_at),
            steady.nanos as int,
        ),
{
    let first = Seq::new(receipts@.len(), |i: int| receipts@[i].first_byte_at);
    let measured = Seq::new(receipts@.len(), |i: int| receipts@[i].first_measured_at);
    let last = Seq::new(receipts@.len(), |i: int| receipts@[i].last_byte_at);
    assert(crate::server::first_bytes(receipts@) =~= first);
    assert(crate::server::first_measured(receipts@) =~= measured);
    assert(crate::server::last_bytes(receipts@) =~= last);
    spans_are_longest(first, last, raw.nanos as int);
    spans_are_longest(measured, last, steady.nanos as int);
}

/// The time that a client measures. There is none where no byte moved, or
/// where every end lies before every beginning.
pub proof fn client_measures_over_all_streams(
    receipts: &[ClientStreamReceipt],
    session: Option<Duration>,
    steady: Duration,
)
    requires
        call_ensures(client_session_duration, (receipts,), session),
        call_ensures(client_measured_duration, (receipts,), steady),
    ensures
        longest(
            Seq::new(receipts@.len(), |i: int| receipts@[i].first_send_at),
            Seq::new(receipts@.len(), |i: int| receipts@[i].last_send_at),
            match session {
                Some(d) => d.nanos as int,
                None => 0,
            },
        ),
        session is Some <==> exists|i: int, j: int|
            0 <= i < receipts@.len() && 0 <= j < receipts@.len() && match (
                (#[trigger] receipts@[i]).first_send_at,
                (#[trigger] receipts@[j]).last_send_at,
            ) {
                (Some(f), Some(l)) => f.nanos <= l.nanos,
                _ => false,
            },
        longest(
            Seq::new(receipts@.len(), |i: int| receipts@[i].first_measured_at),
            Seq::new(receipts@.len(), |i: int| receipts@[i].last_send_at),
            steady.nanos as int,
        ),
{
    let first = Seq::new(receipts@.len(), |i: int| receipts@[i].first_send_at);
    let measured = Seq::new(receipts@.len(), |i: int| receipts@[i].first_measured_at);
    let last = Seq::new(receipts@.len(), |i: int| receipts@[i].last_send_at);
    assert(crate::client::first_sends(receipts@) =~= first);
    assert(crate::client::first_measured(receipts@) =~= measured);
    assert(crate::client::last_sends(receipts@) =~= last);
    spans_are_longest(
        first,
        last,
        match session {
            Some(d) => d.nanos as int,
            None => 0,
        },
    );
    spans_are_longest(measured, last, steady.nanos as int);
    let (f, l) = choose|f: Option<Instant>, l: Option<Instant>|
        #![trigger is_earliest(first, f), is_latest(last, l)]
        {
            &&& is_earliest(first, f)
            &&& is_latest(last, l)
            &&& match (f, l) {
                (Some(a), Some(b)) => if b.nanos >= a.nanos {
                    session == Some(Duration { nanos: (b.nanos - a.nanos) as u128 })
                } else {
                    session is None
                },
                _ => session is None,
            }
        };
    if session is Some {
        let i = choose|i: int| 0 <= i < first.len() && first[i] == f;
        let j = choose|j: int| 0 <= j < last.len() && last[j] == l;
        assert(receipts@[i].first_send_at == f && receipts@[j].last_send_at == l);
    }
    if exists|i: int, j: int|
        0 <= i < receipts@.len() && 0 <= j < receipts@.len() && match (
            (#[trigger] receipts@[i]).first_send_at,
            (#[trigger] receipts@[j]).last_send_at,
        ) {
            (Some(f), Some(l)) => f.nanos <= l.nanos,
            _ => false,
        } {
        let (i, j) = choose|i: int, j: int|
            0 <= i < receipts@.len() && 0 <= j < receipts@.len() && match (
                (#[trigger] receipts@[i]).first_send_at,
                (#[trigger] receipts@[j]).last_send_at,
            ) {
                (Some(f), Some(l)) => f.nanos <= l.nanos,
                _ => false,
            };
        assert(first[i] == receipts@[i].first_send_at);
        assert(last[j] == receipts@[j].last_send_at);
    }
}

// ---------------------------------------------------------------------
// Sums over all streams.

proof fn server_sums(s: Seq<StreamReceipt>)
    ensures
        crate::server::sum_bytes(s) == s.fold_left(0int, |a: int, r: StreamReceipt| a + r.bytes),
        crate::server::sum_measured(s) == s.fold_left(
            0int,
            |a: int, r: StreamReceipt|
                a + (if r.bytes >= r.bytes_omit {
                    r.bytes - r.bytes_omit
                } else {
                    0
                }),
        ),
    decreases s.len(),
{
    if s.len() > 0 {
        server_sums(s.drop_last());
    }
}

/// What a server sums up: all bytes, all bytes that were not omitted, and the
/// spans of both. The summary is about the measured bytes and their time where
/// a window was omitted and something was measured; else about all bytes and
/// their time, or the time of the test where there was none.
pub proof fn server_sums_up(
    receipts: &[StreamReceipt],
    omit: u32,
    time: u32,
    fits: bool,
    t: SessionTotals,
)
    requires
        call_ensures(check_totals, (receipts,), fits),
        call_ensures(session_totals, (receipts, omit, time), t),
    ensures
        fits <==> receipts@.fold_left(0int, |a: int, r: StreamReceipt| a + r.bytes) <= u64::MAX,
        t.total_bytes == receipts@.fold_left(0int, |a: int, r: StreamReceipt| a + r.bytes),
        t.measured_bytes == receipts@.fold_left(
            0int,
            |a: int, r: StreamReceipt|
                a + (if r.bytes >= r.bytes_omit {
                    r.bytes - r.bytes_omit
                } else {
                    0
                }),
        ),
        longest(
            Seq::new(receipts@.len(), |i: int| receipts@[i].first_byte_at),
            Seq::new(receipts@.len(), |i: int| receipts@[i].last_byte_at),
            t.raw.nanos as int,
        ),
        longest(
            Seq::new(receipts@.len(), |i: int| receipts@[i].first_measured_at),
            Seq::new(receipts@.len(), |i: int| receipts@[i].last_byte_at),
            t.steady.nanos as int,
        ),
        omit > 0 && t.steady.nanos > 0 ==> t.summary_bytes == t.measured_bytes
            && t.summary_duration == t.steady,
        (omit == 0 || t.steady.nanos == 0) ==> t.summary_bytes == t.total_bytes,
        (omit == 0 || t.steady.nanos == 0) && t.raw.nanos > 0 ==> t.summary_duration == t.raw,
        t.steady.nanos == 0 && t.raw.nanos == 0 ==> t.summary_duration.nanos == time
            * 1_000_000_000,
        t.steady.nanos > 0 ==> t.wall == t.steady,
        t.steady.nanos == 0 ==> t.wall == t.raw,
{
    let first = Seq::new(receipts@.len(), |i: int| receipts@[i].first_byte_at);
    let measured = Seq::new(receipts@.len(), |i: int| receipts@[i].first_measured_at);
    let last = Seq::new(receipts@.len(), |i: int| receipts@[i].last_byte_at);
    assert(crate::server::first_bytes(receipts@) =~= first);
    assert(crate::server::first_measured(receipts@) =~= measured);
    assert(crate::server::last_bytes(receipts@) =~= last);
    spans_are_longest(first, last, t.raw.nanos as int);
    spans_are_longest(measured, last, t.steady.nanos as int);
    server_sums(receipts@);
}

proof fn client_sums(s: Seq<ClientStreamReceipt>)
    ensures
        crate::client::sum_sent(s) == s.fold_left(
            0int,
            |a: int, r: ClientStreamReceipt| a + r.bytes_sent,
        ),
        crate::client::sum_retransmits(s) == s.fold_left(
            0int,
            |a: int, r: ClientStreamReceipt| a + r.retransmits,
        ),
        crate::client::sum_measured(s) == s.fold_left(
            0int,
            |a: int, r: ClientStreamReceipt|
                a + (if r.bytes_sent >= r.bytes_omit {
                    r.bytes_sent - r.bytes_omit
                } else {
                    0
                }),
        ),
    decreases s.len(),
{
    if s.len() > 0 {
        client_sums(s.drop_last());
    }
}

/// What the totals of a client are: all retransmissions; the span in which
/// bytes moved; and either the measured bytes over the time in which those
/// moved, where a window was omitted and something was measured, or all bytes
/// over the whole span.
pub open spec fn adds_up(s: Seq<ClientStreamReceipt>, omit: u32, t: ClientTotals) -> bool {
    let firsts = Seq::new(s.len(), |i: int| s[i].first_send_at);
    let measured = Seq::new(s.len(), |i: int| s[i].first_measured_at);
    let lasts = Seq::new(s.len(), |i: int| s[i].last_send_at);
    &&& longest(firsts, lasts, t.session.nanos as int)
    &&& t.retransmits == s.fold_left(0int, |a: int, r: ClientStreamReceipt| a + r.retransmits)
    &&& exists|steady: int| #[trigger]
        longest(measured, lasts, steady) && if omit > 0 && steady > 0 {
            &&& t.duration.nanos == steady
            &&& t.bytes == s.fold_left(
                0int,
                |a: int, r: ClientStreamReceipt|
                    a + (if r.bytes_sent >= r.bytes_omit {
                        r.bytes_sent - r.bytes_omit
                    } else {
                        0
                    }),
            )
        } else {
            &&& t.duration == t.session
            &&& t.bytes == s.fold_left(0int, |a: int, r: ClientStreamReceipt| a + r.bytes_sent)
        }
}

proof fn matching_totals_add_up(s: Seq<ClientStreamReceipt>, omit: u32, t: ClientTotals)
    requires
        crate::client::totals_match(s, omit, t),
    ensures
        adds_up(s, omit, t),
{
    let firsts = Seq::new(s.len(), |i: int| s[i].first_send_at);
    let measured = Seq::new(s.len(), |i: int| s[i].first_measured_at);
    let lasts = Seq::new(s.len(), |i: int| s[i].last_send_at);
    assert(crate::client::first_sends(s) =~= firsts);
    assert(crate::client::first_measured(s) =~= measured);
    assert(crate::client::last_sends(s) =~= lasts);
    spans_are_longest(firsts, lasts, t.session.nanos as int);
    client_sums(s);
    let steady = choose|steady: int| #[trigger]
        spans(measured, lasts, steady) && if omit > 0 && steady != 0 {
            t.bytes == crate::client::sum_measured(s) && t.duration.nanos == steady
        } else {
            t.bytes == crate::client::sum_sent(s) && t.duration == t.session
        };
    spans_are_longest(measured, lasts, steady);
}

/// A client's totals are the sums and spans of its receipts.
pub proof fn client_sums_up(
    receipts: &[ClientStreamReceipt],
    omit: u32,
    fits: bool,
    t: ClientTotals,
)
    requires
        call_ensures(check_client_totals, (receipts,), fits),
        call_ensures(client_totals, (receipts, omit), t),
    ensures
        fits <==> receipts@.fold_left(0int, |a: int, r: ClientStreamReceipt| a + r.bytes_sent)
            <= u64::MAX && receipts@.fold_left(
            0int,
            |a: int, r: ClientStreamReceipt| a + r.retransmits,
        ) <= u64::MAX,
        adds_up(receipts@, omit, t),
{
    client_sums(receipts@);
    matching_totals_add_up(receipts@, omit, t);
}

/// Settling a test takes in every receipt that has arrived before anything is
/// added up.
pub proof fn settling_leaves_no_receipt_out(
    test: &mut Test,
    arrived: Vec<ClientStreamReceipt>,
    now: CpuSnapshot,
    ticks: u64,
    s: Option<Settlement>,
)
    requires
        call_ensures(settle_results, (test, arrived, &now, ticks), s),
    ensures
        final(test).receipts@ == old(test).receipts@ + arrived@,
        final(test).config == old(test).config,
        s matches Some(x) ==> {
            &&& adds_up(old(test).receipts@ + arrived@, old(test).config.omit, x.totals)
            &&& x.results.streams@.len() == old(test).receipts@.len() + arrived@.len()
        },
{
    if let Some(x) = s {
        matching_totals_add_up(final(test).receipts@, old(test).config.omit, x.totals);
    }
}

proof fn result_sums(s: Seq<StreamResults>)
    ensures
        crate::client::sum_result_bytes(s) == s.fold_left(
            0int,
            |a: int, r: StreamResults| a + r.bytes,
        ),
    decreases s.len(),
{
    if s.len() > 0 {
        result_sums(s.drop_last());
    }
}

/// The bytes that the other side reports are summed over all its streams.
pub proof fn reported_bytes_are_summed(results: &Results, n: Option<u64>)
    requires
        call_ensures(total_result_bytes, (results,), n),
    ensures
        ({
            let sum = results.streams@.fold_left(0int, |a: int, r: StreamResults| a + r.bytes);
            &&& n is Some <==> sum <= u64::MAX
            &&& n matches Some(x) ==> x == sum
        }),
{
    result_sums(results.streams@);
}

} // verus!
