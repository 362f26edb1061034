//! What a stream carries over its socket, and what its books say of that.

use vstd::prelude::*;

use crate::common::error::{ErrorKind, IoError};
use crate::common::protocol::{moved_by, Protocol, SocketEvent};
use crate::common::stream::{Stream, StreamMeter, StreamPause, StreamStep};
use crate::common::time::{Duration, Instant};
use crate::common::timer::Clock;
use crate::common::wire::{calls, sent_bytes};
use crate::laws::control::{came_in, traffic, went_out};
use crate::laws::measurement::{age, server_receipt_takes_a_delivery_at};
use crate::server::{recv_stream_bytes, ServerMeter};

verus! {

// ---------------------------------------------------------------------
// What a socket moved.

/// How many bytes a call moved.
pub open spec fn moved(call: SocketEvent) -> int {
    match call {
        SocketEvent::Recv { got: Ok(chunk), .. } => chunk.len() as int,
        SocketEvent::Send { taken: Ok(n), .. } => n as int,
        _ => 0,
    }
}

/// How many bytes the calls moved.
pub open spec fn moved_in_all(run: Seq<SocketEvent>) -> int
    decreases run.len(),
{
    if run.len() == 0 {
        0
    } else {
        moved_in_all(run.drop_last()) + moved(run.last())
    }
}

/// When the first byte was moved, at `before` or in one of the calls.
pub open spec fn opening(
    run: Seq<SocketEvent>,
    at: Seq<Instant>,
    before: Option<Instant>,
) -> Option<Instant>
    decreases run.len(),
{
    if before is Some || run.len() == 0 {
        before
    } else {
        let o = opening(run.drop_last(), at.drop_last(), before);
        if o is None && moved(run.last()) > 0 {
            Some(at.last())
        } else {
            o
        }
    }
}

/// How many bytes the calls moved less than `omit` after the first byte.
pub open spec fn moved_early(
    run: Seq<SocketEvent>,
    at: Seq<Instant>,
    before: Option<Instant>,
    omit: Duration,
) -> int
    decreases run.len(),
{
    if run.len() == 0 {
        0
    } else {
        moved_early(run.drop_last(), at.drop_last(), before, omit) + (match opening(
            run,
            at,
            before,
        ) {
            Some(first) if age(first, at.last()) < omit.nanos => moved(run.last()),
            _ => 0,
        })
    }
}

/// When the last byte was moved, at `before` or in one of the calls.
pub open spec fn closing(
    run: Seq<SocketEvent>,
    at: Seq<Instant>,
    before: Option<Instant>,
) -> Option<Instant>
    decreases run.len(),
{
    if run.len() == 0 {
        before
    } else if moved(run.last()) > 0 {
        Some(at.last())
    } else {
        closing(run.drop_last(), at.drop_last(), before)
    }
}

// ---------------------------------------------------------------------
// Reading.

/// A receipt of a server after some reads.
pub open spec fn read_into(
    a: ServerMeter,
    run: Seq<SocketEvent>,
    at: Seq<Instant>,
    b: ServerMeter,
) -> bool {
    &&& b.receipt.bytes == a.receipt.bytes + moved_in_all(run)
    &&& b.receipt.bytes_omit == a.receipt.bytes_omit + moved_early(
        run,
        at,
        a.receipt.first_byte_at,
        a.omit,
    )
    &&& b.receipt.first_byte_at == opening(run, at, a.receipt.first_byte_at)
    &&& b.receipt.last_byte_at == closing(run, at, a.receipt.last_byte_at)
    &&& b.receipt.jitter_ms == a.receipt.jitter_ms
    &&& b.receipt.lost == a.receipt.lost
    &&& b.receipt.ooo == a.receipt.ooo
    &&& b.receipt.packets == a.receipt.packets
    &&& b.omit == a.omit
    &&& b.transfer == a.transfer
    &&& b.reporter is Some <==> a.reporter is Some
}

/// A read of a server, for up to 128 KiB.
pub open spec fn is_read(call: SocketEvent) -> bool {
    match call {
        SocketEvent::Recv { room, got } => room == 131_072 && (got matches Ok(chunk) ==> chunk.len()
            <= room),
        _ => false,
    }
}

proof fn one_more_read(
    a: ServerMeter,
    run: Seq<SocketEvent>,
    at: Seq<Instant>,
    mid: ServerMeter,
    b: ServerMeter,
    step: StreamStep,
)
    requires
        run.len() > 0,
        at.len() == run.len(),
        is_read(run.last()),
        a.transfer is TcpRecv,
        read_into(a, run.drop_last(), at.drop_last(), mid),
        mid.notes(moved_by(run.last()), at.last(), b, step),
    ensures
        read_into(a, run, at, b),
        step is Stop <==> {
            ||| moved_by(run.last()) == Ok::<usize, IoError>(0)
            ||| moved_by(run.last()) is Err && moved_by(run.last())->Err_0.kind
                != ErrorKind::Interrupted
        },
{
    let n = moved(run.last());
    if n > 0 {
        let first = match mid.receipt.first_byte_at {
            Some(f) => f,
            None => at.last(),
        };
        server_receipt_takes_a_delivery_at(mid.receipt, n as u64, at.last(), mid.omit, b.receipt);
        assert(opening(run, at, a.receipt.first_byte_at) == Some(first));
    } else {
        assert(b == mid);
    }
}

proof fn quiet_reads(a: ServerMeter, run: Seq<SocketEvent>, at: Seq<Instant>, b: ServerMeter)
    requires
        a.reads_quietly(run, at, b),
        a.transfer is TcpRecv,
    ensures
        read_into(a, run, at, b),
        at.len() == run.len(),
        forall|i: int| 0 <= i < run.len() ==> is_read(#[trigger] run[i]),
        forall|i: int| 0 <= i < run.len() ==> goes_on(#[trigger] run[i]),
    decreases run.len(),
{
    if run.len() > 0 {
        let mid = choose|mid: ServerMeter|
            {
                &&& a.reads_quietly(run.drop_last(), at.drop_last(), mid)
                &&& #[trigger] mid.notes(
                    moved_by(run.last()),
                    at.last(),
                    b,
                    StreamStep::Continue,
                )
            };
        quiet_reads(a, run.drop_last(), at.drop_last(), mid);
        one_more_read(a, run, at, mid, b, StreamStep::Continue);
        assert forall|i: int| 0 <= i < run.len() implies is_read(#[trigger] run[i]) && goes_on(
            run[i],
        ) by {
            if i < run.len() - 1 {
                assert(run[i] == run.drop_last()[i]);
            }
        }
    } else {
        assert(run =~= Seq::<SocketEvent>::empty());
    }
}

/// A read behind which a stream goes on: it brought bytes, or was interrupted.
pub open spec fn goes_on(call: SocketEvent) -> bool {
    match call {
        SocketEvent::Recv { got, .. } => match got {
            Ok(chunk) => chunk.len() > 0,
            Err(e) => e.kind == ErrorKind::Interrupted,
        },
        _ => false,
    }
}

/// A server reads from a stream, 128 KiB at a time, until the peer closes, a
/// read fails other than by an interruption, or a row is due. Its receipt
/// counts all bytes that came in, and those that came in early as omitted.
pub proof fn servers_count_what_comes_in(
    p: &mut Protocol,
    m: &mut ServerMeter,
    clock: &mut Clock,
    pause: StreamPause,
)
    requires
        call_ensures(recv_stream_bytes, (p, m, clock), pause),
        old(m).transfer is TcpRecv,
        old(m).wf(),
    ensures
        ({
            let run = final(p).log().skip(old(p).log().len() as int);
            let at = final(clock).log().skip(old(clock).log().len() as int);
            let a = old(m).receipt;
            let b = final(m).receipt;
            &&& old(p).log().is_prefix_of(final(p).log())
            &&& old(clock).log().is_prefix_of(final(clock).log())
            &&& run.len() > 0
            &&& at.len() == run.len()
            &&& forall|i: int| 0 <= i < run.len() ==> is_read(#[trigger] run[i])
            &&& forall|i: int| 0 <= i < run.len() - 1 ==> goes_on(#[trigger] run[i])
            &&& went_out(final(p).log(), old(p).log().len() as int).len() == 0
            &&& !(pause is Full) ==> {
                &&& b.bytes == a.bytes + came_in(final(p).log(), old(p).log().len() as int).len()
                &&& read_into(*old(m), run, at, *final(m))
                &&& pause is Over <==> moved_by(run.last()) == Ok::<usize, IoError>(0)
                &&& pause is Failed <==> !goes_on(run.last()) && moved_by(run.last()) is Err
                &&& pause matches StreamPause::Failed(e) ==> moved_by(run.last()) == Err::<
                    usize,
                    IoError,
                >(e)
                &&& old(m).reporter is None ==> !(pause is Report)
            }
        }),
{
    let run = calls(old(p).log(), final(p).log());
    let at = final(clock).log().skip(old(clock).log().len() as int);
    let a = *old(m);
    let b = *final(m);
    traffic(final(p).log(), old(p).log().len() as int);
    if pause is Quiet {
        quiet_reads(a, run, at, b);
    } else {
        let mid = choose|mid: ServerMeter|
            {
                &&& a.reads_quietly(run.drop_last(), at.drop_last(), mid)
                &&& #[trigger] mid.pauses_at(run.last(), at.last(), b, pause)
            };
        quiet_reads(a, run.drop_last(), at.drop_last(), mid);
        assert(is_read(run.last()));
        match pause {
            StreamPause::Report(s) => one_more_read(a, run, at, mid, b, StreamStep::Report(s)),
            StreamPause::Over | StreamPause::Failed(_) => one_more_read(
                a,
                run,
                at,
                mid,
                b,
                StreamStep::Stop,
            ),
            _ => {},
        }
        assert forall|i: int| 0 <= i < run.len() implies is_read(#[trigger] run[i]) by {
            if i < run.len() - 1 {
                assert(run[i] == run.drop_last()[i]);
            }
        }
        assert forall|i: int| 0 <= i < run.len() - 1 implies goes_on(#[trigger] run[i]) by {
            assert(run[i] == run.drop_last()[i]);
        }
    }
    reads_send_nothing(run);
}

proof fn reads_send_nothing(run: Seq<SocketEvent>)
    requires
        forall|i: int| 0 <= i < run.len() ==> is_read(#[trigger] run[i]),
    ensures
        sent_bytes(run).len() == 0,
    decreases run.len(),
{
    if run.len() > 0 {
        let head = run.drop_last();
        assert forall|i: int| 0 <= i < head.len() implies is_read(#[trigger] head[i]) by {
            assert(head[i] == run[i]);
        }
        reads_send_nothing(head);
        assert(is_read(run[run.len() - 1]));
    }
}

// ---------------------------------------------------------------------
// Writing.

/// A stream without a socket sends nothing; else the bytes are offered once.
pub proof fn streams_offer_their_bytes(s: &mut Stream, buf: &[u8], r: Result<usize, IoError>)
    requires
        call_ensures(Stream::send_data, (s, buf), r),
    ensures
        final(s).protocol is Some <==> old(s).protocol is Some,
        old(s).protocol is None ==> r == Ok::<usize, IoError>(0),
        old(s).protocol is Some ==> ({
            let before = old(s).protocol->0.log();
            let after = final(s).protocol->0.log();
            &&& after.len() == before.len() + 1
            &&& after.drop_last() == before
            &&& after.last() is Send
            &&& after.last()->data == buf@
            &&& r matches Ok(n) ==> n <= buf@.len() && went_out(after, before.len() as int)
                == buf@.take(n as int)
            &&& r is Err ==> went_out(after, before.len() as int).len() == 0
        }),
{
    if old(s).protocol is Some {
        let before = old(s).protocol->0.log();
        let after = final(s).protocol->0.log();
        assert(after.drop_last() =~= before);
        assert(went_out(before, before.len() as int) =~= Seq::<u8>::empty());
        if let Ok(n) = r {
            assert(went_out(after, before.len() as int) =~= buf@.take(n as int));
        }
    }
}

/// A client offers its payload once if the test is not over and the sender
/// not ahead of its rate. What the socket takes is counted, at the point in
/// time when the call came back.
pub proof fn clients_send_once(
    m: &mut StreamMeter,
    p: &mut Protocol,
    payload: &[u8],
    over: bool,
    at: Instant,
    clock: &mut Clock,
    pause: StreamPause,
)
    requires
        call_ensures(StreamMeter::send_once, (m, p, payload, over, at, clock), pause),
        old(m).wf(),
        old(m).transfer is TcpSend,
    ensures
        over <==> pause is Over,
        over || pause is Pause ==> *final(m) == *old(m) && final(p).log() == old(p).log(),
        !over && !(pause is Pause) ==> ({
            let call = final(p).log().last();
            let now = final(clock).log().last();
            let first = match old(m).receipt.first_send_at {
                Some(f) => f,
                None => now,
            };
            &&& final(p).log().len() == old(p).log().len() + 1
            &&& final(p).log().drop_last() == old(p).log()
            &&& call is Send
            &&& call->data == payload@
            &&& !(pause is Full) ==> {
                &&& final(m).receipt.bytes_sent == old(m).receipt.bytes_sent + moved(call)
                &&& final(m).bucket.bytes_sent == old(m).bucket.bytes_sent + moved(call)
                &&& final(m).receipt.bytes_omit == old(m).receipt.bytes_omit + (if age(first, now)
                    < old(m).omit.nanos {
                    moved(call)
                } else {
                    0
                })
                &&& moved(call) > 0 ==> final(m).receipt.last_send_at == Some(now)
                    && final(m).receipt.first_send_at == Some(first)
                &&& moved(call) == 0 ==> *final(m) == *old(m)
            }
            &&& pause is Failed <==> moved_by(call) is Err && moved_by(call)->Err_0.kind
                != ErrorKind::WouldBlock
            &&& pause matches StreamPause::Failed(e) ==> moved_by(call) == Err::<usize, IoError>(e)
            &&& pause is Report ==> moved(call) > 0
        }),
{
    if !over && !(pause is Pause) {
        let len = payload.len();
        assert(len == payload@.len());
        let call = final(p).log().last();
        let now = final(clock).log().last();
        if !(pause is Full) && moved(call) > 0 {
            client_receipt_takes_at(
                old(m).receipt,
                moved(call) as u64,
                now,
                old(m).omit,
                final(m).receipt,
            );
        }
    }
}

proof fn client_receipt_takes_at(
    a: crate::common::test::ClientStreamReceipt,
    n: u64,
    now: Instant,
    omit: Duration,
    b: crate::common::test::ClientStreamReceipt,
)
    requires
        b.account() == a.account().after(
            (crate::common::accounting::Delivery { bytes: n as nat, at: now }),
            omit,
        ),
    ensures
        ({
            let first = match a.first_send_at {
                Some(f) => f,
                None => now,
            };
            &&& b.bytes_sent == a.bytes_sent + n
            &&& b.bytes_omit == a.bytes_omit + (if age(first, now) < omit.nanos {
                n as int
            } else {
                0
            })
            &&& b.first_send_at == Some(first)
            &&& b.last_send_at == Some(now)
        }),
{
    let x = a.account();
    let y = b.account();
    assert(x.bytes == a.bytes_sent && x.omitted == a.bytes_omit && x.first == a.first_send_at);
    assert(y.bytes == b.bytes_sent && y.omitted == b.bytes_omit && y.first == b.first_send_at);
    assert(y.last == b.last_send_at);
}

/// A receipt of a client after some writes.
pub open spec fn sent_from(
    a: StreamMeter,
    run: Seq<SocketEvent>,
    at: Seq<Instant>,
    b: StreamMeter,
) -> bool {
    &&& b.receipt.bytes_sent == a.receipt.bytes_sent + moved_in_all(run)
    &&& b.bucket.bytes_sent == a.bucket.bytes_sent + moved_in_all(run)
    &&& b.receipt.bytes_omit == a.receipt.bytes_omit + moved_early(
        run,
        at,
        a.receipt.first_send_at,
        a.omit,
    )
    &&& b.receipt.first_send_at == opening(run, at, a.receipt.first_send_at)
    &&& b.receipt.last_send_at == closing(run, at, a.receipt.last_send_at)
    &&& b.receipt.stream_id == a.receipt.stream_id
    &&& b.receipt.packets == a.receipt.packets
    &&& b.bucket.rate_bps == a.bucket.rate_bps
    &&& b.bucket.start == a.bucket.start
    &&& b.omit == a.omit
    &&& b.transfer == a.transfer
}

/// A write that offers the payload.
pub open spec fn is_write(call: SocketEvent, payload: Seq<u8>) -> bool {
    match call {
        SocketEvent::Send { data, taken } => data == payload && (taken matches Ok(n) ==> n
            <= data.len()),
        _ => false,
    }
}

/// A write behind which a stream goes on: bytes were taken, or none yet.
pub open spec fn sends_on(call: SocketEvent) -> bool {
    match call {
        SocketEvent::Send { taken, .. } => taken matches Err(e) ==> e.kind == ErrorKind::WouldBlock,
        _ => false,
    }
}

/// Every other one of the readings, from the second on.
pub open spec fn seconds_of(times: Seq<Instant>) -> Seq<Instant> {
    Seq::new((times.len() / 2) as nat, |i: int| times[2 * i + 1])
}

proof fn one_more_write(
    a: StreamMeter,
    payload: Seq<u8>,
    run: Seq<SocketEvent>,
    at: Seq<Instant>,
    mid: StreamMeter,
    b: StreamMeter,
    step: StreamStep,
)
    requires
        run.len() > 0,
        at.len() == run.len(),
        is_write(run.last(), payload),
        payload.len() <= usize::MAX,
        a.transfer is TcpSend,
        a.bucket.bytes_sent == a.receipt.bytes_sent,
        sent_from(a, run.drop_last(), at.drop_last(), mid),
        mid.notes(moved_by(run.last()), at.last(), b, step),
    ensures
        sent_from(a, run, at, b),
        step is Stop <==> !sends_on(run.last()),
{
    let n = moved(run.last());
    if n > 0 {
        let first = match mid.receipt.first_send_at {
            Some(f) => f,
            None => at.last(),
        };
        client_receipt_takes_at(mid.receipt, n as u64, at.last(), mid.omit, b.receipt);
        assert(opening(run, at, a.receipt.first_send_at) == Some(first));
    } else {
        assert(b == mid);
    }
}

proof fn quiet_writes(
    a: StreamMeter,
    payload: Seq<u8>,
    run: Seq<SocketEvent>,
    times: Seq<Instant>,
    b: StreamMeter,
)
    requires
        a.sends_quietly(payload, run, times, b),
        payload.len() <= usize::MAX,
        a.transfer is TcpSend,
        a.bucket.bytes_sent == a.receipt.bytes_sent,
    ensures
        times.len() == 2 * run.len(),
        sent_from(a, run, seconds_of(times), b),
        forall|i: int|
            0 <= i < run.len() ==> is_write(#[trigger] run[i], payload) && sends_on(run[i]),
    decreases run.len(),
{
    if run.len() > 0 {
        let head = times.take(times.len() - 2);
        let mid = choose|mid: StreamMeter|
            {
                &&& a.sends_quietly(payload, run.drop_last(), head, mid)
                &&& #[trigger] mid.pauses_at(
                    run.last(),
                    times[times.len() - 2],
                    times.last(),
                    b,
                    StreamPause::Quiet,
                )
            };
        quiet_writes(a, payload, run.drop_last(), head, mid);
        let at = seconds_of(times);
        assert(at.drop_last() =~= seconds_of(head));
        assert(at.last() == times.last());
        one_more_write(a, payload, run, at, mid, b, StreamStep::Continue);
        assert forall|i: int| 0 <= i < run.len() implies is_write(#[trigger] run[i], payload)
            && sends_on(run[i]) by {
            if i < run.len() - 1 {
                assert(run[i] == run.drop_last()[i]);
            }
        }
    } else {
        assert(run =~= Seq::<SocketEvent>::empty());
    }
}

/// A client offers its payload again and again until the test is over, a
/// write fails other than because it would have to wait, the sender is ahead
/// of its rate, or a row is due. Its receipt counts all bytes that went out,
/// and those that went out early as omitted.
pub proof fn clients_count_what_goes_out(
    m: &mut StreamMeter,
    p: &mut Protocol,
    payload: &[u8],
    timer: &mut Clock,
    duration: Duration,
    clock: &mut Clock,
    pause: StreamPause,
)
    requires
        call_ensures(StreamMeter::send_bytes, (m, p, payload, timer, duration, clock), pause),
        old(m).wf(),
        old(m).transfer is TcpSend,
    ensures
        ({
            let run = final(p).log().skip(old(p).log().len() as int);
            let times = final(clock).log().skip(old(clock).log().len() as int);
            let asked = final(timer).log().skip(old(timer).log().len() as int);
            &&& old(p).log().is_prefix_of(final(p).log())
            &&& forall|i: int| 0 <= i < run.len() ==> is_write(#[trigger] run[i], payload@)
            &&& forall|i: int| 0 <= i < run.len() - 1 ==> sends_on(#[trigger] run[i])
            &&& forall|i: int|
                0 <= i < run.len() && i < asked.len() ==> (#[trigger] asked[i]).nanos
                    < duration.nanos
            &&& asked.len() >= run.len()
            &&& pause is Over <==> asked.len() > 0 && asked.last().nanos >= duration.nanos
            &&& pause is Failed <==> run.len() > 0 && !sends_on(run.last())
            &&& pause matches StreamPause::Failed(e) ==> moved_by(run.last()) == Err::<
                usize,
                IoError,
            >(e)
            &&& !(pause is Full) ==> {
                &&& final(m).receipt.bytes_sent == old(m).receipt.bytes_sent + went_out(
                    final(p).log(),
                    old(p).log().len() as int,
                ).len()
                &&& sent_from(*old(m), run, seconds_of(times), *final(m))
            }
        }),
{
    let run = calls(old(p).log(), final(p).log());
    let times = final(clock).log().skip(old(clock).log().len() as int);
    let asked = final(timer).log().skip(old(timer).log().len() as int);
    let a = *old(m);
    let b = *final(m);
    let len = payload.len();
    assert(len == payload@.len());
    traffic(final(p).log(), old(p).log().len() as int);
    match pause {
        StreamPause::Over | StreamPause::Quiet => {
            quiet_writes(a, payload@, run, times, b);
        },
        StreamPause::Pause(_) | StreamPause::TooFarAhead => {
            quiet_writes(a, payload@, run, times.drop_last(), b);
            assert(seconds_of(times) =~= seconds_of(times.drop_last()));
        },
        _ => {
            let head = times.take(times.len() - 2);
            let t = times[times.len() - 2];
            let mid = choose|mid: StreamMeter|
                {
                    &&& a.sends_quietly(payload@, run.drop_last(), head, mid)
                    &&& #[trigger] mid.pauses_at(run.last(), t, times.last(), b, pause)
                };
            quiet_writes(a, payload@, run.drop_last(), head, mid);
            let at = seconds_of(times);
            assert(at.drop_last() =~= seconds_of(head));
            assert(at.last() == times.last());
            assert(is_write(run.last(), payload@));
            match pause {
                StreamPause::Report(s) => one_more_write(
                    a,
                    payload@,
                    run,
                    at,
                    mid,
                    b,
                    StreamStep::Report(s),
                ),
                StreamPause::Failed(_) => one_more_write(
                    a,
                    payload@,
                    run,
                    at,
                    mid,
                    b,
                    StreamStep::Stop,
                ),
                _ => {},
            }
            assert forall|i: int| 0 <= i < run.len() implies is_write(#[trigger] run[i], payload@) by {
                if i < run.len() - 1 {
                    assert(run[i] == run.drop_last()[i]);
                }
            }
            assert forall|i: int| 0 <= i < run.len() - 1 implies sends_on(#[trigger] run[i]) by {
                assert(run[i] == run.drop_last()[i]);
            }
        },
    }
    if pause is Over {
        assert forall|i: int| 0 <= i < run.len() implies (#[trigger] asked[i]).nanos
            < duration.nanos by {
            assert(asked.drop_last()[i] == asked[i]);
        }
    }
}

} // verus!
