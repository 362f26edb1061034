//! How a session goes, on either side.

use vstd::prelude::*;

use crate::client::{client_recv, exchange_results, handle_message_client, on_stream_message};
use crate::client::{exchange_run, ClientAction, ClientStep, ResultsExchange, StreamTally};
use crate::common::cookie::COOKIE_LEN;
use crate::common::direction::Direction;
use crate::common::error::{ErrorKind, IoError};
use crate::common::message::Message;
use crate::common::protocol::{Protocol, SocketEvent};
use crate::common::session::{accept_streams_from_channel, take_stream, transport_allowed};
use crate::common::session::{Registry, Route, SessionHandle, StreamQueue};
use crate::common::test::Test;
use crate::common::time::Duration;
use crate::common::big_endian::be_value;
use crate::common::wire::{bytes_result, calls, frame_header, read_progress, received_bytes};
use crate::common::wire::{recv_frame_parts, recv_frame_run, send_frame_parts, send_frame_run};
use crate::common::wire::{sent_bytes, MAX_JSON_FRAME_LEN};
use crate::laws::control::{byte_of, came_in, is_frame, traffic, went_out};
use crate::script::{perform_on_control, server_step, ServerAction, ServerEvent, ServerPhase};

verus! {

// ---------------------------------------------------------------------
// The order of a session.

/// What a server does, one after the other, once its port for UDP is bound
/// where one is needed.
pub open spec fn turn(i: int) -> ServerAction {
    if i == 0 {
        ServerAction::SayCreateStreams
    } else if i == 1 {
        ServerAction::AcceptStreams
    } else if i == 2 {
        ServerAction::SayStartRunning
    } else if i == 3 {
        ServerAction::RunStreams
    } else if i == 4 {
        ServerAction::AwaitTestEnd
    } else if i == 5 {
        ServerAction::CollectReceipts
    } else if i == 6 {
        ServerAction::AskResults
    } else if i == 7 {
        ServerAction::SendResults
    } else if i == 8 {
        ServerAction::SayFarewell
    } else if i == 9 {
        ServerAction::ShowSummary
    } else {
        ServerAction::Rest
    }
}

/// What a server does, one after the other.
pub open spec fn agenda(udp: bool, i: int) -> ServerAction {
    if i == 0 {
        ServerAction::AskOptions
    } else if i == 1 {
        ServerAction::Admit
    } else if udp && i == 2 {
        ServerAction::BindUdp
    } else if udp {
        turn(i - 3)
    } else {
        turn(i - 2)
    }
}

spec fn stage(j: int) -> ServerPhase {
    if j == 0 {
        ServerPhase::Opening
    } else if j == 1 {
        ServerPhase::Accepting
    } else if j == 2 {
        ServerPhase::Starting
    } else if j == 3 {
        ServerPhase::Running
    } else if j == 4 {
        ServerPhase::Awaiting
    } else if j == 5 {
        ServerPhase::Collecting
    } else if j == 6 {
        ServerPhase::Asking
    } else if j == 7 {
        ServerPhase::Answering
    } else if j == 8 {
        ServerPhase::Ending
    } else {
        ServerPhase::Over
    }
}

proof fn stage_by_stage(
    phases: Seq<ServerPhase>,
    actions: Seq<ServerAction>,
    events: Seq<ServerEvent>,
    udp: bool,
    k: int,
)
    requires
        0 <= k < actions.len(),
        phases.len() == actions.len() + 1,
        events.len() == actions.len(),
        phases[0] is Greeted,
        forall|i: int| 0 <= i < events.len() ==> #[trigger] events[i] is Done,
        forall|i: int|
            0 <= i < actions.len() ==> call_ensures(
                server_step,
                (phases[i], &events[i], udp),
                (phases[i + 1], #[trigger] actions[i]),
            ),
    ensures
        actions[k] == agenda(udp, k),
        phases[k + 1] == (if k == 0 {
            ServerPhase::Negotiating
        } else if k == 1 {
            ServerPhase::Admitting
        } else if udp && k == 2 {
            ServerPhase::Binding
        } else if udp {
            stage(k - 3)
        } else {
            stage(k - 2)
        }),
    decreases k,
{
    if k > 0 {
        stage_by_stage(phases, actions, events, udp, k - 1);
    }
    assert(events[k] is Done);
    let a = actions[k];
    assert(call_ensures(server_step, (phases[k], &events[k], udp), (phases[k + 1], a)));
}

/// As long as everything works, a server goes through its agenda step by
/// step, and rests behind its end.
pub proof fn servers_go_through_their_agenda(
    phases: Seq<ServerPhase>,
    actions: Seq<ServerAction>,
    events: Seq<ServerEvent>,
    udp: bool,
)
    requires
        phases.len() == actions.len() + 1,
        events.len() == actions.len(),
        phases[0] is Greeted,
        forall|i: int| 0 <= i < events.len() ==> #[trigger] events[i] is Done,
        forall|i: int|
            0 <= i < actions.len() ==> call_ensures(
                server_step,
                (phases[i], &events[i], udp),
                (phases[i + 1], #[trigger] actions[i]),
            ),
    ensures
        forall|i: int| 0 <= i < actions.len() ==> #[trigger] actions[i] == agenda(udp, i),
{
    assert forall|i: int| 0 <= i < actions.len() implies #[trigger] actions[i] == agenda(
        udp,
        i,
    ) by {
        stage_by_stage(phases, actions, events, udp, i);
    }
}

/// Where something fails, whatever it is and whenever it does, the session is
/// abandoned, and nothing follows.
pub proof fn sessions_that_fail_are_abandoned(
    phase: ServerPhase,
    e: IoError,
    udp: bool,
    step: (ServerPhase, ServerAction),
    other: ServerEvent,
    next: (ServerPhase, ServerAction),
)
    requires
        call_ensures(server_step, (phase, &ServerEvent::Failed(e), udp), step),
        other is Done,
        call_ensures(server_step, (step.0, &other, udp), next),
    ensures
        step.1 is Abandon,
        next.1 is Rest,
        next.0 == step.0,
{
}

/// What each step of a session puts on the control channel and takes from it.
pub proof fn steps_go_over_the_control_channel(
    p: &mut Protocol,
    action: ServerAction,
    results: &[u8],
    r: Result<Vec<u8>, IoError>,
)
    requires
        call_ensures(perform_on_control, (p, action, results), r),
    ensures
        old(p).log().is_prefix_of(final(p).log()),
        r is Ok ==> ({
            let out = went_out(final(p).log(), old(p).log().len() as int);
            let got = came_in(final(p).log(), old(p).log().len() as int);
            match action {
                ServerAction::AskOptions => out == seq![9u8] && is_frame(got, r->Ok_0@),
                ServerAction::AskResults => out == seq![13u8] && is_frame(got, r->Ok_0@),
                ServerAction::SayCreateStreams => out == seq![10u8] && got.len() == 0
                    && r->Ok_0@.len() == 0,
                ServerAction::SayStartRunning => out == seq![1u8, 2u8] && r->Ok_0@.len() == 0,
                ServerAction::AwaitTestEnd => out.len() == 0 && got.len() > 0 && got.last() == 4
                    && r->Ok_0@.len() == 0,
                ServerAction::SendResults => is_frame(out, results@) && r->Ok_0@.len() == 0,
                ServerAction::SayFarewell => out == seq![14u8] && got.len() > 0 && got.last() == 16
                    && r->Ok_0@.len() == 0,
                _ => final(p).log() == old(p).log() && r->Ok_0@.len() == 0,
            }
        }),
        r is Err ==> final(p).log().len() > old(p).log().len() || action is SendResults
            && results@.len() > u32::MAX,
{
    let run = calls(old(p).log(), final(p).log());
    traffic(final(p).log(), old(p).log().len() as int);
    if r is Ok {
        let v = r->Ok_0@;
        match action {
            ServerAction::AskOptions => {
                crate::server::question_on_the_wire(Message::ParamExchange, run, v);
                crate::laws::control::answer_fits(Message::ParamExchange, run, v);
                crate::laws::control::header_and_body_are_a_frame(v);
            },
            ServerAction::AskResults => {
                crate::server::question_on_the_wire(Message::ExchangeResults, run, v);
                crate::laws::control::answer_fits(Message::ExchangeResults, run, v);
                crate::laws::control::header_and_body_are_a_frame(v);
            },
            ServerAction::SayCreateStreams => {
                crate::common::wire::write_sends_the_buffer(seq![10u8], run, Ok(()));
                crate::common::wire::write_receives_nothing(seq![10u8], run, Ok(()));
            },
            ServerAction::SayStartRunning => {
                crate::server::start_on_the_wire(Message::TestStart, Message::TestRunning, run);
            },
            ServerAction::AwaitTestEnd => {
                crate::server::wait_on_the_wire(run, Message::TestEnd);
            },
            ServerAction::SendResults => {
                crate::common::wire::frame_on_the_wire(results@, run, Ok(()));
                crate::laws::control::header_and_body_are_a_frame(results@);
            },
            ServerAction::SayFarewell => {
                crate::server::farewell_on_the_wire(run);
            },
            _ => {
                assert(final(p).log() =~= old(p).log());
            },
        }
    }
}

// ---------------------------------------------------------------------
// The client.

/// What a client does with a message.
pub proof fn clients_do_as_they_are_told(t: &mut Test, m: Message, step: ClientStep)
    requires
        call_ensures(handle_message_client, (t, m), step),
    ensures
        byte_of(m) == 9 ==> step.action is SendOptions,
        byte_of(m) == 10 ==> step.action is CreateStreams,
        byte_of(m) == 1 ==> step.action is Started,
        byte_of(m) == 2 ==> (step.action matches ClientAction::Running { show_header }
            && show_header == !old(t).config.json),
        byte_of(m) == 13 ==> step.action is ExchangeResults,
        byte_of(m) == 14 ==> (step.action matches ClientAction::SaidDone(told) && (told is Some
            <==> old(t).control_channel is Some)),
        byte_of(m) == 16 ==> step.action is ServerDone,
        ![1u8, 2, 9, 10, 13, 14, 16]@.contains(byte_of(m)) ==> step.action is Unknown,
        step.done <==> byte_of(m) == 14 || byte_of(m) == 16,
        final(t).is_started <==> old(t).is_started || byte_of(m) == 1,
        final(t).is_running <==> old(t).is_running || byte_of(m) == 2,
        final(t).config == old(t).config,
        final(t).receipts == old(t).receipts,
        final(t).cpu_start == old(t).cpu_start,
        final(t).control_channel is Some <==> old(t).control_channel is Some,
        old(t).control_channel is Some ==> ({
            let before = old(t).control_channel->0.log();
            let after = final(t).control_channel->0.log();
            let out = went_out(after, before.len() as int);
            &&& before.is_prefix_of(after)
            &&& byte_of(m) != 14 ==> after == before
            &&& byte_of(m) == 14 ==> out == seq![16u8] || out.len() == 0
            &&& byte_of(m) == 14 && step.action->SaidDone_0->0 is Ok ==> out == seq![16u8]
            &&& came_in(after, before.len() as int).len() == 0
        }),
{
    let s = [1u8, 2, 9, 10, 13, 14, 16]@;
    assert(s[0] == 1 && s[1] == 2 && s[2] == 9 && s[3] == 10 && s[4] == 13 && s[5] == 14 && s[6]
        == 16);
    if old(t).control_channel is Some {
        let before = old(t).control_channel->0.log();
        let after = final(t).control_channel->0.log();
        let run = calls(before, after);
        traffic(after, before.len() as int);
        if m == Message::DisplayResults {
            let r = step.action->SaidDone_0->0;
            crate::common::wire::write_sends_the_buffer(seq![16u8], run, r);
            crate::common::wire::write_receives_nothing(seq![16u8], run, r);
        } else {
            assert(run =~= Seq::<SocketEvent>::empty());
        }
    }
}

/// A client without a control channel is done. Else it reads one byte: what
/// the byte stands for is what it is told. Where there is none yet it goes on,
/// and other faults are told.
pub proof fn clients_read_a_message_at_a_time(t: &mut Test, step: ClientStep)
    requires
        call_ensures(client_recv, (t,), step),
    ensures
        old(t).control_channel is None ==> step.action is NoChannel && step.done && *final(t)
            == *old(t),
        final(t).config == old(t).config,
        old(t).control_channel is Some ==> final(t).control_channel is Some && ({
            let before = old(t).control_channel->0.log();
            let after = final(t).control_channel->0.log();
            let got = came_in(after, before.len() as int);
            &&& before.is_prefix_of(after)
            &&& after.len() > before.len()
            &&& !(step.action is Nothing || step.action is ReportError) ==> {
                &&& got.len() == 1
                &&& step.action is SendOptions <==> got[0] == 9
                &&& step.action is CreateStreams <==> got[0] == 10
                &&& step.action is Started <==> got[0] == 1
                &&& step.action is Running <==> got[0] == 2
                &&& step.action is ExchangeResults <==> got[0] == 13
                &&& step.action is SaidDone <==> got[0] == 14
                &&& step.action is ServerDone <==> got[0] == 16
                &&& step.done <==> got[0] == 14 || got[0] == 16
                &&& final(t).is_started <==> old(t).is_started || got[0] == 1
                &&& final(t).is_running <==> old(t).is_running || got[0] == 2
            }
            &&& step.action is Nothing || step.action is ReportError ==> {
                &&& !step.done
                &&& final(t).is_started == old(t).is_started
                &&& final(t).is_running == old(t).is_running
            }
            &&& !(step.action is NoChannel)
            &&& step.action matches ClientAction::ReportError(e) ==> e.kind
                != ErrorKind::WouldBlock
        }),
{
    if old(t).control_channel is Some {
        let p = old(t).control_channel->0;
        let (mid, read) = choose|mid: Test, read: Result<Message, IoError>|
            {
                &&& #[trigger] crate::client::recv_step(mid, read, *final(t), step)
                &&& mid == (Test { control_channel: mid.control_channel, ..*old(t) })
                &&& mid.control_channel matches Some(q) && crate::common::wire::extends(
                    p.log(),
                    q.log(),
                ) && crate::common::wire::control_run(calls(p.log(), q.log()), read)
            };
        let q = mid.control_channel->0;
        let before = p.log();
        let after = final(t).control_channel->0.log();
        let first = calls(before, q.log());
        let second = calls(q.log(), after);
        crate::common::wire::control_run_is_one_call(first, read);
        traffic(after, before.len() as int);
        assert(calls(before, after) =~= first + second);
        crate::common::wire::received_bytes_compose(first, second);
        if let Ok(m) = read {
            assert(m.spec_byte() == byte_of(m));
            crate::common::wire::message_as_it_arrived(first, m);
            if m == Message::DisplayResults {
                let r = step.action->SaidDone_0->0;
                crate::common::wire::write_receives_nothing(seq![16u8], second, r);
            } else {
                assert(second =~= Seq::<SocketEvent>::empty());
            }
            assert(received_bytes(second) =~= Seq::<u8>::empty());
        }
    }
}

/// Streams that end are counted one by one, whether they send or receive.
/// When all have ended, as many as run at once and twice that if they go both
/// ways, the server is told by a byte of 4, once.
pub proof fn the_end_is_told_when_all_streams_ended(
    t: &mut Test,
    tally: &mut StreamTally,
    m: Message,
    told: Option<Result<(), IoError>>,
)
    requires
        call_ensures(on_stream_message, (t, tally, m), told),
        old(tally).finished < u32::MAX,
    ensures
        final(tally).finished == old(tally).finished + (if byte_of(m) == 4 {
            1int
        } else {
            0
        }),
        final(tally).test_end_sent <==> old(tally).test_end_sent || told is Some,
        ({
            let each = if old(t).config.parallel == 0 {
                1int
            } else {
                old(t).config.parallel as int
            };
            let all = if old(t).config.direction == Direction::Bidirectional {
                each + each
            } else {
                each
            };
            told is Some <==> old(t).control_channel is Some && byte_of(m) == 4
                && !old(tally).test_end_sent && final(tally).finished >= all
        }),
        final(t).config == old(t).config,
        final(t).receipts == old(t).receipts,
        final(t).cpu_start == old(t).cpu_start,
        final(t).is_started == old(t).is_started,
        final(t).is_running == old(t).is_running,
        final(t).control_channel is Some <==> old(t).control_channel is Some,
        old(t).control_channel is Some ==> ({
            let before = old(t).control_channel->0.log();
            let after = final(t).control_channel->0.log();
            let out = went_out(after, before.len() as int);
            &&& before.is_prefix_of(after)
            &&& told is None ==> after == before
            &&& told == Some(Ok::<(), IoError>(())) ==> out == seq![4u8]
            &&& came_in(after, before.len() as int).len() == 0
        }),
{
    if old(t).control_channel is Some {
        let before = old(t).control_channel->0.log();
        let after = final(t).control_channel->0.log();
        let run = calls(before, after);
        traffic(after, before.len() as int);
        if told is Some {
            crate::common::wire::write_sends_the_buffer(seq![4u8], run, told->0);
            crate::common::wire::write_receives_nothing(seq![4u8], run, told->0);
        } else {
            assert(run =~= Seq::<SocketEvent>::empty());
        }
    }
    let each = crate::client::stream_count(old(t).config);
    assert(each * 2 == each + each);
}

/// No stream has ended at first.
pub proof fn no_stream_has_ended_at_first(tally: StreamTally)
    requires
        call_ensures(StreamTally::new, (), tally),
    ensures
        tally.finished == 0,
        !tally.test_end_sent,
{
}

/// Results go out as a frame; those of the server come in as one, on a socket
/// that waits for them; and behind that the socket does not wait any more.
pub proof fn results_are_exchanged(p: &mut Protocol, body: &[u8], x: ResultsExchange)
    requires
        call_ensures(exchange_results, (p, body), x),
    ensures
        old(p).log().is_prefix_of(final(p).log()),
        !(x is NotSent) ==> is_frame(
            went_out(final(p).log(), old(p).log().len() as int),
            body@,
        ),
        x matches ResultsExchange::Read { frame, restored } ==> {
            let last = final(p).log().last();
            &&& frame matches Ok(v) ==> is_frame(
                came_in(final(p).log(), old(p).log().len() as int),
                v@,
            )
            &&& last is Nonblocking
            &&& last->nonblocking
            &&& last->Nonblocking_outcome == restored
        },
        body@.len() > u32::MAX ==> x is NotSent,
{
    let run = calls(old(p).log(), final(p).log());
    traffic(final(p).log(), old(p).log().len() as int);
    match x {
        ResultsExchange::NotSent(_) => {},
        ResultsExchange::NotBlocking(_) => {
            let head = run.drop_last();
            crate::common::wire::frame_on_the_wire(body@, head, Ok(()));
            crate::laws::control::header_and_body_are_a_frame(body@);
            assert(run =~= head + seq![run.last()]);
            crate::common::wire::sent_bytes_compose(head, seq![run.last()]);
            silent(seq![run.last()]);
            assert(sent_bytes(run) =~= sent_bytes(head));
        },
        ResultsExchange::Read { .. } => {
            frames_go_out_and_come_in(body@, run, x);
            assert(final(p).log().last() == run.last());
        },
    }
}

proof fn frames_go_out_and_come_in(body: Seq<u8>, run: Seq<SocketEvent>, x: ResultsExchange)
    requires
        exchange_run(body, run, x),
        x is Read,
    ensures
        body.len() <= u32::MAX,
        is_frame(sent_bytes(run), body),
        x->frame is Ok ==> is_frame(received_bytes(run), x->frame->Ok_0@),
        run.len() > 0,
        run.last() == (SocketEvent::Nonblocking { nonblocking: true, outcome: x->restored }),
{
    let f = bytes_result(x->frame);
    let k = choose|k: int|
        {
            &&& 0 <= k
            &&& k + 1 < run.len()
            &&& send_frame_run(body, #[trigger] run.take(k), Ok(()))
            &&& match run[k] {
                SocketEvent::Nonblocking { nonblocking, outcome } => !nonblocking && outcome is Ok,
                _ => false,
            }
            &&& recv_frame_run(run.subrange(k + 1, run.len() - 1), f)
            &&& run.last() == (SocketEvent::Nonblocking {
                nonblocking: true,
                outcome: x->restored,
            })
        };
    let a = run.take(k);
    let b = seq![run[k]];
    let c = run.subrange(k + 1, run.len() - 1);
    let d = seq![run.last()];
    four_parts(run, a, b, c, d);
    silent(b);
    silent(d);
    crate::common::wire::frame_on_the_wire(body, a, Ok(()));
    crate::laws::control::header_and_body_are_a_frame(body);
    reading_a_frame_sends_nothing(c, f);
    sending_a_frame_receives_nothing(body, a);
    assert(sent_bytes(run) =~= sent_bytes(a));
    assert(received_bytes(run) =~= received_bytes(c));
    if x->frame is Ok {
        let v = x->frame->Ok_0@;
        crate::common::wire::frame_as_it_arrived(c, v);
        crate::laws::control::header_and_body_are_a_frame(v);
    }
}

proof fn four_parts(
    run: Seq<SocketEvent>,
    a: Seq<SocketEvent>,
    b: Seq<SocketEvent>,
    c: Seq<SocketEvent>,
    d: Seq<SocketEvent>,
)
    requires
        run =~= a + (b + (c + d)),
    ensures
        sent_bytes(run) == sent_bytes(a) + (sent_bytes(b) + (sent_bytes(c) + sent_bytes(d))),
        received_bytes(run) == received_bytes(a) + (received_bytes(b) + (received_bytes(c)
            + received_bytes(d))),
{
    crate::common::wire::sent_bytes_compose(a, b + (c + d));
    crate::common::wire::sent_bytes_compose(b, c + d);
    crate::common::wire::sent_bytes_compose(c, d);
    crate::common::wire::received_bytes_compose(a, b + (c + d));
    crate::common::wire::received_bytes_compose(b, c + d);
    crate::common::wire::received_bytes_compose(c, d);
}

proof fn silent(run: Seq<SocketEvent>)
    requires
        run.len() == 1,
        run[0] is Nonblocking,
    ensures
        sent_bytes(run) == Seq::<u8>::empty(),
        received_bytes(run) == Seq::<u8>::empty(),
{
    let none = run.drop_last();
    assert(none.len() == 0);
    assert(sent_bytes(none) =~= Seq::<u8>::empty());
    assert(received_bytes(none) =~= Seq::<u8>::empty());
}

proof fn reading_a_frame_sends_nothing(run: Seq<SocketEvent>, r: Result<Seq<u8>, IoError>)
    requires
        recv_frame_run(run, r),
    ensures
        sent_bytes(run) == Seq::<u8>::empty(),
{
    let closed = "peer closed mid-frame"@;
    let k = choose|k: int|
        0 <= k <= run.len() && recv_frame_parts(#[trigger] run.take(k), run.skip(k), r);
    let head = run.take(k);
    let rest = run.skip(k);
    assert(run =~= head + rest);
    crate::common::wire::sent_bytes_compose(head, rest);
    match read_progress(4, head) {
        Some(h) if h.len() == 4 => {
            crate::common::wire::read_progress_sends_nothing(4, head);
            if be_value(h) <= MAX_JSON_FRAME_LEN {
                crate::common::wire::read_sends_nothing(be_value(h), rest, closed, r);
            }
        },
        _ => {
            crate::common::wire::read_sends_nothing(4, head, closed, Err(r->Err_0));
        },
    }
    assert(sent_bytes(run) =~= Seq::<u8>::empty());
}

proof fn sending_a_frame_receives_nothing(body: Seq<u8>, run: Seq<SocketEvent>)
    requires
        send_frame_run(body, run, Ok(())),
    ensures
        received_bytes(run) == Seq::<u8>::empty(),
{
    let k = choose|k: int|
        0 <= k <= run.len() && send_frame_parts(body, #[trigger] run.take(k), run.skip(k), Ok(()));
    let head = run.take(k);
    let rest = run.skip(k);
    assert(run =~= head + rest);
    crate::common::big_endian::be_bytes_len(body.len(), 4);
    crate::common::wire::write_receives_nothing(frame_header(body), head, Ok(()));
    crate::common::wire::write_receives_nothing(body, rest, Ok(()));
    crate::common::wire::received_bytes_compose(head, rest);
    assert(received_bytes(run) =~= Seq::<u8>::empty());
}

// ---------------------------------------------------------------------
// Sessions of a server.

/// A session with this cookie runs.
pub open spec fn runs(r: Registry, cookie: Seq<u8>) -> bool {
    exists|i: int| 0 <= i < r.sessions@.len() && (#[trigger] r.sessions@[i]).cookie@ == cookie
}

proof fn cookies_are_those_of_sessions(r: Registry, cookie: Seq<u8>)
    ensures
        r.cookies().contains(cookie) <==> runs(r, cookie),
{
    if r.cookies().contains(cookie) {
        let i = choose|i: int| 0 <= i < r.cookies().len() && r.cookies()[i] == cookie;
        assert(r.sessions@[i].cookie@ == cookie);
    }
    if runs(r, cookie) {
        let i = choose|i: int|
            0 <= i < r.sessions@.len() && (#[trigger] r.sessions@[i]).cookie@ == cookie;
        assert(r.cookies()[i] == cookie);
    }
}

/// A connection whose cookie is that of a running session is one of its data
/// streams. With another cookie it asks for a session of its own, and is told
/// that the server is busy where as many run as may.
pub proof fn connections_go_by_their_cookie(
    r: &Registry,
    cookie: [u8; COOKIE_LEN],
    route: Route,
)
    requires
        r.wf(),
        call_ensures(Registry::route, (r, &cookie), route),
    ensures
        route is DataStream <==> runs(*r, cookie@),
        route matches Route::DataStream(i) ==> r.sessions@[i as int].cookie@ == cookie@,
        route is Busy <==> !runs(*r, cookie@) && r.sessions@.len() >= r.max_concurrent,
        route is NewSession <==> !runs(*r, cookie@) && r.sessions@.len() < r.max_concurrent,
{
    cookies_are_those_of_sessions(*r, cookie@);
}

/// No session runs at first.
pub proof fn no_session_runs_at_first(most: u32, r: Registry, cookie: Seq<u8>)
    requires
        call_ensures(Registry::new, (most,), r),
    ensures
        !runs(r, cookie),
        r.max_concurrent == most,
        r.sessions@.len() == 0,
{
}

/// A session that is entered runs, with the handle it was entered with; the
/// others run on.
pub proof fn sessions_run_once_entered(
    r: &mut Registry,
    cookie: [u8; COOKIE_LEN],
    handle: SessionHandle,
    other: Seq<u8>,
)
    requires
        call_ensures(Registry::insert, (r, cookie, handle), ()),
    ensures
        runs(*final(r), other) <==> runs(*old(r), other) || other == cookie@,
        final(r).sessions@.len() == old(r).sessions@.len() + 1,
        final(r).sessions@.last().cookie == cookie,
        final(r).sessions@.last().handle == handle,
        forall|i: int|
            0 <= i < old(r).sessions@.len() ==> #[trigger] final(r).sessions@[i]
                == old(r).sessions@[i],
        final(r).max_concurrent == old(r).max_concurrent,
{
    let n = old(r).sessions@.len() as int;
    if runs(*old(r), other) {
        let i = choose|i: int|
            0 <= i < old(r).sessions@.len() && (#[trigger] old(r).sessions@[i]).cookie@ == other;
        assert(final(r).sessions@[i].cookie@ == other);
    }
    assert(final(r).sessions@[n].cookie@ == cookie@);
    if runs(*final(r), other) && other != cookie@ {
        let i = choose|i: int|
            0 <= i < final(r).sessions@.len() && (#[trigger] final(r).sessions@[i]).cookie@
                == other;
        assert(old(r).sessions@[i].cookie@ == other);
    }
}

/// A session that is removed does not run any more; the others run on.
pub proof fn sessions_run_until_removed(
    r: &mut Registry,
    cookie: [u8; COOKIE_LEN],
    other: Seq<u8>,
)
    requires
        call_ensures(Registry::remove, (r, &cookie), ()),
    ensures
        runs(*final(r), other) <==> runs(*old(r), other) && other != cookie@,
        old(r).sessions@.len() == final(r).sessions@.len() + (if runs(*old(r), cookie@) {
            1int
        } else {
            0
        }),
        forall|j: int|
            0 <= j < final(r).sessions@.len() ==> old(r).sessions@.contains(
                #[trigger] final(r).sessions@[j],
            ),
        final(r).max_concurrent == old(r).max_concurrent,
{
    cookies_are_those_of_sessions(*old(r), cookie@);
    cookies_are_those_of_sessions(*final(r), cookie@);
    let before = old(r).sessions@;
    let after = final(r).sessions@;
    if runs(*old(r), cookie@) {
        let k = choose|k: int|
            0 <= k < before.len() && before[k].cookie@ == cookie@ && after
                == #[trigger] before.remove(k);
        assert forall|j: int| 0 <= j < after.len() implies before.contains(#[trigger] after[j]) by {
            if j < k {
                assert(after[j] == before[j]);
            } else {
                assert(after[j] == before[j + 1]);
            }
        }
        if runs(*old(r), other) && other != cookie@ {
            let i = choose|i: int|
                0 <= i < before.len() && (#[trigger] before[i]).cookie@ == other;
            if i < k {
                assert(after[i].cookie@ == other);
            } else {
                assert(after[i - 1].cookie@ == other);
            }
        }
        if runs(*final(r), other) {
            let i = choose|i: int|
                0 <= i < after.len() && (#[trigger] after[i]).cookie@ == other;
            if i < k {
                assert(before[i].cookie@ == other);
            } else {
                assert(before[i + 1].cookie@ == other);
            }
        }
    } else {
        assert forall|j: int| 0 <= j < after.len() implies before.contains(#[trigger] after[j]) by {
            assert(before[j] == after[j]);
        }
    }
}

/// UDP goes only where one test runs at a time; TCP always.
pub proof fn udp_goes_alone(most: u32, a: bool, b: bool)
    requires
        call_ensures(transport_allowed, (most, true), a),
        call_ensures(transport_allowed, (most, false), b),
    ensures
        a <==> most < 2,
        b,
{
}

/// A connection that came is handed on. Where none did, that is told: in time
/// if there was a limit, and else at all.
pub proof fn data_streams_are_handed_on(
    got: Option<Protocol>,
    timeout: Option<Duration>,
    r: Result<Protocol, IoError>,
)
    requires
        call_ensures(take_stream, (got, timeout), r),
    ensures
        got matches Some(p) ==> r == Ok::<Protocol, IoError>(p),
        got is None ==> r is Err,
        got is None && timeout is Some ==> r->Err_0.kind == ErrorKind::TimedOut
            && r->Err_0.message@ == "timed out waiting for data stream"@,
        got is None && timeout is None ==> r->Err_0.kind == ErrorKind::UnexpectedEof
            && r->Err_0.message@ == "data-stream channel closed"@,
{
}

/// As many connections are awaited as streams were asked for, each no longer
/// than the limit, and handed on in the order they came. The first that does
/// not come ends that.
pub proof fn data_streams_are_awaited_one_by_one(
    q: &mut StreamQueue,
    n: u32,
    timeout: Option<Duration>,
    r: Result<Vec<Protocol>, IoError>,
)
    requires
        call_ensures(accept_streams_from_channel, (q, n, timeout), r),
    ensures
        ({
            let from = old(q).log().len() as int;
            let log = final(q).log();
            &&& old(q).log().is_prefix_of(log)
            &&& log.len() <= from + n
            &&& forall|i: int|
                from <= i < log.len() ==> match (#[trigger] log[i]).limit {
                    None => timeout is None,
                    Some((secs, nanos)) => timeout is Some && nanos < 1_000_000_000
                        && timeout->0.nanos == secs * 1_000_000_000 + nanos,
                }
            &&& r matches Ok(streams) ==> {
                &&& streams@.len() == n
                &&& log.len() == from + n
                &&& forall|i: int|
                    0 <= i < n ==> #[trigger] streams@[i] == log[from + i].got->0 && log[from
                        + i].got is Some
            }
            &&& r matches Err(e) ==> {
                &&& log.len() > from
                &&& log.last().got is None
                &&& forall|i: int| from <= i < log.len() - 1 ==> (#[trigger] log[i]).got is Some
                &&& e.kind == (if timeout is Some {
                    ErrorKind::TimedOut
                } else {
                    ErrorKind::UnexpectedEof
                })
            }
        }),
{
    let from = old(q).log().len() as int;
    let log = final(q).log();
    let run = log.skip(from);
    assert forall|i: int| from <= i < log.len() implies #[trigger] log[i] == run[i - from] by {}
    if let Ok(streams) = r {
        assert forall|i: int| 0 <= i < n implies #[trigger] streams@[i] == log[from + i].got->0
            && log[from + i].got is Some by {
            assert(run[i].got == Some(streams@[i]));
        }
    }
}

} // verus!
