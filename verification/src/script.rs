//! The order of a session on the server's side: what it does next, given
//! where it stands and what came of what it did last.

use vstd::prelude::*;

use crate::common::error::IoError;
use crate::common::message::Message;
use crate::common::protocol::{Protocol, SocketEvent};
use crate::common::wire::{bytes_result, calls, extends, frame_header, frame_on_the_wire};
use crate::common::wire::{received_bytes, received_bytes_compose, send_control_byte};
use crate::common::wire::{send_frame_run, send_framed_json, sent_bytes, sent_bytes_compose};
use crate::common::wire::{write_run, write_sends_the_buffer};
use crate::server::{ask_run, farewell_on_the_wire, finalize_run, finalize_test};
use crate::server::{negotiate_options, question_on_the_wire, request_results};
use crate::server::{send_test_start_running, start_on_the_wire, two_messages_run};
use crate::server::{wait_for_test_end, wait_on_the_wire, wait_run};

verus! {

/// Where a session stands.
#[derive(Debug, Clone, Copy, PartialEq, Eq, Structural)]
pub enum ServerPhase {
    /// The client has shown its cookie.
    Greeted,
    /// The client is asked for its options.
    Negotiating,
    /// The options are decided on.
    Admitting,
    /// The socket for datagrams is bound.
    Binding,
    /// The client is told to open its streams.
    Opening,
    /// The streams come in.
    Accepting,
    /// The client is told that the test starts and runs.
    Starting,
    /// The streams are set going.
    Running,
    /// The client is to say that the test is over.
    Awaiting,
    /// The streams hand in their receipts.
    Collecting,
    /// The client is asked for its results.
    Asking,
    /// The server sends its own results.
    Answering,
    /// The two sides take leave of each other.
    Ending,
    /// The session is over.
    Over,
}

/// What a session does next.
#[derive(Debug, Clone, Copy, PartialEq, Eq, Structural)]
pub enum ServerAction {
    AskOptions,
    Admit,
    BindUdp,
    SayCreateStreams,
    AcceptStreams,
    SayStartRunning,
    RunStreams,
    AwaitTestEnd,
    CollectReceipts,
    AskResults,
    SendResults,
    SayFarewell,
    ShowSummary,
    /// Something failed: the connections are dropped.
    Abandon,
    /// Nothing is left to do.
    Rest,
}

/// What came of the last thing that a session did.
pub enum ServerEvent {
    Done,
    Failed(IoError),
}

/// What a session does next. Each step follows on the success of the one
/// before it, and a test over UDP binds its socket before the client is told
/// to open streams; the first failure ends the session.
pub open spec fn server_script(phase: ServerPhase, event: ServerEvent, udp: bool) -> (
    ServerPhase,
    ServerAction,
) {
    match event {
        ServerEvent::Failed(_) => (ServerPhase::Over, ServerAction::Abandon),
        ServerEvent::Done => match phase {
            ServerPhase::Greeted => (ServerPhase::Negotiating, ServerAction::AskOptions),
            ServerPhase::Negotiating => (ServerPhase::Admitting, ServerAction::Admit),
            ServerPhase::Admitting => if udp {
                (ServerPhase::Binding, ServerAction::BindUdp)
            } else {
                (ServerPhase::Opening, ServerAction::SayCreateStreams)
            },
            ServerPhase::Binding => (ServerPhase::Opening, ServerAction::SayCreateStreams),
            ServerPhase::Opening => (ServerPhase::Accepting, ServerAction::AcceptStreams),
            ServerPhase::Accepting => (ServerPhase::Starting, ServerAction::SayStartRunning),
            ServerPhase::Starting => (ServerPhase::Running, ServerAction::RunStreams),
            ServerPhase::Running => (ServerPhase::Awaiting, ServerAction::AwaitTestEnd),
            ServerPhase::Awaiting => (ServerPhase::Collecting, ServerAction::CollectReceipts),
            ServerPhase::Collecting => (ServerPhase::Asking, ServerAction::AskResults),
            ServerPhase::Asking => (ServerPhase::Answering, ServerAction::SendResults),
            ServerPhase::Answering => (ServerPhase::Ending, ServerAction::SayFarewell),
            ServerPhase::Ending => (ServerPhase::Over, ServerAction::ShowSummary),
            ServerPhase::Over => (ServerPhase::Over, ServerAction::Rest),
        },
    }
}

/// Says what a session does next.
pub fn server_step(phase: ServerPhase, event: &ServerEvent, udp: bool) -> (step: (
    ServerPhase,
    ServerAction,
))
    ensures
        step == server_script(phase, *event, udp),
{
    match event {
        ServerEvent::Failed(_) => {
            return (ServerPhase::Over, ServerAction::Abandon);
        },
        ServerEvent::Done => {},
    }
    match phase {
        ServerPhase::Greeted => (ServerPhase::Negotiating, ServerAction::AskOptions),
        ServerPhase::Negotiating => (ServerPhase::Admitting, ServerAction::Admit),
        ServerPhase::Admitting => if udp {
            (ServerPhase::Binding, ServerAction::BindUdp)
        } else {
            (ServerPhase::Opening, ServerAction::SayCreateStreams)
        },
        ServerPhase::Binding => (ServerPhase::Opening, ServerAction::SayCreateStreams),
        ServerPhase::Opening => (ServerPhase::Accepting, ServerAction::AcceptStreams),
        ServerPhase::Accepting => (ServerPhase::Starting, ServerAction::SayStartRunning),
        ServerPhase::Starting => (ServerPhase::Running, ServerAction::RunStreams),
        ServerPhase::Running => (ServerPhase::Awaiting, ServerAction::AwaitTestEnd),
        ServerPhase::Awaiting => (ServerPhase::Collecting, ServerAction::CollectReceipts),
        ServerPhase::Collecting => (ServerPhase::Asking, ServerAction::AskResults),
        ServerPhase::Asking => (ServerPhase::Answering, ServerAction::SendResults),
        ServerPhase::Answering => (ServerPhase::Ending, ServerAction::SayFarewell),
        ServerPhase::Ending => (ServerPhase::Over, ServerAction::ShowSummary),
        ServerPhase::Over => (ServerPhase::Over, ServerAction::Rest),
    }
}

// ---------------------------------------------------------------------
// Actions on the control channel.

/// Whether it worked, whatever it brought.
pub open spec fn worked(r: Result<Seq<u8>, IoError>) -> Result<(), IoError> {
    match r {
        Ok(_) => Ok(()),
        Err(e) => Err(e),
    }
}

/// The calls on the control channel that an action makes; `results` is the
/// JSON text of the server's results. An action that is about other things
/// makes none.
pub open spec fn action_run(
    action: ServerAction,
    results: Seq<u8>,
    run: Seq<SocketEvent>,
    r: Result<Seq<u8>, IoError>,
) -> bool {
    match action {
        ServerAction::AskOptions => ask_run(Message::ParamExchange, run, r),
        ServerAction::AskResults => ask_run(Message::ExchangeResults, run, r),
        ServerAction::SayCreateStreams => write_run(
            seq![Message::CreateStreams.spec_byte()],
            run,
            worked(r),
        ),
        ServerAction::SayStartRunning => two_messages_run(
            Message::TestStart,
            Message::TestRunning,
            run,
            worked(r),
        ),
        ServerAction::AwaitTestEnd => wait_run(run, Message::TestEnd, worked(r)),
        ServerAction::SendResults => send_frame_run(results, run, worked(r)),
        ServerAction::SayFarewell => finalize_run(run, worked(r)),
        _ => run.len() == 0 && r is Ok,
    }
}

/// The action brings a text from the client.
pub open spec fn brings_text(action: ServerAction) -> bool {
    action == ServerAction::AskOptions || action == ServerAction::AskResults
}

fn without_text(r: Result<(), IoError>) -> (t: Result<Vec<u8>, IoError>)
    ensures
        worked(bytes_result(t)) == r,
        t matches Ok(v) ==> v@.len() == 0,
{
    match r {
        Ok(done) => {
            proof {
                assert(done == ());
            }
            Ok(Vec::new())
        },
        Err(e) => Err(e),
    }
}

/// Does what an action asks for on the control channel. The options or the
/// results of the client come back where the action asks for them, and no
/// bytes otherwise.
pub fn perform_on_control(control: &mut Protocol, action: ServerAction, results: &[u8]) -> (r:
    Result<Vec<u8>, IoError>)
    ensures
        extends(old(control).log(), final(control).log()),
        action_run(
            action,
            results@,
            calls(old(control).log(), final(control).log()),
            bytes_result(r),
        ),
        !brings_text(action) ==> (r matches Ok(v) ==> v@.len() == 0),
{
    match action {
        ServerAction::AskOptions => negotiate_options(control),
        ServerAction::AskResults => request_results(control),
        ServerAction::SayCreateStreams => without_text(
            send_control_byte(control, Message::CreateStreams),
        ),
        ServerAction::SayStartRunning => without_text(send_test_start_running(control)),
        ServerAction::AwaitTestEnd => without_text(wait_for_test_end(control)),
        ServerAction::SendResults => without_text(send_framed_json(control, results)),
        ServerAction::SayFarewell => without_text(finalize_test(control)),
        _ => Ok(Vec::new()),
    }
}

// ---------------------------------------------------------------------
// A whole session.

/// A step of a session: where it stands, what it does, and the calls on the
/// control channel meanwhile.
pub struct SessionStep {
    pub phase: ServerPhase,
    pub action: ServerAction,
    pub run: Seq<SocketEvent>,
    pub reply: Result<Seq<u8>, IoError>,
}

/// The calls only say how long a read may wait.
pub open spec fn only_timeouts(run: Seq<SocketEvent>) -> bool {
    forall|i: int| 0 <= i < run.len() ==> #[trigger] run[i] is ReadTimeout
}

/// The action speaks on the control channel.
pub open spec fn speaks(action: ServerAction) -> bool {
    ||| brings_text(action)
    ||| action == ServerAction::SayCreateStreams
    ||| action == ServerAction::SayStartRunning
    ||| action == ServerAction::AwaitTestEnd
    ||| action == ServerAction::SendResults
    ||| action == ServerAction::SayFarewell
}

impl SessionStep {
    /// The step was performed, and worked. While other things are done, no
    /// more is asked of the control channel than to wait longer or shorter.
    pub open spec fn worked(self, results: Seq<u8>) -> bool {
        if speaks(self.action) {
            self.reply is Ok && action_run(self.action, results, self.run, self.reply)
        } else {
            only_timeouts(self.run)
        }
    }
}

/// The step that follows on another one that worked.
pub open spec fn follows(before: ServerPhase, step: SessionStep, udp: bool) -> bool {
    (step.phase, step.action) == server_script(before, ServerEvent::Done, udp)
}

/// A session in which every step worked, from the greeting on.
pub open spec fn is_session(steps: Seq<SessionStep>, results: Seq<u8>, udp: bool) -> bool
    decreases steps.len(),
{
    if steps.len() == 0 {
        true
    } else {
        let head = steps.drop_last();
        &&& is_session(head, results, udp)
        &&& steps.last().worked(results)
        &&& follows(phase_after(head), steps.last(), udp)
    }
}

/// Where a session stands after some steps.
pub open spec fn phase_after(steps: Seq<SessionStep>) -> ServerPhase {
    if steps.len() == 0 {
        ServerPhase::Greeted
    } else {
        steps.last().phase
    }
}

/// All calls on the control channel, in order.
pub open spec fn all_calls(steps: Seq<SessionStep>) -> Seq<SocketEvent>
    decreases steps.len(),
{
    if steps.len() == 0 {
        Seq::empty()
    } else {
        all_calls(steps.drop_last()) + steps.last().run
    }
}

/// What the server has said when a phase has worked out.
pub open spec fn said_by(phase: ServerPhase, results: Seq<u8>) -> Seq<u8> {
    let options = seq![Message::ParamExchange.spec_byte()];
    let streams = options + seq![Message::CreateStreams.spec_byte()];
    let running = streams + seq![Message::TestStart.spec_byte(), Message::TestRunning.spec_byte()];
    let asked = running + seq![Message::ExchangeResults.spec_byte()];
    let answered = asked + frame_header(results) + results;
    match phase {
        ServerPhase::Greeted => Seq::empty(),
        ServerPhase::Negotiating | ServerPhase::Admitting | ServerPhase::Binding => options,
        ServerPhase::Opening | ServerPhase::Accepting => streams,
        ServerPhase::Starting | ServerPhase::Running | ServerPhase::Awaiting
        | ServerPhase::Collecting => running,
        ServerPhase::Asking => asked,
        ServerPhase::Answering => answered,
        ServerPhase::Ending | ServerPhase::Over => answered
            + seq![Message::DisplayResults.spec_byte()],
    }
}

proof fn timeouts_are_silent(run: Seq<SocketEvent>)
    requires
        only_timeouts(run),
    ensures
        sent_bytes(run) == Seq::<u8>::empty(),
        received_bytes(run) == Seq::<u8>::empty(),
    decreases run.len(),
{
    if run.len() > 0 {
        let head = run.drop_last();
        assert forall|i: int| 0 <= i < head.len() implies #[trigger] head[i] is ReadTimeout by {
            assert(run[i] is ReadTimeout);
        }
        timeouts_are_silent(head);
        assert(run[run.len() - 1] is ReadTimeout);
        assert(sent_bytes(run) =~= Seq::<u8>::empty());
        assert(received_bytes(run) =~= Seq::<u8>::empty());
    }
}

/// What a step that worked puts on the wire.
proof fn step_on_the_wire(before: ServerPhase, step: SessionStep, results: Seq<u8>, udp: bool)
    requires
        step.worked(results),
        follows(before, step, udp),
    ensures
        said_by(step.phase, results) == said_by(before, results) + sent_bytes(step.run),
        step.phase == ServerPhase::Ending ==> received_bytes(step.run).len() > 0
            && received_bytes(step.run).last() == Message::IperfDone.spec_byte(),
        step.phase == ServerPhase::Over ==> received_bytes(step.run).len() == 0,
        step.phase == ServerPhase::Over ==> before == ServerPhase::Ending || before
            == ServerPhase::Over,
{
    let was = said_by(before, results);
    let is = said_by(step.phase, results);
    match step.action {
        ServerAction::AskOptions => {
            question_on_the_wire(Message::ParamExchange, step.run, step.reply->Ok_0);
        },
        ServerAction::AskResults => {
            question_on_the_wire(Message::ExchangeResults, step.run, step.reply->Ok_0);
        },
        ServerAction::SayCreateStreams => {
            let word = seq![Message::CreateStreams.spec_byte()];
            write_sends_the_buffer(word, step.run, Ok(()));
        },
        ServerAction::SayStartRunning => {
            start_on_the_wire(Message::TestStart, Message::TestRunning, step.run);
        },
        ServerAction::AwaitTestEnd => {
            wait_on_the_wire(step.run, Message::TestEnd);
        },
        ServerAction::SendResults => {
            frame_on_the_wire(results, step.run, Ok(()));
        },
        ServerAction::SayFarewell => {
            farewell_on_the_wire(step.run);
        },
        _ => {
            timeouts_are_silent(step.run);
        },
    }
    assert(is =~= was + sent_bytes(step.run));
}

/// At every point of a session that goes well, the server has said exactly
/// what belongs before it, in order: it asks for the options, has the streams
/// opened, says that the test starts and runs, asks for the results, sends
/// its own in one frame, and says that results may be shown. The last that it
/// hears is that the client is done.
pub proof fn server_follows_the_script(steps: Seq<SessionStep>, results: Seq<u8>, udp: bool)
    requires
        is_session(steps, results, udp),
    ensures
        sent_bytes(all_calls(steps)) == said_by(phase_after(steps), results),
        phase_after(steps) == ServerPhase::Ending || phase_after(steps) == ServerPhase::Over ==> {
            &&& received_bytes(all_calls(steps)).len() > 0
            &&& received_bytes(all_calls(steps)).last() == Message::IperfDone.spec_byte()
        },
    decreases steps.len(),
{
    if steps.len() > 0 {
        let head = steps.drop_last();
        let step = steps.last();
        server_follows_the_script(head, results, udp);
        step_on_the_wire(phase_after(head), step, results, udp);
        sent_bytes_compose(all_calls(head), step.run);
        received_bytes_compose(all_calls(head), step.run);
    }
}

/// Over the whole session the server says 9, 10, 1, 2 and 13, one frame with
/// its results, and 14; and the last byte that it hears is 16.
pub proof fn session_on_the_wire(steps: Seq<SessionStep>, results: Seq<u8>, udp: bool)
    requires
        is_session(steps, results, udp),
        phase_after(steps) == ServerPhase::Over,
    ensures
        sent_bytes(all_calls(steps)) == seq![9u8, 10u8, 1u8, 2u8, 13u8] + frame_header(results)
            + results + seq![14u8],
        received_bytes(all_calls(steps)).len() > 0,
        received_bytes(all_calls(steps)).last() == 16u8,
{
    server_follows_the_script(steps, results, udp);
    assert(said_by(ServerPhase::Over, results) =~= seq![9u8, 10u8, 1u8, 2u8, 13u8] + frame_header(
        results,
    ) + results + seq![14u8]);
}

/// How far a session has come.
pub open spec fn progress(phase: ServerPhase) -> int {
    match phase {
        ServerPhase::Greeted => 0,
        ServerPhase::Negotiating => 1,
        ServerPhase::Admitting => 2,
        ServerPhase::Binding => 3,
        ServerPhase::Opening => 4,
        ServerPhase::Accepting => 5,
        ServerPhase::Starting => 6,
        ServerPhase::Running => 7,
        ServerPhase::Awaiting => 8,
        ServerPhase::Collecting => 9,
        ServerPhase::Asking => 10,
        ServerPhase::Answering => 11,
        ServerPhase::Ending => 12,
        ServerPhase::Over => 13,
    }
}

/// A session never goes back and never stands still before it is over, and a
/// failure ends it wherever it stands.
pub proof fn sessions_come_to_an_end(phase: ServerPhase, event: ServerEvent, udp: bool)
    ensures
        phase != ServerPhase::Over ==> progress(server_script(phase, event, udp).0) > progress(
            phase,
        ),
        phase == ServerPhase::Over ==> server_script(phase, event, udp).0 == ServerPhase::Over,
        event is Failed ==> server_script(phase, event, udp) == (
            ServerPhase::Over,
            ServerAction::Abandon,
        ),
{
}

} // verus!
