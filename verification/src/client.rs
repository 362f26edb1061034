//! The client's side of a test: what it does on each control message, what
//! it counts, and what it reports.

use vstd::prelude::*;

use crate::common::accounting::{earliest_of, is_earliest, is_latest, latest_of, overall_span};
use crate::common::accounting::spans;
use crate::common::binary64::{bits_of, to_bits};
use crate::common::cpu::{usage, usage_over, CpuSnapshot, CpuUsage};
use crate::common::direction::Direction;
use crate::common::error::{ErrorKind, IoError};
use crate::common::message::Message;
use crate::common::protocol::{Protocol, SocketEvent};
use crate::common::stream::Transfer;
use crate::common::test::{ClientStreamReceipt, Config, Test};
use crate::common::time::{Duration, Instant, MAX_NANOS};
use crate::common::transport_kind::TransportKind;
use crate::common::wire::{bytes_result, calls, calls_compose, control_run, extends};
use crate::common::wire::{recv_control_byte, recv_frame_run, recv_framed_json};
use crate::common::wire::{send_control_byte, send_frame_run, send_framed_json, write_run};
use crate::common::wire::{ClientOptions, Results, StreamResults, CLIENT_VERSION};

verus! {

// ---------------------------------------------------------------------
// Options.

/// The options that a configuration amounts to.
pub open spec fn options_match(config: Config, authtoken: Option<String>, o: ClientOptions) -> bool {
    &&& o.tcp == (config.transport == TransportKind::Tcp)
    &&& o.udp == (config.transport == TransportKind::Udp)
    &&& o.omit == config.omit
    &&& o.time == config.time
    &&& o.parallel == config.parallel
    &&& o.len == config.len
    &&& o.client_version@ == CLIENT_VERSION@
    &&& o.bandwidth == config.bandwidth
    &&& o.reverse == (config.direction == Direction::Reverse)
    &&& o.bidirectional == (config.direction == Direction::Bidirectional)
    &&& o.authtoken == authtoken
}

/// The options to send to the server.
pub fn client_options(config: &Config, authtoken: Option<String>) -> (o: ClientOptions)
    ensures
        options_match(*config, authtoken, o),
{
    let mut options = ClientOptions::tcp_defaults(config.time, config.parallel, config.len);
    options.omit = config.omit;
    options.udp = config.transport.is_udp();
    options.bandwidth = config.bandwidth;
    if options.udp {
        options.tcp = false;
    }
    options.reverse = config.direction.is_reverse();
    options.bidirectional = config.direction.is_bidirectional();
    options.authtoken = authtoken;
    options
}

/// The server reads from the options the direction and the transport that the
/// client was configured with.
pub proof fn server_sees_the_configuration(config: Config, token: Option<String>, o: ClientOptions)
    requires
        options_match(config, token, o),
    ensures
        o.spec_direction() == config.direction,
        o.spec_transport() == config.transport,
{
}

// ---------------------------------------------------------------------
// Streams.

/// A stream to start, with its number.
#[derive(Debug, Clone, Copy, PartialEq, Eq, Structural)]
pub struct StreamStart {
    pub stream_id: u32,
    pub transfer: Transfer,
}

/// How many numbers the streams of a test have.
pub open spec fn stream_count(config: Config) -> int {
    if config.parallel > 0 {
        config.parallel as int
    } else {
        1
    }
}

/// The streams that have the given number: one for each way in which the
/// client moves data, the sending one first.
pub open spec fn starts_of(id: int, direction: Direction, transport: TransportKind) -> Seq<
    StreamStart,
> {
    let udp = transport == TransportKind::Udp;
    let sender = if direction.upstream() {
        seq![
            StreamStart {
                stream_id: id as u32,
                transfer: if udp {
                    Transfer::UdpSend
                } else {
                    Transfer::TcpSend
                },
            },
        ]
    } else {
        Seq::empty()
    };
    let receiver = if direction.downstream() {
        seq![
            StreamStart {
                stream_id: id as u32,
                transfer: if udp {
                    Transfer::UdpRecv
                } else {
                    Transfer::TcpRecv
                },
            },
        ]
    } else {
        Seq::empty()
    };
    sender + receiver
}

/// The streams with numbers from 1 to `n`, in order.
pub open spec fn starts_up_to(n: int, direction: Direction, transport: TransportKind) -> Seq<
    StreamStart,
>
    decreases n,
{
    if n <= 0 {
        Seq::empty()
    } else {
        starts_up_to(n - 1, direction, transport) + starts_of(n, direction, transport)
    }
}

/// The streams that a client starts when the server asks for them.
pub fn create_streams(config: &Config) -> (starts: Vec<StreamStart>)
    ensures
        starts@ == starts_up_to(stream_count(*config), config.direction, config.transport),
{
    let n: u32 = if config.parallel > 0 {
        config.parallel
    } else {
        1
    };
    let udp = config.transport.is_udp();
    let mut starts: Vec<StreamStart> = Vec::new();
    let mut id: u32 = 0;
    while id < n
        invariant
            id <= n,
            n == stream_count(*config),
            udp == (config.transport == TransportKind::Udp),
            starts@ == starts_up_to(id as int, config.direction, config.transport),
        decreases n - id,
    {
        id = id + 1;
        let ghost before = starts@;
        if config.direction.client_sends() {
            let transfer = if udp {
                Transfer::UdpSend
            } else {
                Transfer::TcpSend
            };
            starts.push(StreamStart { stream_id: id, transfer });
        }
        if config.direction.client_receives() {
            let transfer = if udp {
                Transfer::UdpRecv
            } else {
                Transfer::TcpRecv
            };
            starts.push(StreamStart { stream_id: id, transfer });
        }
        proof {
            assert(starts@ =~= before + starts_of(id as int, config.direction, config.transport));
        }
    }
    starts
}

/// How many streams have to end before the test is over.
pub open spec fn streams_expected(config: Config) -> int {
    stream_count(config) * (if config.direction == Direction::Bidirectional {
        2int
    } else {
        1int
    })
}

/// The test is over when as many streams have ended as were started.
pub proof fn every_started_stream_is_awaited(config: Config)
    ensures
        starts_up_to(stream_count(config), config.direction, config.transport).len()
            == streams_expected(config),
{
    starts_len(stream_count(config), config.direction, config.transport);
}

proof fn starts_len(n: int, direction: Direction, transport: TransportKind)
    requires
        n >= 0,
    ensures
        starts_up_to(n, direction, transport).len() == n * (if direction
            == Direction::Bidirectional {
            2int
        } else {
            1int
        }),
    decreases n,
{
    if n > 0 {
        starts_len(n - 1, direction, transport);
        let per = if direction == Direction::Bidirectional {
            2int
        } else {
            1int
        };
        assert(starts_of(n, direction, transport).len() == per);
        assert((n - 1) * per + per == n * per) by (nonlinear_arith);
    }
}

/// Counts the streams that have ended.
#[derive(Debug, Clone, Copy, PartialEq, Eq, Structural)]
pub struct StreamTally {
    pub finished: u32,
    pub test_end_sent: bool,
}

impl StreamTally {
    pub fn new() -> (t: StreamTally)
        ensures
            t.finished == 0,
            !t.test_end_sent,
    {
        StreamTally { finished: 0, test_end_sent: false }
    }

    /// This message makes the test end: the last stream has ended, and the
    /// server was not told yet.
    pub open spec fn ends_test(self, expected: int, message: Message) -> bool {
        &&& message == Message::TestEnd
        &&& self.finished + 1 >= expected
        &&& !self.test_end_sent
    }

    /// The count after a message, where `told` says whether the server was
    /// told that the test is over.
    pub open spec fn after(self, message: Message, told: bool) -> StreamTally {
        StreamTally {
            finished: if message == Message::TestEnd {
                (self.finished + 1) as u32
            } else {
                self.finished
            },
            test_end_sent: self.test_end_sent || told,
        }
    }
}

/// A stream says that it has ended. When the last one has, the server is told
/// so, once. Any other message from a stream is left alone. The result is
/// what came of telling the server.
pub fn on_stream_message(test: &mut Test, tally: &mut StreamTally, message: Message) -> (told:
    Option<Result<(), IoError>>)
    requires
        old(tally).finished < u32::MAX,
        streams_expected(old(test).config) <= u32::MAX,
    ensures
        *final(test) == (Test { control_channel: final(test).control_channel, ..*old(test) }),
        *final(tally) == old(tally).after(message, told is Some),
        match (old(test).control_channel, final(test).control_channel) {
            (Some(p), Some(q)) => {
                &&& told is Some <==> old(tally).ends_test(
                    streams_expected(old(test).config),
                    message,
                )
                &&& told is Some ==> extends(p.log(), q.log()) && write_run(
                    seq![Message::TestEnd.spec_byte()],
                    calls(p.log(), q.log()),
                    told->0,
                )
                &&& told is None ==> q == p
            },
            (None, None) => told is None,
            _ => false,
        },
{
    match message {
        Message::TestEnd => {},
        _ => {
            return None;
        },
    }
    tally.finished = tally.finished + 1;
    let parallel: u32 = if test.config.parallel > 0 {
        test.config.parallel
    } else {
        1
    };
    let expected: u32 = if test.config.direction.is_bidirectional() {
        parallel * 2
    } else {
        parallel
    };
    if tally.finished < expected || tally.test_end_sent {
        return None;
    }
    match &mut test.control_channel {
        Some(protocol) => {
            let r = send_control_byte(protocol, Message::TestEnd);
            tally.test_end_sent = true;
            Some(r)
        },
        None => None,
    }
}

/// The count after messages from the streams, on a client that has a control
/// channel.
pub open spec fn tally_after(messages: Seq<Message>, expected: int) -> StreamTally
    decreases messages.len(),
{
    if messages.len() == 0 {
        StreamTally { finished: 0, test_end_sent: false }
    } else {
        let before = tally_after(messages.drop_last(), expected);
        before.after(messages.last(), before.ends_test(expected, messages.last()))
    }
}

/// How often the server is told that the test is over.
pub open spec fn times_told(messages: Seq<Message>, expected: int) -> int
    decreases messages.len(),
{
    if messages.len() == 0 {
        0
    } else {
        times_told(messages.drop_last(), expected) + (if tally_after(
            messages.drop_last(),
            expected,
        ).ends_test(expected, messages.last()) {
            1int
        } else {
            0int
        })
    }
}

/// How many streams have said that they ended.
pub open spec fn ends_in(messages: Seq<Message>) -> int
    decreases messages.len(),
{
    if messages.len() == 0 {
        0
    } else {
        ends_in(messages.drop_last()) + (if messages.last() == Message::TestEnd {
            1int
        } else {
            0int
        })
    }
}

/// The server is told once that the test is over, however many streams end:
/// when as many have as were started, and not before.
pub proof fn test_end_is_told_once(messages: Seq<Message>, expected: int)
    requires
        expected >= 1,
        messages.len() < u32::MAX,
    ensures
        times_told(messages, expected) == (if ends_in(messages) >= expected {
            1int
        } else {
            0int
        }),
        tally_after(messages, expected).test_end_sent == (ends_in(messages) >= expected),
        tally_after(messages, expected).finished == ends_in(messages),
        0 <= ends_in(messages) <= messages.len(),
    decreases messages.len(),
{
    if messages.len() > 0 {
        test_end_is_told_once(messages.drop_last(), expected);
    }
}

// ---------------------------------------------------------------------
// Control messages.

/// What the client has to do next.
pub enum ClientAction {
    /// Nothing came.
    Nothing,
    /// There is no control channel.
    NoChannel,
    /// Reading the control channel failed.
    ReportError(IoError),
    /// Send the options.
    SendOptions,
    /// Start the streams.
    CreateStreams,
    /// The test has been set up.
    Started,
    /// The test runs; print the heading of the table if so told.
    Running { show_header: bool },
    /// Exchange results.
    ExchangeResults,
    /// The server was told that the client is done, if there is a channel.
    SaidDone(Option<Result<(), IoError>>),
    /// The server is done.
    ServerDone,
    /// The message means nothing to a client.
    Unknown,
}

/// What the client has to do next, and whether the test is done.
pub struct ClientStep {
    pub action: ClientAction,
    pub done: bool,
}

/// What a control message makes of the test, except for what is said in
/// answer to it.
pub open spec fn after_message(before: Test, message: Message, after: Test) -> bool {
    after == (Test {
        is_started: before.is_started || message == Message::TestStart,
        is_running: before.is_running || message == Message::TestRunning,
        control_channel: after.control_channel,
        ..before
    })
}

/// What a control message asks for. Only the end of the results is answered
/// at once.
pub open spec fn message_step(before: Test, message: Message, after: Test, step: ClientStep) -> bool {
    &&& step.done == (message == Message::DisplayResults || message == Message::IperfDone)
    &&& after_message(before, message, after)
    &&& message != Message::DisplayResults ==> after.control_channel == before.control_channel
    &&& match message {
        Message::ParamExchange => step.action is SendOptions,
        Message::CreateStreams => step.action is CreateStreams,
        Message::TestStart => step.action is Started,
        Message::TestRunning => step.action == (ClientAction::Running {
            show_header: !before.config.json,
        }),
        Message::ExchangeResults => step.action is ExchangeResults,
        Message::IperfDone => step.action is ServerDone,
        Message::DisplayResults => match (before.control_channel, after.control_channel) {
            (Some(p), Some(q)) => match step.action {
                ClientAction::SaidDone(Some(r)) => extends(p.log(), q.log())
                    && write_run(
                    seq![Message::IperfDone.spec_byte()],
                    calls(p.log(), q.log()),
                    r,
                ),
                _ => false,
            },
            (None, None) => step.action == ClientAction::SaidDone(None),
            _ => false,
        },
        _ => step.action is Unknown,
    }
}

/// Acts on a control message from the server.
pub fn handle_message_client(test: &mut Test, message: Message) -> (step: ClientStep)
    ensures
        message_step(*old(test), message, *final(test), step),
{
    match message {
        Message::ParamExchange => ClientStep { action: ClientAction::SendOptions, done: false },
        Message::CreateStreams => ClientStep { action: ClientAction::CreateStreams, done: false },
        Message::TestStart => {
            test.is_started = true;
            ClientStep { action: ClientAction::Started, done: false }
        },
        Message::TestRunning => {
            test.is_running = true;
            ClientStep {
                action: ClientAction::Running { show_header: !test.config.json },
                done: false,
            }
        },
        Message::ExchangeResults => ClientStep {
            action: ClientAction::ExchangeResults,
            done: false,
        },
        Message::DisplayResults => {
            let said = match &mut test.control_channel {
                Some(protocol) => Some(
                    send_control_byte(protocol, Message::IperfDone),
                ),
                None => None,
            };
            ClientStep { action: ClientAction::SaidDone(said), done: true }
        },
        Message::IperfDone => ClientStep { action: ClientAction::ServerDone, done: true },
        _ => ClientStep { action: ClientAction::Unknown, done: false },
    }
}

/// The messages of a session that goes well, in the order in which the server
/// sends them.
pub open spec fn session_script() -> Seq<Message> {
    seq![
        Message::ParamExchange,
        Message::CreateStreams,
        Message::TestStart,
        Message::TestRunning,
        Message::ExchangeResults,
        Message::DisplayResults,
    ]
}

/// A client that gets the messages of a session that goes well sends its
/// options, starts its streams, runs, exchanges results, and is done with the
/// last message and not before; its configuration stays as it is throughout.
pub proof fn client_follows_the_script(tests: Seq<Test>, steps: Seq<ClientStep>)
    requires
        tests.len() == 7,
        steps.len() == 6,
        forall|i: int|
            0 <= i < 6 ==> message_step(
                tests[i],
                session_script()[i],
                tests[i + 1],
                #[trigger] steps[i],
            ),
    ensures
        steps[0].action is SendOptions,
        steps[1].action is CreateStreams,
        steps[2].action is Started,
        steps[3].action is Running,
        steps[4].action is ExchangeResults,
        steps[5].action is SaidDone,
        forall|i: int| 0 <= i < 6 ==> ((#[trigger] steps[i]).done <==> i == 5),
        tests[6].is_started,
        tests[6].is_running,
        tests[6].config == tests[0].config,
        tests[6].cookie == tests[0].cookie,
{
    assert(steps[0].action is SendOptions);
    assert(steps[1].action is CreateStreams);
    assert(steps[2].action is Started);
    assert(steps[3].action is Running);
    assert(steps[4].action is ExchangeResults);
    assert(steps[5].action is SaidDone);
}

/// What a look at the control channel comes to: `read` is what was read, and
/// `mid` is the test after that.
pub open spec fn recv_step(
    mid: Test,
    read: Result<Message, IoError>,
    after: Test,
    step: ClientStep,
) -> bool {
    match read {
        Ok(message) => message_step(mid, message, after, step),
        Err(e) => {
            &&& after == mid
            &&& !step.done
            &&& if e.kind == ErrorKind::WouldBlock {
                step.action is Nothing
            } else {
                step.action == ClientAction::ReportError(e)
            }
        },
    }
}

/// Looks for a control message and acts on it. Without a control channel the
/// test is done.
pub fn client_recv(test: &mut Test) -> (step: ClientStep)
    ensures
        match old(test).control_channel {
            None => step.action is NoChannel && step.done && *final(test) == *old(test),
            Some(p) => exists|mid: Test, read: Result<Message, IoError>|
                {
                    &&& #[trigger] recv_step(mid, read, *final(test), step)
                    &&& mid == (Test { control_channel: mid.control_channel, ..*old(test) })
                    &&& mid.control_channel matches Some(q) && extends(
                        p.log(),
                        q.log(),
                    ) && control_run(calls(p.log(), q.log()), read)
                },
        },
{
    let read = match &mut test.control_channel {
        None => {
            return ClientStep { action: ClientAction::NoChannel, done: true };
        },
        Some(protocol) => recv_control_byte(protocol),
    };
    let ghost mid = *test;
    match read {
        Ok(message) => {
            let step = handle_message_client(test, message);
            proof {
                assert(recv_step(mid, read, *test, step));
            }
            step
        },
        Err(e) => {
            let quiet = match e.kind {
                ErrorKind::WouldBlock => true,
                _ => false,
            };
            let step = if quiet {
                ClientStep { action: ClientAction::Nothing, done: false }
            } else {
                ClientStep { action: ClientAction::ReportError(e), done: false }
            };
            proof {
                assert(recv_step(mid, read, *test, step));
            }
            step
        },
    }
}

// ---------------------------------------------------------------------
// Sums and spans over all streams.

/// When each stream first moved bytes.
pub open spec fn first_sends(receipts: Seq<ClientStreamReceipt>) -> Seq<Option<Instant>> {
    receipts.map_values(|r: ClientStreamReceipt| r.first_send_at)
}

/// When each stream first moved bytes outside the omit window.
pub open spec fn first_measured(receipts: Seq<ClientStreamReceipt>) -> Seq<Option<Instant>> {
    receipts.map_values(|r: ClientStreamReceipt| r.first_measured_at)
}

/// When each stream last moved bytes.
pub open spec fn last_sends(receipts: Seq<ClientStreamReceipt>) -> Seq<Option<Instant>> {
    receipts.map_values(|r: ClientStreamReceipt| r.last_send_at)
}

fn collect_first_sends(receipts: &[ClientStreamReceipt]) -> (v: Vec<Option<Instant>>)
    ensures
        v@ == first_sends(receipts@),
{
    let mut v: Vec<Option<Instant>> = Vec::new();
    let mut i: usize = 0;
    while i < receipts.len()
        invariant
            i <= receipts.len(),
            v@ == first_sends(receipts@.take(i as int)),
        decreases receipts.len() - i,
    {
        v.push(receipts[i].first_send_at);
        proof {
            assert(v@ =~= first_sends(receipts@.take(i as int + 1)));
        }
        i = i + 1;
    }
    proof {
        assert(receipts@.take(i as int) =~= receipts@);
    }
    v
}

fn collect_first_measured(receipts: &[ClientStreamReceipt]) -> (v: Vec<Option<Instant>>)
    ensures
        v@ == first_measured(receipts@),
{
    let mut v: Vec<Option<Instant>> = Vec::new();
    let mut i: usize = 0;
    while i < receipts.len()
        invariant
            i <= receipts.len(),
            v@ == first_measured(receipts@.take(i as int)),
        decreases receipts.len() - i,
    {
        v.push(receipts[i].first_measured_at);
        proof {
            assert(v@ =~= first_measured(receipts@.take(i as int + 1)));
        }
        i = i + 1;
    }
    proof {
        assert(receipts@.take(i as int) =~= receipts@);
    }
    v
}

fn collect_last_sends(receipts: &[ClientStreamReceipt]) -> (v: Vec<Option<Instant>>)
    ensures
        v@ == last_sends(receipts@),
{
    let mut v: Vec<Option<Instant>> = Vec::new();
    let mut i: usize = 0;
    while i < receipts.len()
        invariant
            i <= receipts.len(),
            v@ == last_sends(receipts@.take(i as int)),
        decreases receipts.len() - i,
    {
        v.push(receipts[i].last_send_at);
        proof {
            assert(v@ =~= last_sends(receipts@.take(i as int + 1)));
        }
        i = i + 1;
    }
    proof {
        assert(receipts@.take(i as int) =~= receipts@);
    }
    v
}

/// From the earliest first send on any stream to the latest last send on any
/// stream; nothing where no stream moved bytes, or where the two stand the
/// wrong way round.
pub fn client_session_duration(receipts: &[ClientStreamReceipt]) -> (r: Option<Duration>)
    ensures
        exists|f: Option<Instant>, l: Option<Instant>|
            #![trigger is_earliest(first_sends(receipts@), f), is_latest(last_sends(receipts@), l)]
            {
                &&& is_earliest(first_sends(receipts@), f)
                &&& is_latest(last_sends(receipts@), l)
                &&& match (f, l) {
                    (Some(a), Some(b)) => if b.nanos >= a.nanos {
                        r == Some(Duration { nanos: (b.nanos - a.nanos) as u128 })
                    } else {
                        r is None
                    },
                    _ => r is None,
                }
            },
        spans(
            first_sends(receipts@),
            last_sends(receipts@),
            match r {
                Some(d) => d.nanos as int,
                None => 0,
            },
        ),
{
    let firsts = collect_first_sends(receipts);
    let lasts = collect_last_sends(receipts);
    let f = earliest_of(&firsts);
    let l = latest_of(&lasts);
    proof {
        assert(is_earliest(first_sends(receipts@), f) && is_latest(last_sends(receipts@), l));
    }
    match f {
        None => None,
        Some(a) => match l {
            None => None,
            Some(b) => if b.nanos >= a.nanos {
                Some(b.duration_since(a))
            } else {
                None
            },
        },
    }
}

/// From the earliest send outside the omit window to the latest last send.
pub fn client_measured_duration(receipts: &[ClientStreamReceipt]) -> (d: Duration)
    ensures
        spans(first_measured(receipts@), last_sends(receipts@), d.nanos as int),
{
    let firsts = collect_first_measured(receipts);
    let lasts = collect_last_sends(receipts);
    overall_span(&firsts, &lasts)
}

/// Bytes of the measurement window of one stream.
pub open spec fn measured_of(r: ClientStreamReceipt) -> int {
    if r.bytes_sent >= r.bytes_omit {
        r.bytes_sent - r.bytes_omit
    } else {
        0
    }
}

/// All bytes over all streams.
pub open spec fn sum_sent(receipts: Seq<ClientStreamReceipt>) -> int
    decreases receipts.len(),
{
    if receipts.len() == 0 {
        0
    } else {
        sum_sent(receipts.drop_last()) + receipts.last().bytes_sent
    }
}

/// The measured bytes over all streams.
pub open spec fn sum_measured(receipts: Seq<ClientStreamReceipt>) -> int
    decreases receipts.len(),
{
    if receipts.len() == 0 {
        0
    } else {
        sum_measured(receipts.drop_last()) + measured_of(receipts.last())
    }
}

/// The retransmissions over all streams.
pub open spec fn sum_retransmits(receipts: Seq<ClientStreamReceipt>) -> int
    decreases receipts.len(),
{
    if receipts.len() == 0 {
        0
    } else {
        sum_retransmits(receipts.drop_last()) + receipts.last().retransmits
    }
}

proof fn sums_grow(receipts: Seq<ClientStreamReceipt>, k: int)
    requires
        0 <= k <= receipts.len(),
    ensures
        0 <= sum_sent(receipts.take(k)) <= sum_sent(receipts),
        0 <= sum_measured(receipts.take(k)) <= sum_measured(receipts),
        0 <= sum_retransmits(receipts.take(k)) <= sum_retransmits(receipts),
        sum_measured(receipts) <= sum_sent(receipts),
    decreases receipts.len(),
{
    if receipts.len() == 0 {
        assert(receipts.take(k) =~= receipts);
    } else if k == receipts.len() {
        assert(receipts.take(k) =~= receipts);
        sums_grow(receipts.drop_last(), 0);
        assert(receipts.drop_last().take(0) =~= Seq::<ClientStreamReceipt>::empty());
    } else {
        sums_grow(receipts.drop_last(), k);
        assert(receipts.drop_last().take(k) =~= receipts.take(k));
    }
}

fn add_sent(receipts: &[ClientStreamReceipt]) -> (n: u64)
    requires
        sum_sent(receipts@) <= u64::MAX,
    ensures
        n == sum_sent(receipts@),
{
    let mut n: u64 = 0;
    let mut i: usize = 0;
    while i < receipts.len()
        invariant
            i <= receipts.len(),
            sum_sent(receipts@) <= u64::MAX,
            n == sum_sent(receipts@.take(i as int)),
        decreases receipts.len() - i,
    {
        proof {
            sums_grow(receipts@, i as int + 1);
            assert(receipts@.take(i as int + 1).drop_last() =~= receipts@.take(i as int));
        }
        n = n + receipts[i].bytes_sent;
        i = i + 1;
    }
    proof {
        assert(receipts@.take(i as int) =~= receipts@);
    }
    n
}

fn add_measured(receipts: &[ClientStreamReceipt]) -> (n: u64)
    requires
        sum_sent(receipts@) <= u64::MAX,
    ensures
        n == sum_measured(receipts@),
{
    let mut n: u64 = 0;
    let mut i: usize = 0;
    while i < receipts.len()
        invariant
            i <= receipts.len(),
            sum_sent(receipts@) <= u64::MAX,
            n == sum_measured(receipts@.take(i as int)),
        decreases receipts.len() - i,
    {
        proof {
            sums_grow(receipts@, i as int + 1);
            assert(receipts@.take(i as int + 1).drop_last() =~= receipts@.take(i as int));
        }
        n = n + receipts[i].bytes_measured();
        i = i + 1;
    }
    proof {
        assert(receipts@.take(i as int) =~= receipts@);
    }
    n
}

fn add_retransmits(receipts: &[ClientStreamReceipt]) -> (n: u64)
    requires
        sum_retransmits(receipts@) <= u64::MAX,
    ensures
        n == sum_retransmits(receipts@),
{
    let mut n: u64 = 0;
    let mut i: usize = 0;
    while i < receipts.len()
        invariant
            i <= receipts.len(),
            sum_retransmits(receipts@) <= u64::MAX,
            n == sum_retransmits(receipts@.take(i as int)),
        decreases receipts.len() - i,
    {
        proof {
            sums_grow(receipts@, i as int + 1);
            assert(receipts@.take(i as int + 1).drop_last() =~= receipts@.take(i as int));
        }
        n = n + receipts[i].retransmits as u64;
        i = i + 1;
    }
    proof {
        assert(receipts@.take(i as int) =~= receipts@);
    }
    n
}

/// The entry of one stream in the client's results.
pub open spec fn stream_entry(r: ClientStreamReceipt) -> StreamResults {
    StreamResults {
        id: r.stream_id,
        bytes: r.bytes_sent,
        retransmits: r.retransmits as i64,
        jitter: r.jitter_ms,
        errors: r.lost,
        packets: r.packets,
    }
}

/// Some stream sent segments again.
pub open spec fn any_retransmits(receipts: Seq<ClientStreamReceipt>) -> bool {
    exists|i: int| 0 <= i < receipts.len() && (#[trigger] receipts[i]).retransmits > 0
}

/// The results that receipts and processor use amount to: one entry per
/// receipt, in order.
pub open spec fn results_match(
    receipts: Seq<ClientStreamReceipt>,
    cpu: CpuUsage,
    r: Results,
) -> bool {
    &&& r.cpu_util_total.bits == bits_of(cpu.total_pct)
    &&& r.cpu_util_user.bits == bits_of(cpu.user_pct)
    &&& r.cpu_util_system.bits == bits_of(cpu.system_pct)
    &&& r.sender_has_retransmits == (if any_retransmits(receipts) {
        1int
    } else {
        0int
    })
    &&& r.streams@ == receipts.map_values(|x: ClientStreamReceipt| stream_entry(x))
}

/// The results that the client reports: one entry per receipt, in order.
pub fn build_client_results(receipts: &[ClientStreamReceipt], cpu: &CpuUsage) -> (r: Results)
    requires
        cpu.wf(),
    ensures
        results_match(receipts@, *cpu, r),
{
    let mut streams: Vec<StreamResults> = Vec::new();
    let mut any = false;
    let mut i: usize = 0;
    while i < receipts.len()
        invariant
            i <= receipts.len(),
            any == any_retransmits(receipts@.take(i as int)),
            streams@ == receipts@.take(i as int).map_values(
                |x: ClientStreamReceipt| stream_entry(x),
            ),
        decreases receipts.len() - i,
    {
        let r = receipts[i];
        streams.push(
            StreamResults {
                id: r.stream_id,
                bytes: r.bytes_sent,
                retransmits: r.retransmits as i64,
                jitter: r.jitter_ms,
                errors: r.lost,
                packets: r.packets,
            },
        );
        proof {
            let part = receipts@.take(i as int);
            let more = receipts@.take(i as int + 1);
            assert(more =~= part.push(r));
            assert(streams@ =~= more.map_values(|x: ClientStreamReceipt| stream_entry(x)));
            assert(more[i as int] == r);
            if any_retransmits(part) {
                let k = choose|k: int| 0 <= k < part.len() && (#[trigger] part[k]).retransmits > 0;
                assert(more[k] == part[k]);
            }
            if any_retransmits(more) && r.retransmits == 0 {
                let k = choose|k: int| 0 <= k < more.len() && (#[trigger] more[k]).retransmits > 0;
                assert(part[k] == more[k]);
            }
        }
        if r.retransmits > 0 {
            any = true;
        }
        i = i + 1;
    }
    proof {
        assert(receipts@.take(i as int) =~= receipts@);
    }
    Results {
        cpu_util_total: to_bits(cpu.total_pct),
        cpu_util_user: to_bits(cpu.user_pct),
        cpu_util_system: to_bits(cpu.system_pct),
        sender_has_retransmits: if any {
            1
        } else {
            0
        },
        streams,
    }
}

/// What the client's summary is about.
#[derive(Debug, Clone, Copy, PartialEq, Eq, Structural)]
pub struct ClientTotals {
    pub bytes: u64,
    pub duration: Duration,
    pub retransmits: u64,
    /// From the first send to the last: what processor use is measured
    /// against.
    pub session: Duration,
}

/// The totals of receipts. The summary is about the measurement window where
/// one was asked for and bytes moved within; else about all bytes, over the
/// time in which they moved.
pub open spec fn totals_match(receipts: Seq<ClientStreamReceipt>, omit: u32, t: ClientTotals) -> bool {
    &&& spans(first_sends(receipts), last_sends(receipts), t.session.nanos as int)
    &&& exists|steady: int| #[trigger]
        spans(first_measured(receipts), last_sends(receipts), steady) && if omit > 0 && steady
            != 0 {
            t.bytes == sum_measured(receipts) && t.duration.nanos == steady
        } else {
            t.bytes == sum_sent(receipts) && t.duration == t.session
        }
    &&& t.retransmits == sum_retransmits(receipts)
}

/// The sums over the receipts fit.
pub open spec fn totals_fit(receipts: Seq<ClientStreamReceipt>) -> bool {
    sum_sent(receipts) <= u64::MAX && sum_retransmits(receipts) <= u64::MAX
}

/// Adds up the receipts of a test. The summary is about the measurement
/// window where one was asked for and bytes moved within; else about all
/// bytes, over the time in which they moved.
pub fn client_totals(receipts: &[ClientStreamReceipt], omit: u32) -> (t: ClientTotals)
    requires
        totals_fit(receipts@),
    ensures
        totals_match(receipts@, omit, t),
{
    let steady = client_measured_duration(receipts);
    let session = match client_session_duration(receipts) {
        Some(d) => d,
        None => Duration::zero(),
    };
    let (bytes, duration): (u64, Duration) = if omit > 0 && !steady.is_zero() {
        (add_measured(receipts), steady)
    } else {
        (add_sent(receipts), session)
    };
    ClientTotals { bytes, duration, retransmits: add_retransmits(receipts), session }
}

/// Whether the sums over the receipts fit.
pub fn check_totals(receipts: &[ClientStreamReceipt]) -> (b: bool)
    ensures
        b == totals_fit(receipts@),
{
    let mut sent: u128 = 0;
    let mut again: u128 = 0;
    let mut i: usize = 0;
    while i < receipts.len()
        invariant
            i <= receipts.len(),
            sent == sum_sent(receipts@.take(i as int)),
            again == sum_retransmits(receipts@.take(i as int)),
            sent <= u64::MAX,
            again <= u64::MAX,
        decreases receipts.len() - i,
    {
        proof {
            sums_grow(receipts@, i as int + 1);
            assert(receipts@.take(i as int + 1).drop_last() =~= receipts@.take(i as int));
        }
        sent = sent + receipts[i].bytes_sent as u128;
        again = again + receipts[i].retransmits as u128;
        if sent > u64::MAX as u128 || again > u64::MAX as u128 {
            return false;
        }
        i = i + 1;
    }
    proof {
        assert(receipts@.take(i as int) =~= receipts@);
    }
    true
}

/// What the client has to tell at the end of a test.
pub struct Settlement {
    pub totals: ClientTotals,
    pub cpu: CpuUsage,
    pub results: Results,
}

/// What the receipts of a test amount to, with the processor use from its
/// start to `now` over the time in which bytes moved; none where the start
/// was not noted.
pub open spec fn settles(
    test: Test,
    receipts: Seq<ClientStreamReceipt>,
    now: CpuSnapshot,
    ticks_per_sec: u64,
    s: Settlement,
) -> bool {
    &&& totals_match(receipts, test.config.omit, s.totals)
    &&& s.totals.session.nanos <= MAX_NANOS
    &&& s.totals.duration.nanos <= MAX_NANOS
    &&& s.cpu == (match test.cpu_start {
        Some(start) => usage_over(start, now, s.totals.session, ticks_per_sec),
        None => CpuUsage::nothing(),
    })
    &&& s.cpu.wf()
    &&& results_match(receipts, s.cpu, s.results)
}

/// The sums over the receipts do not fit, or bytes moved over more than the
/// longest span.
pub open spec fn cannot_settle(receipts: Seq<ClientStreamReceipt>) -> bool {
    ||| !totals_fit(receipts)
    ||| exists|d: int| #[trigger]
        spans(first_sends(receipts), last_sends(receipts), d) && d > MAX_NANOS
    ||| exists|d: int| #[trigger]
        spans(first_measured(receipts), last_sends(receipts), d) && d > MAX_NANOS
}

/// Takes in the receipts that have arrived, and then adds up all that the
/// test has: no receipt is left out of the results. Nothing comes back where
/// the sums do not fit.
pub fn settle_results(
    test: &mut Test,
    arrived: Vec<ClientStreamReceipt>,
    now: &CpuSnapshot,
    ticks_per_sec: u64,
) -> (s: Option<Settlement>)
    requires
        ticks_per_sec > 0,
    ensures
        *final(test) == (Test { receipts: final(test).receipts, ..*old(test) }),
        final(test).receipts@ == old(test).receipts@ + arrived@,
        match s {
            Some(x) => settles(*old(test), final(test).receipts@, *now, ticks_per_sec, x),
            None => cannot_settle(final(test).receipts@),
        },
{
    test.drain_receipts(arrived);
    let receipts = test.receipts.as_slice();
    if !check_totals(receipts) {
        return None;
    }
    let totals = client_totals(receipts, test.config.omit);
    if totals.session.nanos > MAX_NANOS || totals.duration.nanos > MAX_NANOS {
        return None;
    }
    let cpu = match test.cpu_start {
        Some(start) => usage(&start, now, totals.session, ticks_per_sec),
        None => CpuUsage::zero(),
    };
    let results = build_client_results(receipts, &cpu);
    Some(Settlement { totals, cpu, results })
}

/// The roles of the two sides in the summary.
pub fn summary_roles(direction: Direction) -> (roles: (&'static str, &'static str))
    ensures
        direction == Direction::Reverse ==> roles.0@ == "receiver"@ && roles.1@ == "sender"@,
        direction != Direction::Reverse ==> roles.0@ == "sender"@ && roles.1@ == "receiver"@,
{
    if direction.is_reverse() {
        ("receiver", "sender")
    } else {
        ("sender", "receiver")
    }
}

/// All bytes that results speak of.
pub open spec fn sum_result_bytes(streams: Seq<StreamResults>) -> int
    decreases streams.len(),
{
    if streams.len() == 0 {
        0
    } else {
        sum_result_bytes(streams.drop_last()) + streams.last().bytes
    }
}

proof fn result_sum_grows(streams: Seq<StreamResults>, k: int)
    requires
        0 <= k <= streams.len(),
    ensures
        0 <= sum_result_bytes(streams.take(k)) <= sum_result_bytes(streams),
    decreases streams.len(),
{
    if streams.len() == 0 {
        assert(streams.take(k) =~= streams);
    } else if k == streams.len() {
        assert(streams.take(k) =~= streams);
        result_sum_grows(streams.drop_last(), 0);
        assert(streams.drop_last().take(0) =~= Seq::<StreamResults>::empty());
    } else {
        result_sum_grows(streams.drop_last(), k);
        assert(streams.drop_last().take(k) =~= streams.take(k));
    }
}

/// All bytes that the peer's results speak of; nothing where the sum does not
/// fit.
pub fn total_result_bytes(results: &Results) -> (r: Option<u64>)
    ensures
        match r {
            Some(n) => n == sum_result_bytes(results.streams@),
            None => sum_result_bytes(results.streams@) > u64::MAX,
        },
{
    let mut n: u64 = 0;
    let mut i: usize = 0;
    while i < results.streams.len()
        invariant
            i <= results.streams@.len(),
            n == sum_result_bytes(results.streams@.take(i as int)),
        decreases results.streams.len() - i,
    {
        proof {
            result_sum_grows(results.streams@, i as int + 1);
            assert(results.streams@.take(i as int + 1).drop_last() =~= results.streams@.take(
                i as int,
            ));
        }
        match n.checked_add(results.streams[i].bytes) {
            Some(m) => {
                n = m;
            },
            None => {
                return None;
            },
        }
        i = i + 1;
    }
    proof {
        assert(results.streams@.take(i as int) =~= results.streams@);
    }
    Some(n)
}

/// What came of exchanging results with the server.
pub enum ResultsExchange {
    /// The client's results did not get out.
    NotSent(IoError),
    /// The channel could not be made to wait for the answer.
    NotBlocking(IoError),
    /// The answer was read, or that failed; and the channel was told to poll
    /// again.
    Read { frame: Result<Vec<u8>, IoError>, restored: Result<(), IoError> },
}

/// The calls that exchange results: the client's go out; then the channel
/// waits, the server's come in, and the channel polls again.
pub open spec fn exchange_run(body: Seq<u8>, run: Seq<SocketEvent>, x: ResultsExchange) -> bool {
    match x {
        ResultsExchange::NotSent(e) => send_frame_run(body, run, Err(e)),
        ResultsExchange::NotBlocking(e) => {
            &&& run.len() > 0
            &&& send_frame_run(body, run.drop_last(), Ok(()))
            &&& run.last() == (SocketEvent::Nonblocking { nonblocking: false, outcome: Err(e) })
        },
        ResultsExchange::Read { frame, restored } => exists|k: int|
            {
                &&& 0 <= k
                &&& k + 1 < run.len()
                &&& send_frame_run(body, #[trigger] run.take(k), Ok(()))
                &&& match run[k] {
                    SocketEvent::Nonblocking { nonblocking, outcome } => !nonblocking && outcome
                        is Ok,
                    _ => false,
                }
                &&& recv_frame_run(run.subrange(k + 1, run.len() - 1), bytes_result(frame))
                &&& run.last() == (SocketEvent::Nonblocking {
                    nonblocking: true,
                    outcome: restored,
                })
            },
    }
}

/// Sends the client's results, a JSON text, and reads the server's.
pub fn exchange_results(control: &mut Protocol, body: &[u8]) -> (x: ResultsExchange)
    ensures
        extends(old(control).log(), final(control).log()),
        exchange_run(
            body@,
            calls(old(control).log(), final(control).log()),
            x,
        ),
{
    let ghost log0 = control.log();
    match send_framed_json(control, body) {
        Err(e) => {
            return ResultsExchange::NotSent(e);
        },
        Ok(_) => {},
    }
    let ghost log1 = control.log();
    let blocking = control.set_nonblocking(false);
    let ghost log2 = control.log();
    proof {
        calls_compose(log0, log1, log2);
        assert(calls(log0, log2).drop_last() =~= calls(log0, log1));
    }
    match blocking {
        Err(e) => {
            return ResultsExchange::NotBlocking(e);
        },
        Ok(_) => {},
    }
    let frame = recv_framed_json(control);
    let ghost log3 = control.log();
    let restored = control.set_nonblocking(true);
    let ghost log4 = control.log();
    proof {
        calls_compose(log2, log3, log4);
        calls_compose(log0, log2, log4);
        let run = calls(log0, log4);
        let k = calls(log0, log1).len() as int;
        assert(run.take(k) =~= calls(log0, log1));
        assert(run[k] == calls(log0, log2).last());
        assert(run.subrange(k + 1, run.len() - 1) =~= calls(log2, log3));
        assert(send_frame_run(body@, run.take(k), Ok(())));
        assert(calls(log0, log2).last() == log2.last());
        assert(run.last() == log4.last());
    }
    ResultsExchange::Read { frame, restored }
}

} // verus!
