//! What goes over the control channel.

use vstd::prelude::*;

use crate::common::big_endian::{be_limits, value_of_bytes};
use crate::common::cookie::{generate_cookie, recv_cookie, same_cookie, send_cookie, COOKIE_LEN};
use crate::common::error::{ErrorKind, IoError};
use crate::common::message::{Message, UnknownCode};
use crate::common::protocol::{Protocol, SocketEvent};
use crate::common::time::Duration;
use crate::common::wire::{calls, frame_header, read_exact, received_bytes, recv_control_byte};
use crate::common::wire::{recv_framed_json, send_control_byte, send_framed_json, sent_bytes};
use crate::common::wire::{is_zero_u64, write_all};
use crate::laws::datagrams::four;
use crate::server::{accept_control, accept_stream, admit_session, finalize_test};
use crate::server::{negotiate_options, refuse, request_results, send_test_start_running};
use crate::server::wait_for_test_end;
use crate::common::wire::ClientOptions;

verus! {

// ---------------------------------------------------------------------
// Messages.

/// The byte of each message: its number, from the top where it is negative.
pub open spec fn byte_of(m: Message) -> u8 {
    match m {
        Message::TestStart => 1,
        Message::TestRunning => 2,
        Message::ResultRequest => 3,
        Message::TestEnd => 4,
        Message::StreamBegin => 5,
        Message::StreamRunning => 6,
        Message::StreamEnd => 7,
        Message::AllStreamsEnd => 8,
        Message::ParamExchange => 9,
        Message::CreateStreams => 10,
        Message::ServerTerminate => 11,
        Message::ClientTerminate => 12,
        Message::ExchangeResults => 13,
        Message::DisplayResults => 14,
        Message::IperfStart => 15,
        Message::IperfDone => 16,
        Message::AccessDenied => 255,
        Message::ServerError => 254,
    }
}

/// Messages are their bytes, and bytes that are none of them are no message.
pub proof fn messages_are_bytes(
    m: Message,
    b: u8,
    c: i8,
    x: u8,
    r: Result<Message, UnknownCode>,
    y: i8,
    t: Result<Message, UnknownCode>,
)
    requires
        call_ensures(Message::byte, (m,), b),
        call_ensures(Message::code, (m,), c),
        call_ensures(Message::from_byte, (x,), r),
        call_ensures(Message::try_from, (y,), t),
    ensures
        b == byte_of(m),
        b < 128 ==> c == b,
        b >= 128 ==> c == b - 256,
        r matches Ok(n) ==> byte_of(n) == x,
        r is Err ==> byte_of(m) != x,
        t matches Ok(n) ==> (y >= 0 ==> byte_of(n) == y) && (y < 0 ==> byte_of(n) == y + 256),
        t is Err ==> c != y,
{
    assert(m.spec_byte() == byte_of(m));
}

// ---------------------------------------------------------------------
// Bytes on the wire.

/// The bytes that went out in the calls from position `from` on.
pub open spec fn went_out(log: Seq<SocketEvent>, from: int) -> Seq<u8>
    decreases log.len(),
{
    if log.len() == 0 || log.len() <= from {
        Seq::empty()
    } else {
        went_out(log.drop_last(), from) + match log.last() {
            SocketEvent::Send { data, taken: Ok(n) } => data.take(n as int),
            _ => Seq::empty(),
        }
    }
}

/// The bytes that came in, in the calls from position `from` on.
pub open spec fn came_in(log: Seq<SocketEvent>, from: int) -> Seq<u8>
    decreases log.len(),
{
    if log.len() == 0 || log.len() <= from {
        Seq::empty()
    } else {
        came_in(log.drop_last(), from) + match log.last() {
            SocketEvent::Recv { got: Ok(chunk), .. } => chunk,
            _ => Seq::empty(),
        }
    }
}

/// What went out and came in is what the calls moved.
pub proof fn traffic(log: Seq<SocketEvent>, from: int)
    requires
        0 <= from <= log.len(),
    ensures
        went_out(log, from) == sent_bytes(log.skip(from)),
        came_in(log, from) == received_bytes(log.skip(from)),
    decreases log.len(),
{
    if log.len() > from {
        traffic(log.drop_last(), from);
        assert(log.skip(from).drop_last() =~= log.drop_last().skip(from));
        assert(log.skip(from).last() == log.last());
    } else {
        assert(log.skip(from) =~= Seq::<SocketEvent>::empty());
    }
}

/// Writing sends the whole buffer and nothing else, or says why it could not;
/// what did get out then is the front of the buffer.
pub proof fn writing_sends_the_whole_buffer(
    p: &mut Protocol,
    buf: &[u8],
    r: Result<(), IoError>,
)
    requires
        call_ensures(write_all, (p, buf), r),
    ensures
        ({
            let from = old(p).log().len() as int;
            let log = final(p).log();
            &&& old(p).log().is_prefix_of(log)
            &&& r is Ok ==> went_out(log, from) == buf@
            &&& r is Err ==> went_out(log, from).is_prefix_of(buf@) && went_out(log, from).len()
                < buf@.len()
            &&& came_in(log, from) == Seq::<u8>::empty()
        }),
{
    let run = calls(old(p).log(), final(p).log());
    traffic(final(p).log(), old(p).log().len() as int);
    crate::common::wire::write_sends_the_buffer(buf@, run, r);
    crate::common::wire::write_receives_nothing(buf@, run, r);
}

/// Reading fills the whole buffer with what arrives, and takes no more, or
/// says why it could not.
pub proof fn reading_fills_the_whole_buffer(
    p: &mut Protocol,
    buf: &mut [u8],
    r: Result<(), IoError>,
)
    requires
        call_ensures(read_exact, (p, buf), r),
    ensures
        ({
            let from = old(p).log().len() as int;
            let log = final(p).log();
            &&& old(p).log().is_prefix_of(log)
            &&& final(buf)@.len() == old(buf)@.len()
            &&& r is Ok ==> came_in(log, from) == final(buf)@
            &&& r is Err ==> came_in(log, from).len() < old(buf)@.len()
            &&& went_out(log, from) == Seq::<u8>::empty()
        }),
{
    let run = calls(old(p).log(), final(p).log());
    let closed = "peer closed mid-frame"@;
    traffic(final(p).log(), old(p).log().len() as int);
    let n = old(buf)@.len();
    match r {
        Ok(_) => {
            crate::common::wire::read_gives_what_arrived(n, run, closed, Ok(final(buf)@));
            crate::common::wire::read_sends_nothing(n, run, closed, Ok(final(buf)@));
        },
        Err(e) => {
            crate::common::wire::read_gives_what_arrived(n, run, closed, Err(e));
            crate::common::wire::read_sends_nothing(n, run, closed, Err(e));
        },
    }
}

/// A message goes out as its byte.
pub proof fn messages_go_out_as_their_bytes(p: &mut Protocol, m: Message, r: Result<(), IoError>)
    requires
        call_ensures(send_control_byte, (p, m), r),
    ensures
        ({
            let from = old(p).log().len() as int;
            let log = final(p).log();
            &&& old(p).log().is_prefix_of(log)
            &&& r is Ok ==> went_out(log, from) == seq![byte_of(m)]
            &&& r is Err ==> went_out(log, from) == Seq::<u8>::empty()
            &&& came_in(log, from) == Seq::<u8>::empty()
        }),
{
    let run = calls(old(p).log(), final(p).log());
    let from = old(p).log().len() as int;
    traffic(final(p).log(), from);
    assert(m.spec_byte() == byte_of(m));
    crate::common::wire::write_sends_the_buffer(seq![byte_of(m)], run, r);
    crate::common::wire::write_receives_nothing(seq![byte_of(m)], run, r);
    if r is Err {
        assert(went_out(final(p).log(), from) =~= Seq::<u8>::empty());
    }
}

/// A message is read from one byte, and is the one that the byte stands for.
pub proof fn messages_come_in_as_their_bytes(p: &mut Protocol, r: Result<Message, IoError>)
    requires
        call_ensures(recv_control_byte, (p,), r),
    ensures
        ({
            let from = old(p).log().len() as int;
            let log = final(p).log();
            &&& old(p).log().is_prefix_of(log)
            &&& log.len() == from + 1
            &&& r matches Ok(m) ==> came_in(log, from) == seq![byte_of(m)] && went_out(log, from)
                == Seq::<u8>::empty()
        }),
{
    let run = calls(old(p).log(), final(p).log());
    traffic(final(p).log(), old(p).log().len() as int);
    crate::common::wire::control_run_is_one_call(run, r);
    if let Ok(m) = r {
        assert(m.spec_byte() == byte_of(m));
        crate::common::wire::message_as_it_arrived(run, m);
    }
}

proof fn headers_tell_the_length(body: Seq<u8>)
    requires
        body.len() <= u32::MAX,
    ensures
        frame_header(body).len() == 4,
        four(frame_header(body), 0) == body.len(),
{
    be_limits();
    crate::common::big_endian::be_bytes_len(body.len(), 4);
    value_of_bytes(body.len(), 4);
    let s = frame_header(body);
    let a = s.drop_last();
    let b = a.drop_last();
    let c = b.drop_last();
    assert(c.drop_last() =~= Seq::<u8>::empty());
    assert(crate::common::big_endian::be_value(c.drop_last()) == 0);
    assert(crate::common::big_endian::be_value(c) == s[0]);
    assert(crate::common::big_endian::be_value(b) == s[0] * 256 + s[1]);
    assert(crate::common::big_endian::be_value(a) == (s[0] * 256 + s[1]) * 256 + s[2]);
}

/// A frame on the wire: the length of the body in four bytes, the highest
/// first, and the body.
pub open spec fn is_frame(bytes: Seq<u8>, body: Seq<u8>) -> bool {
    &&& bytes.len() == body.len() + 4
    &&& four(bytes, 0) == body.len()
    &&& bytes.skip(4) == body
}

/// The length and the body make a frame.
pub proof fn header_and_body_are_a_frame(body: Seq<u8>)
    requires
        body.len() <= u32::MAX,
    ensures
        is_frame(frame_header(body) + body, body),
{
    headers_tell_the_length(body);
    let all = frame_header(body) + body;
    assert(four(all, 0) == four(frame_header(body), 0));
    assert(all.skip(4) =~= body);
}

/// A text goes out as one frame, unless its length does not fit in four bytes:
/// then nothing does.
pub proof fn texts_go_out_in_frames(p: &mut Protocol, body: &[u8], r: Result<(), IoError>)
    requires
        call_ensures(send_framed_json, (p, body), r),
    ensures
        ({
            let from = old(p).log().len() as int;
            let log = final(p).log();
            &&& old(p).log().is_prefix_of(log)
            &&& r is Ok ==> body@.len() <= u32::MAX && is_frame(went_out(log, from), body@)
            &&& body@.len() > u32::MAX ==> r is Err && log == old(p).log() && r->Err_0.kind
                == ErrorKind::InvalidInput
        }),
{
    let run = calls(old(p).log(), final(p).log());
    traffic(final(p).log(), old(p).log().len() as int);
    crate::common::wire::frame_on_the_wire(body@, run, r);
    if r is Ok {
        header_and_body_are_a_frame(body@);
    }
    if body@.len() > u32::MAX {
        assert(final(p).log() =~= old(p).log());
    }
}

/// A text comes in as one frame, of no more than 16 MiB.
pub proof fn texts_come_in_in_frames(p: &mut Protocol, r: Result<Vec<u8>, IoError>)
    requires
        call_ensures(recv_framed_json, (p,), r),
    ensures
        ({
            let from = old(p).log().len() as int;
            let log = final(p).log();
            &&& old(p).log().is_prefix_of(log)
            &&& r matches Ok(v) ==> {
                &&& is_frame(came_in(log, from), v@)
                &&& v@.len() <= 16_777_216
                &&& went_out(log, from) == Seq::<u8>::empty()
            }
        }),
{
    let run = calls(old(p).log(), final(p).log());
    traffic(final(p).log(), old(p).log().len() as int);
    if let Ok(v) = r {
        crate::common::wire::frame_as_it_arrived(run, v@);
        header_and_body_are_a_frame(v@);
    }
}

/// What went out as a text comes in as that text, however it was cut on the
/// way, if it is within the limit.
pub proof fn texts_come_in_as_they_went_out(
    p: &mut Protocol,
    body: &[u8],
    sent: Result<(), IoError>,
    q: &mut Protocol,
    got: Result<Vec<u8>, IoError>,
)
    requires
        call_ensures(send_framed_json, (p, body), sent),
        call_ensures(recv_framed_json, (q,), got),
        sent is Ok,
        body@.len() <= 16_777_216,
        came_in(final(q).log(), old(q).log().len() as int) == went_out(
            final(p).log(),
            old(p).log().len() as int,
        ),
    ensures
        got is Ok,
        got->Ok_0@ == body@,
{
    traffic(final(p).log(), old(p).log().len() as int);
    traffic(final(q).log(), old(q).log().len() as int);
    crate::common::wire::frame_round_trip(
        body@,
        calls(old(p).log(), final(p).log()),
        calls(old(q).log(), final(q).log()),
        crate::common::wire::bytes_result(got),
    );
}

/// What went out as a message comes in as that message.
pub proof fn messages_come_in_as_they_went_out(
    p: &mut Protocol,
    m: Message,
    sent: Result<(), IoError>,
    q: &mut Protocol,
    got: Result<Message, IoError>,
)
    requires
        call_ensures(send_control_byte, (p, m), sent),
        call_ensures(recv_control_byte, (q,), got),
        sent is Ok,
        came_in(final(q).log(), old(q).log().len() as int) == went_out(
            final(p).log(),
            old(p).log().len() as int,
        ),
    ensures
        got == Ok::<Message, IoError>(m),
{
    traffic(final(p).log(), old(p).log().len() as int);
    traffic(final(q).log(), old(q).log().len() as int);
    crate::common::wire::control_byte_round_trip(
        m,
        calls(old(p).log(), final(p).log()),
        calls(old(q).log(), final(q).log()),
        got,
    );
}

/// A number is left out of the options where it is zero.
pub proof fn zeros_are_left_out(n: u64, b: bool)
    requires
        call_ensures(is_zero_u64, (&n,), b),
    ensures
        b <==> n == 0,
{
}

// ---------------------------------------------------------------------
// Cookies.

/// A letter or digit of ASCII.
pub open spec fn letter_or_digit(b: u8) -> bool {
    48 <= b <= 57 || 65 <= b <= 90 || 97 <= b <= 122
}

/// A cookie is 36 letters and digits and a zero. Two are the same where all
/// bytes are.
pub proof fn cookies_are_letters_and_digits(
    c: [u8; COOKIE_LEN],
    a: [u8; COOKIE_LEN],
    b: [u8; COOKIE_LEN],
    same: bool,
)
    requires
        call_ensures(generate_cookie, (), c),
        call_ensures(same_cookie, (&a, &b), same),
    ensures
        c@.len() == 37,
        c@[36] == 0,
        forall|i: int| 0 <= i < 36 ==> letter_or_digit(#[trigger] c@[i]),
        same <==> forall|i: int| 0 <= i < 37 ==> #[trigger] a@[i] == b@[i],
{
    if forall|i: int| 0 <= i < 37 ==> #[trigger] a@[i] == b@[i] {
        assert(a@ =~= b@);
    }
}

/// A cookie goes out in one write, and comes in as the next 37 bytes.
pub proof fn cookies_go_out_and_come_in(
    p: &mut Protocol,
    c: [u8; COOKIE_LEN],
    sent: Result<(), IoError>,
    q: &mut Protocol,
    got: Result<[u8; COOKIE_LEN], IoError>,
)
    requires
        call_ensures(send_cookie, (p, &c), sent),
        call_ensures(recv_cookie, (q,), got),
    ensures
        final(p).log().len() == old(p).log().len() + 1,
        final(p).log().drop_last() == old(p).log(),
        final(p).log().last() is Send,
        final(p).log().last()->data == c@,
        got matches Ok(d) ==> came_in(final(q).log(), old(q).log().len() as int) == d@,
        got is Ok ==> went_out(final(q).log(), old(q).log().len() as int) == Seq::<u8>::empty(),
{
    let run = calls(old(q).log(), final(q).log());
    traffic(final(q).log(), old(q).log().len() as int);
    let closed = crate::common::cookie::cookie_closed();
    if let Ok(d) = got {
        crate::common::wire::read_gives_what_arrived(37, run, closed, Ok(d@));
        crate::common::wire::read_sends_nothing(37, run, closed, Ok(d@));
    }
}

// ---------------------------------------------------------------------
// The server's part.

/// A peer is greeted with a limit on its silence, before its cookie is read.
pub proof fn greetings_limit_silence_first(
    p: &mut Protocol,
    timeout: Option<Duration>,
    r: Result<[u8; COOKIE_LEN], IoError>,
)
    requires
        call_ensures(accept_control, (p, timeout), r),
    ensures
        ({
            let from = old(p).log().len() as int;
            let log = final(p).log();
            &&& old(p).log().is_prefix_of(log)
            &&& log.len() > from
            &&& log[from] is ReadTimeout
            &&& log[from]->timeout == timeout
            &&& r matches Ok(c) ==> came_in(log, from + 1) == c@
        }),
{
    let from = old(p).log().len() as int;
    let run = calls(old(p).log(), final(p).log());
    assert(run[0] == final(p).log()[from]);
    assert(run.skip(1) =~= final(p).log().skip(from + 1));
    traffic(final(p).log(), from + 1);
    if let Ok(c) = r {
        crate::common::wire::read_gives_what_arrived(
            37,
            run.skip(1),
            crate::common::cookie::cookie_closed(),
            Ok(c@),
        );
    }
}

/// A data connection is taken only if it shows the cookie of its session, and
/// its silence is then no longer limited.
pub proof fn data_connections_show_the_cookie(
    p: &mut Protocol,
    cookie: [u8; COOKIE_LEN],
    i: u32,
    timeout: Option<Duration>,
    r: Result<(), IoError>,
)
    requires
        call_ensures(accept_stream, (p, &cookie, i, timeout), r),
    ensures
        ({
            let from = old(p).log().len() as int;
            let log = final(p).log();
            &&& old(p).log().is_prefix_of(log)
            &&& log.len() > from
            &&& log[from] is ReadTimeout && log[from]->ReadTimeout_timeout == timeout
            &&& r is Ok ==> {
                &&& came_in(log, from) == cookie@
                &&& log.last() is ReadTimeout && log.last()->ReadTimeout_timeout is None
            }
        }),
{
    let from = old(p).log().len() as int;
    let log = final(p).log();
    let run = calls(old(p).log(), log);
    traffic(log, from);
    let (k, c) = choose|k: int, c: Result<[u8; COOKIE_LEN], IoError>|
        #![trigger run.take(k), crate::server::greet_run(run.take(k), timeout, c)]
        0 <= k <= run.len() && crate::server::accept_stream_parts(
            run.take(k),
            run.skip(k),
            cookie@,
            i,
            timeout,
            c,
            r,
        );
    let head = run.take(k);
    let tail = run.skip(k);
    assert(head[0] == log[from]);
    if r is Ok {
        assert(run =~= head + tail);
        assert(tail[0] == log.last());
        crate::common::wire::received_bytes_compose(head, tail);
        assert(head =~= seq![head[0]] + head.skip(1));
        crate::common::wire::received_bytes_compose(seq![head[0]], head.skip(1));
        one_setting_is_silent(head[0]);
        one_setting_is_silent(tail[0]);
        assert(tail =~= seq![tail[0]]);
        crate::common::wire::read_gives_what_arrived(
            37,
            head.skip(1),
            crate::common::cookie::cookie_closed(),
            Ok(c->Ok_0@),
        );
        assert(received_bytes(run) =~= cookie@);
    }
}

proof fn one_setting_is_silent(e: SocketEvent)
    requires
        e is ReadTimeout,
    ensures
        received_bytes(seq![e]) == Seq::<u8>::empty(),
        sent_bytes(seq![e]) == Seq::<u8>::empty(),
{
    let s = seq![e];
    assert(s.drop_last() =~= Seq::<SocketEvent>::empty());
    assert(received_bytes(s.drop_last()) =~= Seq::<u8>::empty());
    assert(sent_bytes(s.drop_last()) =~= Seq::<u8>::empty());
    assert(received_bytes(s) =~= Seq::<u8>::empty());
    assert(sent_bytes(s) =~= Seq::<u8>::empty());
}

/// The server asks for the options with a 9 and for the results with a 13, and
/// takes one frame for an answer.
pub proof fn questions_are_answered_with_a_frame(
    p: &mut Protocol,
    a: Result<Vec<u8>, IoError>,
    q: &mut Protocol,
    b: Result<Vec<u8>, IoError>,
)
    requires
        call_ensures(negotiate_options, (p,), a),
        call_ensures(request_results, (q,), b),
    ensures
        a matches Ok(v) ==> went_out(final(p).log(), old(p).log().len() as int) == seq![9u8]
            && is_frame(came_in(final(p).log(), old(p).log().len() as int), v@),
        b matches Ok(v) ==> went_out(final(q).log(), old(q).log().len() as int) == seq![13u8]
            && is_frame(came_in(final(q).log(), old(q).log().len() as int), v@),
{
    traffic(final(p).log(), old(p).log().len() as int);
    traffic(final(q).log(), old(q).log().len() as int);
    if let Ok(v) = a {
        let run = calls(old(p).log(), final(p).log());
        crate::server::question_on_the_wire(Message::ParamExchange, run, v@);
        answer_fits(Message::ParamExchange, run, v@);
        header_and_body_are_a_frame(v@);
    }
    if let Ok(v) = b {
        let run = calls(old(q).log(), final(q).log());
        crate::server::question_on_the_wire(Message::ExchangeResults, run, v@);
        answer_fits(Message::ExchangeResults, run, v@);
        header_and_body_are_a_frame(v@);
    }
}

/// An answer is within the limit.
pub proof fn answer_fits(m: Message, run: Seq<SocketEvent>, body: Seq<u8>)
    requires
        crate::server::ask_run(m, run, Ok(body)),
    ensures
        body.len() <= 16_777_216,
{
    let r = Ok::<Seq<u8>, IoError>(body);
    let k = choose|k: int|
        0 <= k <= run.len() && crate::server::ask_parts(m, #[trigger] run.take(k), run.skip(k), r);
    crate::common::wire::frame_as_it_arrived(run.skip(k), body);
}

/// The start of a test is a 1 and a 2; its end is a 4 that comes in; the
/// farewell is a 14 that goes out and a 16 that comes in; and a refusal is a
/// byte of 255.
pub proof fn turns_of_a_session_are_bytes(
    s: &mut Protocol,
    started: Result<(), IoError>,
    w: &mut Protocol,
    ended: Result<(), IoError>,
    f: &mut Protocol,
    bye: Result<(), IoError>,
    x: &mut Protocol,
    refused: Result<(), IoError>,
)
    requires
        call_ensures(send_test_start_running, (s,), started),
        call_ensures(wait_for_test_end, (w,), ended),
        call_ensures(finalize_test, (f,), bye),
        call_ensures(refuse, (x,), refused),
    ensures
        started is Ok ==> went_out(final(s).log(), old(s).log().len() as int) == seq![1u8, 2u8],
        ended is Ok ==> ({
            let got = came_in(final(w).log(), old(w).log().len() as int);
            &&& got.len() > 0
            &&& got.last() == 4
            &&& went_out(final(w).log(), old(w).log().len() as int) == Seq::<u8>::empty()
        }),
        bye is Ok ==> ({
            let got = came_in(final(f).log(), old(f).log().len() as int);
            &&& went_out(final(f).log(), old(f).log().len() as int) == seq![14u8]
            &&& got.len() > 0
            &&& got.last() == 16
        }),
        refused is Ok ==> went_out(final(x).log(), old(x).log().len() as int) == seq![255u8],
        came_in(final(x).log(), old(x).log().len() as int) == Seq::<u8>::empty(),
{
    traffic(final(s).log(), old(s).log().len() as int);
    traffic(final(w).log(), old(w).log().len() as int);
    traffic(final(f).log(), old(f).log().len() as int);
    traffic(final(x).log(), old(x).log().len() as int);
    if started is Ok {
        crate::server::start_on_the_wire(
            Message::TestStart,
            Message::TestRunning,
            calls(old(s).log(), final(s).log()),
        );
    }
    if ended is Ok {
        crate::server::wait_on_the_wire(calls(old(w).log(), final(w).log()), Message::TestEnd);
    }
    if bye is Ok {
        crate::server::farewell_on_the_wire(calls(old(f).log(), final(f).log()));
    }
    let run = calls(old(x).log(), final(x).log());
    crate::common::wire::write_sends_the_buffer(seq![255u8], run, refused);
    crate::common::wire::write_receives_nothing(seq![255u8], run, refused);
}

/// A client may run its test if its identity was accepted, and if it does not
/// ask for UDP where several tests run at once. One that may is told nothing;
/// one that may not is told that access is denied, and no more.
pub proof fn clients_are_admitted_or_told_so(
    p: &mut Protocol,
    identity: Result<(), String>,
    opts: &ClientOptions,
    most: u32,
    r: Result<(), String>,
)
    requires
        call_ensures(admit_session, (p, identity, opts, most), r),
    ensures
        r is Ok <==> identity is Ok && !(opts.udp && most > 1),
        identity matches Err(e) ==> r == Err::<(), String>(e),
        identity is Ok && r is Err ==> r->Err_0@ == "UDP needs a server for one test at a time"@,
        r is Ok ==> final(p).log() == old(p).log(),
        r is Err ==> ({
            let out = went_out(final(p).log(), old(p).log().len() as int);
            out == seq![255u8] || out == Seq::<u8>::empty()
        }),
        came_in(final(p).log(), old(p).log().len() as int) == Seq::<u8>::empty(),
{
    let run = calls(old(p).log(), final(p).log());
    traffic(final(p).log(), old(p).log().len() as int);
    if r is Ok {
        assert(final(p).log() =~= old(p).log());
        assert(run =~= Seq::<SocketEvent>::empty());
    } else {
        let told = choose|told: Result<(), IoError>| #[trigger]
            crate::common::wire::write_run(
                seq![Message::AccessDenied.spec_byte()],
                run,
                told,
            );
        crate::common::wire::write_sends_the_buffer(seq![255u8], run, told);
        crate::common::wire::write_receives_nothing(seq![255u8], run, told);
        if told is Err {
            assert(sent_bytes(run) =~= Seq::<u8>::empty());
        }
    }
}

} // verus!
