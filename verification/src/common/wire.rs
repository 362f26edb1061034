//! Control-channel payloads and framing.
//!
//! A control message is a single byte. A JSON payload travels behind its
//! length, four bytes in network order. Reads put short deliveries together
//! again, so a peer may cut the bytes anywhere.

use vstd::prelude::*;
use vstd::slice::slice_subrange;

use super::big_endian::{be_bytes, be_value, push_be, read_be};
use super::direction::Direction;
use super::error::{ErrorKind, IoError};
use super::float_bits::FloatBits;
use super::message::Message;
use super::protocol::{Protocol, SocketEvent};
use super::text::{decimal, push_decimal};
use super::transport_kind::TransportKind;

verus! {

/// The protocol version that a client claims when options are exchanged.
pub const CLIENT_VERSION: &'static str = "3.1.3";

/// Default bytes per write for TCP tests.
pub const DEFAULT_TCP_LEN: usize = 131_072;

/// Maximum accepted control-channel JSON frame size. Normal option and
/// result payloads are tiny; the bound keeps a peer from forcing a large
/// allocation by announcing a huge frame.
pub const MAX_JSON_FRAME_LEN: usize = 16_777_216;

/// The options a client sends when the server asks for them.
#[derive(Debug, Clone, PartialEq)]
pub struct ClientOptions {
    pub tcp: bool,
    pub omit: u32,
    pub time: u32,
    pub parallel: u32,
    pub len: u32,
    pub client_version: String,
    pub udp: bool,
    pub bandwidth: u64,
    pub reverse: bool,
    pub bidirectional: bool,
    /// Proof of who the client is, where it was asked to give one.
    pub authtoken: Option<String>,
}

/// Whether a number is left out of the options on the wire: peers change
/// their ways when they see a field that they do not expect, so a field at
/// its default does not appear.
pub fn is_zero_u64(n: &u64) -> (b: bool)
    ensures
        b == (*n == 0),
{
    *n == 0
}

impl ClientOptions {
    /// A forward TCP test without an omit window or a rate limit.
    pub fn tcp_defaults(time_secs: u32, parallel: u32, len: u32) -> (o: ClientOptions)
        ensures
            o.tcp,
            o.omit == 0,
            o.time == time_secs,
            o.parallel == parallel,
            o.len == len,
            o.client_version@ == CLIENT_VERSION@,
            !o.udp,
            o.bandwidth == 0,
            !o.reverse,
            !o.bidirectional,
            o.authtoken is None,
    {
        ClientOptions {
            tcp: true,
            omit: 0,
            time: time_secs,
            parallel,
            len,
            client_version: CLIENT_VERSION.to_owned(),
            udp: false,
            bandwidth: 0,
            reverse: false,
            bidirectional: false,
            authtoken: None,
        }
    }
}

impl ClientOptions {
    /// Which way the data flows.
    pub open spec fn spec_direction(self) -> Direction {
        if self.bidirectional {
            Direction::Bidirectional
        } else if self.reverse {
            Direction::Reverse
        } else {
            Direction::Forward
        }
    }

    /// Which transport the data streams use. Clients leave `tcp` out where it
    /// does not hold, so `udp` decides.
    pub open spec fn spec_transport(self) -> TransportKind {
        if self.udp {
            TransportKind::Udp
        } else {
            TransportKind::Tcp
        }
    }

    /// Which way the data flows.
    pub fn direction(&self) -> (d: Direction)
        ensures
            d == self.spec_direction(),
    {
        if self.bidirectional {
            Direction::Bidirectional
        } else if self.reverse {
            Direction::Reverse
        } else {
            Direction::Forward
        }
    }

    /// Which transport the data streams use.
    pub fn transport(&self) -> (t: TransportKind)
        ensures
            t == self.spec_transport(),
    {
        if self.udp {
            TransportKind::Udp
        } else {
            TransportKind::Tcp
        }
    }
}

/// Per-stream accounting, reported when results are exchanged.
#[derive(Debug, Clone, Copy, PartialEq, Eq, Structural)]
pub struct StreamResults {
    pub id: u32,
    pub bytes: u64,
    pub retransmits: i64,
    pub jitter: FloatBits,
    pub errors: u64,
    pub packets: u64,
}

/// The results that the two sides exchange at the end of a test.
#[derive(Debug, Clone, PartialEq, Eq)]
pub struct Results {
    pub cpu_util_total: FloatBits,
    pub cpu_util_user: FloatBits,
    pub cpu_util_system: FloatBits,
    pub sender_has_retransmits: i32,
    pub streams: Vec<StreamResults>,
}

impl Results {
    /// Results of no streams.
    pub fn empty() -> (r: Results)
        ensures
            r.cpu_util_total.bits == 0,
            r.cpu_util_user.bits == 0,
            r.cpu_util_system.bits == 0,
            r.sender_has_retransmits == 0,
            r.streams@.len() == 0,
    {
        Results {
            cpu_util_total: FloatBits::zero(),
            cpu_util_user: FloatBits::zero(),
            cpu_util_system: FloatBits::zero(),
            sender_has_retransmits: 0,
            streams: Vec::new(),
        }
    }
}

// ---------------------------------------------------------------------
// Runs of calls on a socket.

/// The calls made between two states of a log.
pub open spec fn calls(before: Seq<SocketEvent>, after: Seq<SocketEvent>) -> Seq<SocketEvent> {
    after.skip(before.len() as int)
}

/// Nothing in the log was lost.
pub open spec fn extends(before: Seq<SocketEvent>, after: Seq<SocketEvent>) -> bool {
    before.is_prefix_of(after)
}

/// The bytes that a socket took over a run of calls.
pub open spec fn sent_bytes(run: Seq<SocketEvent>) -> Seq<u8>
    decreases run.len(),
{
    if run.len() == 0 {
        Seq::empty()
    } else {
        sent_bytes(run.drop_last()) + match run.last() {
            SocketEvent::Send { data, taken: Ok(n) } => data.take(n as int),
            _ => Seq::empty(),
        }
    }
}

/// The bytes that a socket delivered over a run of calls.
pub open spec fn received_bytes(run: Seq<SocketEvent>) -> Seq<u8>
    decreases run.len(),
{
    if run.len() == 0 {
        Seq::empty()
    } else {
        received_bytes(run.drop_last()) + match run.last() {
            SocketEvent::Recv { got: Ok(chunk), .. } => chunk,
            _ => Seq::empty(),
        }
    }
}

/// How much of `buf` the calls have got out, where each call offers all that
/// is left and takes some of it.
pub open spec fn write_progress(buf: Seq<u8>, run: Seq<SocketEvent>) -> Option<int>
    decreases run.len(),
{
    if run.len() == 0 {
        Some(0)
    } else {
        match (write_progress(buf, run.drop_last()), run.last()) {
            (Some(p), SocketEvent::Send { data, taken: Ok(n) }) => if p < buf.len() && data
                == buf.skip(p) && 0 < n <= data.len() {
                Some(p + n)
            } else {
                None
            },
            _ => None,
        }
    }
}

/// The calls that send all of `buf`: they stop when nothing is left, at the
/// first error, and at a call that takes nothing.
pub open spec fn write_run(buf: Seq<u8>, run: Seq<SocketEvent>, r: Result<(), IoError>) -> bool {
    match r {
        Ok(_) => write_progress(buf, run) == Some(buf.len() as int),
        Err(e) => {
            &&& run.len() > 0
            &&& match (write_progress(buf, run.drop_last()), run.last()) {
                (Some(p), SocketEvent::Send { data, taken }) => {
                    &&& p < buf.len()
                    &&& data == buf.skip(p)
                    &&& (taken == Err::<nat, IoError>(e) || taken == Ok::<nat, IoError>(0) && e.is(
                        ErrorKind::WriteZero,
                        "socket returned 0-byte send"@,
                    ))
                },
                _ => false,
            }
        },
    }
}

/// What the calls have brought in of `total` bytes, where each call asks for
/// all that is missing and gets some of it.
pub open spec fn read_progress(total: nat, run: Seq<SocketEvent>) -> Option<Seq<u8>>
    decreases run.len(),
{
    if run.len() == 0 {
        Some(Seq::empty())
    } else {
        match (read_progress(total, run.drop_last()), run.last()) {
            (Some(b), SocketEvent::Recv { room, got: Ok(chunk) }) => if b.len() < total && room
                == total - b.len() && 0 < chunk.len() <= room {
                Some(b + chunk)
            } else {
                None
            },
            _ => None,
        }
    }
}

/// The calls that bring in exactly `total` bytes: they stop when nothing is
/// missing, at the first error, and when the peer has closed.
pub open spec fn read_run(
    total: nat,
    run: Seq<SocketEvent>,
    closed: Seq<char>,
    r: Result<Seq<u8>, IoError>,
) -> bool {
    match r {
        Ok(bytes) => read_progress(total, run) == Some(bytes) && bytes.len() == total,
        Err(e) => {
            &&& run.len() > 0
            &&& match (read_progress(total, run.drop_last()), run.last()) {
                (Some(b), SocketEvent::Recv { room, got }) => {
                    &&& b.len() < total
                    &&& room == total - b.len()
                    &&& (got == Err::<Seq<u8>, IoError>(e) || got == Ok::<Seq<u8>, IoError>(
                        Seq::empty(),
                    ) && e.is(ErrorKind::UnexpectedEof, closed))
                },
                _ => false,
            }
        },
    }
}

/// Loops until `buf` is fully written: a single `send` may take a part only.
pub fn write_all(sock: &mut Protocol, buf: &[u8]) -> (r: Result<(), IoError>)
    ensures
        extends(old(sock).log(), final(sock).log()),
        write_run(buf@, calls(old(sock).log(), final(sock).log()), r),
{
    let ghost before = sock.log();
    let mut done: usize = 0;
    proof {
        assert(calls(before, sock.log()) =~= Seq::<SocketEvent>::empty());
    }
    while done < buf.len()
        invariant
            done <= buf@.len(),
            before == old(sock).log(),
            extends(before, sock.log()),
            write_progress(buf@, calls(before, sock.log())) == Some(done as int),
        decreases buf.len() - done,
    {
        let ghost mid = sock.log();
        let rest = slice_subrange(buf, done, buf.len());
        proof {
            assert(rest@ =~= buf@.skip(done as int));
        }
        let outcome = sock.send(rest);
        proof {
            assert(sock.log().drop_last() =~= mid);
            calls_after_push(before, mid, sock.log());
        }
        match outcome {
            Err(e) => {
                return Err(e);
            },
            Ok(n) => {
                if n == 0 {
                    return Err(IoError::new(ErrorKind::WriteZero, "socket returned 0-byte send"));
                }
                done = done + n;
            },
        }
    }
    Ok(())
}

/// One more call makes a run longer by that call.
pub proof fn calls_after_push(
    before: Seq<SocketEvent>,
    mid: Seq<SocketEvent>,
    after: Seq<SocketEvent>,
)
    requires
        extends(before, mid),
        after.len() == mid.len() + 1,
        after.drop_last() == mid,
    ensures
        extends(before, after),
        calls(before, after).len() > 0,
        calls(before, after).drop_last() == calls(before, mid),
        calls(before, after).last() == after.last(),
{
    assert(calls(before, after).drop_last() =~= calls(before, mid));
    assert forall|i: int| 0 <= i < before.len() implies before[i] == after[i] by {
        assert(before[i] == mid[i]);
        assert(after.drop_last()[i] == after[i]);
    }
}

/// Loops until `buf` is full: a single `recv` may deliver a part only.
/// `closed` is the message for a peer that closes too early. After an error
/// what did arrive stands at the front of `buf`.
pub fn fill(sock: &mut Protocol, buf: &mut [u8], closed: &str) -> (r: Result<(), IoError>)
    ensures
        extends(old(sock).log(), final(sock).log()),
        final(buf)@.len() == old(buf)@.len(),
        match r {
            Ok(_) => read_run(
                old(buf)@.len(),
                calls(old(sock).log(), final(sock).log()),
                closed@,
                Ok(final(buf)@),
            ),
            Err(e) => {
                let run = calls(old(sock).log(), final(sock).log());
                &&& read_run(old(buf)@.len(), run, closed@, Err(e))
                &&& read_progress(old(buf)@.len(), run.drop_last())->0.is_prefix_of(final(buf)@)
            },
        },
{
    let ghost before = sock.log();
    let ghost total = buf@.len();
    let mut done: usize = 0;
    proof {
        assert(calls(before, sock.log()) =~= Seq::<SocketEvent>::empty());
        assert(buf@.take(0) =~= Seq::<u8>::empty());
    }
    while done < buf.len()
        invariant
            done <= buf@.len(),
            buf@.len() == total,
            total == old(buf)@.len(),
            before == old(sock).log(),
            extends(before, sock.log()),
            read_progress(total, calls(before, sock.log())) == Some(buf@.take(done as int)),
        decreases buf@.len() - done,
    {
        let ghost mid = sock.log();
        let ghost had = buf@.take(done as int);
        let (_, rest) = buf.split_at_mut(done);
        let outcome = sock.recv(rest);
        let ghost filled = rest@;
        proof {
            assert(sock.log().drop_last() =~= mid);
            calls_after_push(before, mid, sock.log());
            assert(buf@.take(done as int) =~= had);
        }
        match outcome {
            Err(e) => {
                return Err(e);
            },
            Ok(n) => {
                if n == 0 {
                    proof {
                        assert(filled.take(0) =~= Seq::<u8>::empty());
                    }
                    return Err(IoError::new(ErrorKind::UnexpectedEof, closed));
                }
                proof {
                    assert(buf@.take(done + n) =~= had + filled.take(n as int));
                }
                done = done + n;
            },
        }
    }
    proof {
        assert(buf@.take(done as int) =~= buf@);
    }
    Ok(())
}

/// Loops until `buf` is full.
pub fn read_exact(sock: &mut Protocol, buf: &mut [u8]) -> (r: Result<(), IoError>)
    ensures
        extends(old(sock).log(), final(sock).log()),
        final(buf)@.len() == old(buf)@.len(),
        match r {
            Ok(_) => read_run(
                old(buf)@.len(),
                calls(old(sock).log(), final(sock).log()),
                "peer closed mid-frame"@,
                Ok(final(buf)@),
            ),
            Err(e) => {
                let run = calls(old(sock).log(), final(sock).log());
                &&& read_run(old(buf)@.len(), run, "peer closed mid-frame"@, Err(e))
                &&& read_progress(old(buf)@.len(), run.drop_last())->0.is_prefix_of(final(buf)@)
            },
        },
{
    fill(sock, buf, "peer closed mid-frame")
}

// ---------------------------------------------------------------------
// Control bytes.

/// The calls that read one control message.
pub open spec fn control_run(run: Seq<SocketEvent>, r: Result<Message, IoError>) -> bool {
    match read_progress(1, run) {
        Some(b) if b.len() == 1 => match r {
            Ok(m) => m.spec_byte() == b[0],
            Err(e) => {
                &&& forall|m: Message| #[trigger] m.spec_byte() != b[0]
                &&& e.is(
                    ErrorKind::InvalidData,
                    "unknown control byte: "@ + decimal(b[0] as nat),
                )
            },
        },
        _ => r matches Err(e) && read_run(1, run, "peer closed mid-frame"@, Err(e)),
    }
}

/// Sends a control message.
pub fn send_control_byte(sock: &mut Protocol, msg: Message) -> (r: Result<
    (),
    IoError,
>)
    ensures
        extends(old(sock).log(), final(sock).log()),
        write_run(seq![msg.spec_byte()], calls(old(sock).log(), final(sock).log()), r),
{
    let mut buf: Vec<u8> = Vec::new();
    buf.push(msg.byte());
    proof {
        assert(buf@ =~= seq![msg.spec_byte()]);
    }
    write_all(sock, buf.as_slice())
}

/// Reads a control message. Callers that poll a socket look for
/// `ErrorKind::WouldBlock` in the error and try again.
pub fn recv_control_byte(sock: &mut Protocol) -> (r: Result<Message, IoError>)
    ensures
        extends(old(sock).log(), final(sock).log()),
        control_run(calls(old(sock).log(), final(sock).log()), r),
{
    let mut buf: Vec<u8> = vec![0u8; 1];
    let outcome = read_exact(sock, buf.as_mut_slice());
    match outcome {
        Err(e) => Err(e),
        Ok(_) => {
            let byte: u8 = buf[0];
            match Message::from_byte(byte) {
                Ok(m) => Ok(m),
                Err(_) => {
                    let mut text = "unknown control byte: ".to_owned();
                    push_decimal(&mut text, byte as u128);
                    Err(IoError { kind: ErrorKind::InvalidData, message: text })
                },
            }
        },
    }
}

/// Reading a control message takes one call, whatever comes of it: a single
/// byte cannot arrive in parts.
pub proof fn control_run_is_one_call(run: Seq<SocketEvent>, r: Result<Message, IoError>)
    requires
        control_run(run, r),
    ensures
        run.len() == 1,
{
    let head = run.drop_last();
    if run.len() > 1 {
        assert(head.len() > 0);
        match read_progress(1, head) {
            Some(b) => {
                assert(b.len() > 0);
            },
            None => {},
        }
    }
}

// ---------------------------------------------------------------------
// Frames.

/// The four bytes in front of a body.
pub open spec fn frame_header(body: Seq<u8>) -> Seq<u8> {
    be_bytes(body.len(), 4)
}

/// A frame sent in two goes: first the header, and if that got out, the body.
pub open spec fn send_frame_parts(
    body: Seq<u8>,
    head_run: Seq<SocketEvent>,
    body_run: Seq<SocketEvent>,
    r: Result<(), IoError>,
) -> bool {
    if write_progress(frame_header(body), head_run) == Some(4int) {
        write_run(body, body_run, r)
    } else {
        &&& body_run.len() == 0
        &&& r is Err
        &&& write_run(frame_header(body), head_run, r)
    }
}

/// The calls that send a frame.
pub open spec fn send_frame_run(
    body: Seq<u8>,
    run: Seq<SocketEvent>,
    r: Result<(), IoError>,
) -> bool {
    if body.len() > u32::MAX {
        &&& run.len() == 0
        &&& r matches Err(e) && e.is(ErrorKind::InvalidInput, "payload too large"@)
    } else {
        exists|k: int|
            0 <= k <= run.len() && send_frame_parts(body, #[trigger] run.take(k), run.skip(k), r)
    }
}

/// A frame read in two goes: first the header, then as many bytes as it
/// announces, unless those are too many.
pub open spec fn recv_frame_parts(
    head_run: Seq<SocketEvent>,
    body_run: Seq<SocketEvent>,
    r: Result<Seq<u8>, IoError>,
) -> bool {
    match read_progress(4, head_run) {
        Some(h) if h.len() == 4 => if be_value(h) > MAX_JSON_FRAME_LEN {
            &&& body_run.len() == 0
            &&& r matches Err(e) && e.is(
                ErrorKind::InvalidData,
                "JSON frame too large: "@ + decimal(be_value(h)) + " bytes"@,
            )
        } else {
            read_run(be_value(h), body_run, "peer closed mid-frame"@, r)
        },
        _ => {
            &&& body_run.len() == 0
            &&& r matches Err(e) && read_run(4, head_run, "peer closed mid-frame"@, Err(e))
        },
    }
}

/// The calls that read a frame.
pub open spec fn recv_frame_run(run: Seq<SocketEvent>, r: Result<Seq<u8>, IoError>) -> bool {
    exists|k: int|
        0 <= k <= run.len() && recv_frame_parts(#[trigger] run.take(k), run.skip(k), r)
}

/// A result over bytes, by the bytes it holds.
pub open spec fn bytes_result(r: Result<Vec<u8>, IoError>) -> Result<Seq<u8>, IoError> {
    match r {
        Ok(v) => Ok(v@),
        Err(e) => Err(e),
    }
}

/// Sends a JSON text behind its length.
pub fn send_framed_json(sock: &mut Protocol, body: &[u8]) -> (r: Result<(), IoError>)
    ensures
        extends(old(sock).log(), final(sock).log()),
        send_frame_run(body@, calls(old(sock).log(), final(sock).log()), r),
{
    let ghost before = sock.log();
    if body.len() > 0xffff_ffff {
        proof {
            assert(calls(before, sock.log()) =~= Seq::<SocketEvent>::empty());
        }
        return Err(IoError::new(ErrorKind::InvalidInput, "payload too large"));
    }
    let mut header: Vec<u8> = Vec::new();
    push_be(&mut header, body.len() as u64, 4);
    proof {
        assert(header@ =~= frame_header(body@));
        super::big_endian::be_bytes_len(body@.len(), 4);
    }
    let first = write_all(sock, header.as_slice());
    let ghost mid = sock.log();
    match first {
        Err(e) => {
            proof {
                let run = calls(before, mid);
                assert(run.take(run.len() as int) =~= run);
                assert(run.skip(run.len() as int).len() == 0);
                failed_write_is_unfinished(frame_header(body@), run, e);
            }
            Err(e)
        },
        Ok(_) => {
            let second = write_all(sock, body);
            proof {
                calls_compose(before, mid, sock.log());
            }
            second
        },
    }
}

/// Reads a length and then exactly that many bytes, however they were cut on
/// the way.
pub fn recv_framed_json(sock: &mut Protocol) -> (r: Result<Vec<u8>, IoError>)
    ensures
        extends(old(sock).log(), final(sock).log()),
        recv_frame_run(calls(old(sock).log(), final(sock).log()), bytes_result(r)),
{
    let ghost before = sock.log();
    let mut header: Vec<u8> = vec![0u8; 4];
    let first = read_exact(sock, header.as_mut_slice());
    let ghost mid = sock.log();
    proof {
        let run = calls(before, mid);
        assert(run.take(run.len() as int) =~= run);
        assert(run.skip(run.len() as int).len() == 0);
    }
    match first {
        Err(e) => {
            proof {
                failed_read_is_unfinished(4, calls(before, mid), "peer closed mid-frame"@, e);
            }
            Err(e)
        },
        Ok(_) => {
            let len: u64 = read_be(header.as_slice(), 0, 4);
            proof {
                assert(header@.subrange(0, 4) =~= header@);
            }
            if len > MAX_JSON_FRAME_LEN as u64 {
                let mut text = "JSON frame too large: ".to_owned();
                push_decimal(&mut text, len as u128);
                vstd::string::StringExecFns::append(&mut text, " bytes");
                return Err(IoError { kind: ErrorKind::InvalidData, message: text });
            }
            let mut body: Vec<u8> = vec![0u8; len as usize];
            let second = read_exact(sock, body.as_mut_slice());
            proof {
                calls_compose(before, mid, sock.log());
            }
            match second {
                Err(e) => Err(e),
                Ok(_) => Ok(body),
            }
        },
    }
}

/// Two runs, one after the other, are one run.
pub proof fn calls_compose(
    before: Seq<SocketEvent>,
    mid: Seq<SocketEvent>,
    after: Seq<SocketEvent>,
)
    requires
        extends(before, mid),
        extends(mid, after),
    ensures
        extends(before, after),
        calls(before, after) == calls(before, mid) + calls(mid, after),
        calls(before, after).take(calls(before, mid).len() as int) == calls(before, mid),
        calls(before, after).skip(calls(before, mid).len() as int) == calls(mid, after),
{
    let k = calls(before, mid).len() as int;
    assert forall|i: int| 0 <= i < mid.len() implies mid[i] == after[i] by {}
    assert(calls(before, after).take(k) =~= calls(before, mid));
    assert(calls(before, after).skip(k) =~= calls(mid, after));
    assert(calls(before, after) =~= calls(before, mid) + calls(mid, after));
}

/// A run that ended in an error did not finish.
pub proof fn failed_write_is_unfinished(buf: Seq<u8>, run: Seq<SocketEvent>, e: IoError)
    requires
        write_run(buf, run, Err(e)),
    ensures
        write_progress(buf, run) is None,
{
}

proof fn failed_read_is_unfinished(
    total: nat,
    run: Seq<SocketEvent>,
    closed: Seq<char>,
    e: IoError,
)
    requires
        read_run(total, run, closed, Err(e)),
    ensures
        read_progress(total, run) is None,
{
}

// ---------------------------------------------------------------------
// What arrives is what was sent.

proof fn write_progress_sends(buf: Seq<u8>, run: Seq<SocketEvent>)
    requires
        write_progress(buf, run) is Some,
    ensures
        0 <= write_progress(buf, run)->0 <= buf.len(),
        sent_bytes(run) == buf.take(write_progress(buf, run)->0),
    decreases run.len(),
{
    if run.len() > 0 {
        write_progress_sends(buf, run.drop_last());
        let p = write_progress(buf, run.drop_last())->0;
        let q = write_progress(buf, run)->0;
        assert(buf.take(q) =~= buf.take(p) + buf.skip(p).take(q - p));
    } else {
        assert(buf.take(0) =~= Seq::<u8>::empty());
    }
}

proof fn read_progress_receives(total: nat, run: Seq<SocketEvent>)
    requires
        read_progress(total, run) is Some,
    ensures
        received_bytes(run) == read_progress(total, run)->0,
        read_progress(total, run)->0.len() <= total,
    decreases run.len(),
{
    if run.len() > 0 {
        read_progress_receives(total, run.drop_last());
    }
}

/// A write that succeeds has put exactly its buffer on the wire, and one that
/// fails has put less than all of it there, from the front.
pub proof fn write_sends_the_buffer(buf: Seq<u8>, run: Seq<SocketEvent>, r: Result<(), IoError>)
    requires
        write_run(buf, run, r),
    ensures
        r is Ok ==> sent_bytes(run) == buf,
        r is Err ==> sent_bytes(run).len() < buf.len() && sent_bytes(run).is_prefix_of(buf),
{
    match r {
        Ok(_) => {
            write_progress_sends(buf, run);
            assert(buf.take(buf.len() as int) =~= buf);
        },
        Err(_) => {
            write_progress_sends(buf, run.drop_last());
            match run.last() {
                SocketEvent::Send { data, taken: Ok(n) } => {
                    assert(data.take(0) =~= Seq::<u8>::empty());
                },
                _ => {},
            }
            assert(sent_bytes(run) =~= sent_bytes(run.drop_last()));
        },
    }
}

/// A read that succeeds gives exactly what arrived, however it was cut, and
/// one that fails has seen less than it was to bring in.
pub proof fn read_gives_what_arrived(
    total: nat,
    run: Seq<SocketEvent>,
    closed: Seq<char>,
    r: Result<Seq<u8>, IoError>,
)
    requires
        read_run(total, run, closed, r),
    ensures
        r matches Ok(bytes) ==> received_bytes(run) == bytes && bytes.len() == total,
        r is Err ==> received_bytes(run).len() < total,
{
    match r {
        Ok(_) => {
            read_progress_receives(total, run);
        },
        Err(_) => {
            read_progress_receives(total, run.drop_last());
            assert(received_bytes(run) =~= received_bytes(run.drop_last()));
        },
    }
}

pub proof fn sent_bytes_compose(a: Seq<SocketEvent>, b: Seq<SocketEvent>)
    ensures
        sent_bytes(a + b) == sent_bytes(a) + sent_bytes(b),
    decreases b.len(),
{
    if b.len() == 0 {
        assert(a + b =~= a);
        assert(sent_bytes(a) + sent_bytes(b) =~= sent_bytes(a));
    } else {
        sent_bytes_compose(a, b.drop_last());
        assert((a + b).drop_last() =~= a + b.drop_last());
        assert((a + b).last() == b.last());
        assert(sent_bytes(a + b) =~= sent_bytes(a) + sent_bytes(b));
    }
}

pub proof fn received_bytes_compose(a: Seq<SocketEvent>, b: Seq<SocketEvent>)
    ensures
        received_bytes(a + b) == received_bytes(a) + received_bytes(b),
    decreases b.len(),
{
    if b.len() == 0 {
        assert(a + b =~= a);
        assert(received_bytes(a) + received_bytes(b) =~= received_bytes(a));
    } else {
        received_bytes_compose(a, b.drop_last());
        assert((a + b).drop_last() =~= a + b.drop_last());
        assert((a + b).last() == b.last());
        assert(received_bytes(a + b) =~= received_bytes(a) + received_bytes(b));
    }
}

/// What a frame looks like on the wire.
pub proof fn frame_on_the_wire(body: Seq<u8>, run: Seq<SocketEvent>, r: Result<(), IoError>)
    requires
        send_frame_run(body, run, r),
    ensures
        r is Ok ==> sent_bytes(run) == frame_header(body) + body && body.len() <= u32::MAX,
{
    if body.len() <= u32::MAX && r is Ok {
        let k = choose|k: int|
            0 <= k <= run.len() && send_frame_parts(body, #[trigger] run.take(k), run.skip(k), r);
        super::big_endian::be_bytes_len(body.len(), 4);
        write_sends_the_buffer(frame_header(body), run.take(k), Ok(()));
        write_sends_the_buffer(body, run.skip(k), r);
        sent_bytes_compose(run.take(k), run.skip(k));
        assert(run.take(k) + run.skip(k) =~= run);
    }
}

/// A frame is read back as it was sent, however the bytes were cut on the
/// way: when all bytes of a frame of accepted size have arrived, and no
/// others, the reader returns its body.
pub proof fn frame_round_trip(
    body: Seq<u8>,
    sent: Seq<SocketEvent>,
    received: Seq<SocketEvent>,
    r: Result<Seq<u8>, IoError>,
)
    requires
        send_frame_run(body, sent, Ok(())),
        body.len() <= MAX_JSON_FRAME_LEN,
        recv_frame_run(received, r),
        received_bytes(received) == sent_bytes(sent),
    ensures
        r == Ok::<Seq<u8>, IoError>(body),
{
    frame_on_the_wire(body, sent, Ok(()));
    super::big_endian::be_limits();
    super::big_endian::be_bytes_len(body.len(), 4);
    super::big_endian::value_of_bytes(body.len(), 4);
    let k = choose|k: int|
        0 <= k <= received.len() && recv_frame_parts(
            #[trigger] received.take(k),
            received.skip(k),
            r,
        );
    let head = received.take(k);
    let rest = received.skip(k);
    received_bytes_compose(head, rest);
    assert(head + rest =~= received);
    let whole = frame_header(body) + body;
    match read_progress(4, head) {
        Some(h) if h.len() == 4 => {
            read_progress_receives(4, head);
            assert(h =~= whole.take(4));
            assert(h =~= frame_header(body));
            assert(received_bytes(rest) =~= whole.skip(4));
            assert(received_bytes(rest) =~= body);
            read_gives_what_arrived(body.len(), rest, "peer closed mid-frame"@, r);
        },
        _ => {
            read_gives_what_arrived(4, head, "peer closed mid-frame"@, Err(r->Err_0));
        },
    }
}

/// A message is read back as it was sent.
pub proof fn control_byte_round_trip(
    msg: Message,
    sent: Seq<SocketEvent>,
    received: Seq<SocketEvent>,
    r: Result<Message, IoError>,
)
    requires
        write_run(seq![msg.spec_byte()], sent, Ok(())),
        control_run(received, r),
        received_bytes(received) == sent_bytes(sent),
    ensures
        r == Ok::<Message, IoError>(msg),
{
    write_sends_the_buffer(seq![msg.spec_byte()], sent, Ok(()));
    match read_progress(1, received) {
        Some(b) if b.len() == 1 => {
            read_progress_receives(1, received);
            match r {
                Ok(m) => {
                    super::message::messages_are_told_apart(m, msg);
                },
                Err(_) => {},
            }
        },
        _ => {
            read_gives_what_arrived(1, received, "peer closed mid-frame"@, Err(r->Err_0));
        },
    }
}

/// A write receives nothing.
pub proof fn write_receives_nothing(buf: Seq<u8>, run: Seq<SocketEvent>, r: Result<(), IoError>)
    requires
        write_run(buf, run, r),
    ensures
        received_bytes(run) == Seq::<u8>::empty(),
{
    match r {
        Ok(_) => {
            write_progress_receives_nothing(buf, run);
        },
        Err(_) => {
            write_progress_receives_nothing(buf, run.drop_last());
            assert(received_bytes(run) =~= received_bytes(run.drop_last()));
        },
    }
}

proof fn write_progress_receives_nothing(buf: Seq<u8>, run: Seq<SocketEvent>)
    requires
        write_progress(buf, run) is Some,
    ensures
        received_bytes(run) == Seq::<u8>::empty(),
    decreases run.len(),
{
    if run.len() > 0 {
        write_progress_receives_nothing(buf, run.drop_last());
        assert(received_bytes(run) =~= received_bytes(run.drop_last()));
    }
}

/// A read sends nothing.
pub proof fn read_sends_nothing(
    total: nat,
    run: Seq<SocketEvent>,
    closed: Seq<char>,
    r: Result<Seq<u8>, IoError>,
)
    requires
        read_run(total, run, closed, r),
    ensures
        sent_bytes(run) == Seq::<u8>::empty(),
{
    match r {
        Ok(_) => {
            read_progress_sends_nothing(total, run);
        },
        Err(_) => {
            read_progress_sends_nothing(total, run.drop_last());
            assert(sent_bytes(run) =~= sent_bytes(run.drop_last()));
        },
    }
}

pub proof fn read_progress_sends_nothing(total: nat, run: Seq<SocketEvent>)
    requires
        read_progress(total, run) is Some,
    ensures
        sent_bytes(run) == Seq::<u8>::empty(),
    decreases run.len(),
{
    if run.len() > 0 {
        read_progress_sends_nothing(total, run.drop_last());
        assert(sent_bytes(run) =~= sent_bytes(run.drop_last()));
    }
}

/// A frame that was read in full was on the wire as its header and its body,
/// and reading it sent nothing.
pub proof fn frame_as_it_arrived(run: Seq<SocketEvent>, body: Seq<u8>)
    requires
        recv_frame_run(run, Ok(body)),
    ensures
        received_bytes(run) == frame_header(body) + body,
        sent_bytes(run) == Seq::<u8>::empty(),
        body.len() <= MAX_JSON_FRAME_LEN,
{
    let r = Ok::<Seq<u8>, IoError>(body);
    let k = choose|k: int|
        0 <= k <= run.len() && recv_frame_parts(#[trigger] run.take(k), run.skip(k), r);
    let head = run.take(k);
    let rest = run.skip(k);
    let h = read_progress(4, head)->0;
    read_progress_receives(4, head);
    read_progress_sends_nothing(4, head);
    read_gives_what_arrived(be_value(h), rest, "peer closed mid-frame"@, r);
    read_sends_nothing(be_value(h), rest, "peer closed mid-frame"@, r);
    super::big_endian::bytes_of_value(h);
    received_bytes_compose(head, rest);
    sent_bytes_compose(head, rest);
    assert(head + rest =~= run);
    assert(sent_bytes(run) =~= Seq::<u8>::empty());
}

/// What was read of a message that was understood: its byte.
pub proof fn message_as_it_arrived(run: Seq<SocketEvent>, m: Message)
    requires
        control_run(run, Ok(m)),
    ensures
        received_bytes(run) == seq![m.spec_byte()],
        sent_bytes(run) == Seq::<u8>::empty(),
{
    let b = read_progress(1, run)->0;
    read_progress_receives(1, run);
    read_progress_sends_nothing(1, run);
    assert(b =~= seq![m.spec_byte()]);
}

} // verus!
