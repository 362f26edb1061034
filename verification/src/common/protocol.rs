//! The channel abstraction: what the control-channel and data-path code
//! needs of a socket.

use vstd::prelude::*;

use super::call_log::CallLog;
use super::error::{ErrorKind, IoError};
use super::time::Duration;

verus! {

/// One call on a socket, with what came of it.
pub enum SocketEvent {
    /// `data` was offered for sending; so many bytes of it were taken.
    Send { data: Seq<u8>, taken: Result<nat, IoError> },
    /// Up to `room` bytes were asked for, and these arrived.
    Recv { room: nat, got: Result<Seq<u8>, IoError> },
    /// The socket was told to wait, or not to.
    Nonblocking { nonblocking: bool, outcome: Result<(), IoError> },
    /// The socket was told how long a read may wait.
    ReadTimeout { timeout: Option<Duration>, outcome: Result<(), IoError> },
}

/// A connected byte channel.
pub trait Socket: Send {
    /// Every call so far that sends, receives or configures, oldest first. It
    /// exists in proofs only: a verified socket has to keep it, and one that is
    /// not verified need not mention it.
    closed spec fn calls(&self) -> Seq<SocketEvent> {
        Seq::empty()
    }

    /// Waits for bytes and puts them at the front of `buf`. No bytes, where
    /// there was room for some, means that the peer has closed.
    fn recv(&mut self, buf: &mut [u8]) -> (r: Result<usize, IoError>)
        ensures
            final(buf)@.len() == old(buf)@.len(),
            r matches Ok(n) ==> n <= old(buf)@.len(),
            final(self).calls() == old(self).calls().push(
                SocketEvent::Recv { room: old(buf)@.len(), got: received(final(buf)@, r) },
            ),
    ;

    /// Offers bytes for sending and says how many of them, from the front,
    /// were taken.
    fn send(&mut self, buf: &[u8]) -> (r: Result<usize, IoError>)
        ensures
            r matches Ok(n) ==> n <= buf@.len(),
            final(self).calls() == old(self).calls().push(
                SocketEvent::Send { data: buf@, taken: taken(r) },
            ),
    ;

    fn set_nonblocking(&mut self, nonblocking: bool) -> (r: Result<(), IoError>)
        ensures
            final(self).calls() == old(self).calls().push(
                SocketEvent::Nonblocking { nonblocking, outcome: r },
            ),
    ;

    /// Configures how long a blocking `recv` waits before it returns an
    /// error. `None` clears any deadline that was set before.
    fn set_read_timeout(&mut self, timeout: Option<Duration>) -> (r: Result<(), IoError>)
        ensures
            final(self).calls() == old(self).calls().push(
                SocketEvent::ReadTimeout { timeout, outcome: r },
            ),
    ;

    /// Total TCP segment retransmissions on this socket since the
    /// connection was established, where the platform counts them.
    fn tcp_retransmits(&self) -> Result<u32, IoError>;

    /// Applies buffer sizes, type of service, segment size and congestion
    /// algorithm. Nothing is to be done for sockets other than TCP.
    fn apply_tuning(&self, opts: &TuningOpts) -> (r: Result<(), IoError>)
        default_ensures
            r == Ok::<(), IoError>(()),
    {
        Ok(())
    }
}

/// What a read brought: the bytes at the front of the buffer, or an error.
pub open spec fn received(buf: Seq<u8>, r: Result<usize, IoError>) -> Result<Seq<u8>, IoError> {
    match r {
        Ok(n) => Ok(buf.take(n as int)),
        Err(e) => Err(e),
    }
}

/// How many bytes a write took, or an error.
pub open spec fn taken(r: Result<usize, IoError>) -> Result<nat, IoError> {
    match r {
        Ok(n) => Ok(n as nat),
        Err(e) => Err(e),
    }
}

/// How many bytes a call moved, or the error that it met.
pub open spec fn moved_by(event: SocketEvent) -> Result<usize, IoError> {
    match event {
        SocketEvent::Send { taken, .. } => match taken {
            Ok(n) => Ok(n as usize),
            Err(e) => Err(e),
        },
        SocketEvent::Recv { got, .. } => match got {
            Ok(bytes) => Ok(bytes.len() as usize),
            Err(e) => Err(e),
        },
        SocketEvent::Nonblocking { outcome, .. } | SocketEvent::ReadTimeout {
            outcome,
            ..
        } => match outcome {
            Ok(_) => Ok(0),
            Err(e) => Err(e),
        },
    }
}

/// A channel over a socket, which can be reached in no other way. Contracts
/// over channels say which calls were made on the socket, and what was
/// returned for what the calls gave. The socket stands in a tuple because a
/// boxed trait object that is moved into a field by itself counts as another
/// one in proofs.
pub struct Protocol {
    transfer: (Box<dyn Socket>,),
}

impl Protocol {
    /// The socket that carries the channel, alone in a tuple.
    pub closed spec fn socket(&self) -> (Box<dyn Socket>,) {
        self.transfer
    }

    /// Every call on the socket so far that sends, receives or configures,
    /// oldest first.
    pub open spec fn log(&self) -> Seq<SocketEvent> {
        self.socket().0.calls()
    }

    /// A channel over the given socket, with the calls that were made on it
    /// before.
    pub fn new(transfer: Box<dyn Socket>) -> (p: Protocol)
        ensures
            p.socket().0 == transfer,
            p.log() == transfer.calls(),
    {
        let transfer = (transfer,);
        Protocol { transfer }
    }

    /// Waits for bytes and puts them at the front of `buf`.
    pub fn recv(&mut self, buf: &mut [u8]) -> (r: Result<usize, IoError>)
        ensures
            final(buf)@.len() == old(buf)@.len(),
            r matches Ok(n) ==> n <= old(buf)@.len(),
            final(self).log() == old(self).log().push(
                SocketEvent::Recv { room: old(buf)@.len(), got: received(final(buf)@, r) },
            ),
    {
        self.transfer.0.recv(buf)
    }

    /// Offers bytes for sending and says how many of them, from the front,
    /// were taken.
    pub fn send(&mut self, buf: &[u8]) -> (r: Result<usize, IoError>)
        ensures
            r matches Ok(n) ==> n <= buf@.len(),
            final(self).log() == old(self).log().push(
                SocketEvent::Send { data: buf@, taken: taken(r) },
            ),
    {
        self.transfer.0.send(buf)
    }

    pub fn set_nonblocking(&mut self, nonblocking: bool) -> (r: Result<(), IoError>)
        ensures
            final(self).log() == old(self).log().push(
                SocketEvent::Nonblocking { nonblocking, outcome: r },
            ),
    {
        self.transfer.0.set_nonblocking(nonblocking)
    }

    /// Configures how long a blocking `recv` waits. `None` clears any
    /// deadline that was set before.
    pub fn set_read_timeout(&mut self, timeout: Option<Duration>) -> (r: Result<(), IoError>)
        ensures
            final(self).log() == old(self).log().push(
                SocketEvent::ReadTimeout { timeout, outcome: r },
            ),
    {
        self.transfer.0.set_read_timeout(timeout)
    }

    /// What the socket says of retransmissions.
    pub fn tcp_retransmits(&self) -> (r: Result<u32, IoError>)
        ensures
            tells_retransmits(&*self.socket().0, r),
    {
        ask_retransmits(&*self.transfer.0)
    }

    /// Has the socket apply options.
    pub fn apply_tuning(&self, opts: &TuningOpts) -> (r: Result<(), IoError>)
        ensures
            answers_tuning(&*self.socket().0, opts, r),
    {
        ask_tuning(&*self.transfer.0, opts)
    }
}

/// A call of `tcp_retransmits` on the socket gives `r`.
pub open spec fn tells_retransmits<S: Socket + ?Sized>(
    socket: &S,
    r: Result<u32, IoError>,
) -> bool {
    call_ensures(S::tcp_retransmits, (socket,), r)
}

/// A call of `apply_tuning` on the socket, with these options, gives `r`.
pub open spec fn answers_tuning<S: Socket + ?Sized>(
    socket: &S,
    opts: &TuningOpts,
    r: Result<(), IoError>,
) -> bool {
    call_ensures(S::apply_tuning, (socket, opts), r)
}

fn ask_retransmits<S: Socket + ?Sized>(socket: &S) -> (r: Result<u32, IoError>)
    ensures
        tells_retransmits(socket, r),
{
    socket.tcp_retransmits()
}

fn ask_tuning<S: Socket + ?Sized>(socket: &S, opts: &TuningOpts) -> (r: Result<(), IoError>)
    ensures
        answers_tuning(socket, opts, r),
{
    socket.apply_tuning(opts)
}

/// Socket-level options, applied once a connection stands. They mirror the
/// command-line options `-w` (window), `-M` (segment size), `-C` (congestion)
/// and `-S` (type of service).
#[derive(Debug, Clone)]
pub struct TuningOpts {
    pub window_size: Option<u32>,
    pub mss: Option<u32>,
    pub congestion: Option<String>,
    pub tos: Option<u8>,
}

impl Default for TuningOpts {
    fn default() -> (o: TuningOpts)
        ensures
            o.window_size is None,
            o.mss is None,
            o.congestion is None,
            o.tos is None,
    {
        TuningOpts { window_size: None, mss: None, congestion: None, tos: None }
    }
}

/// One option to set on a TCP socket.
#[derive(Debug, Clone, PartialEq, Eq)]
pub enum SocketOption {
    SendBuffer(u32),
    ReceiveBuffer(u32),
    TypeOfService(u8),
    SegmentSize(u32),
    Congestion(String),
}

impl TuningOpts {
    /// The options to set, in order. The window goes to both buffers.
    pub open spec fn options(self) -> Seq<SocketOption> {
        (match self.window_size {
            Some(w) => seq![SocketOption::SendBuffer(w), SocketOption::ReceiveBuffer(w)],
            None => seq![],
        }) + (match self.tos {
            Some(t) => seq![SocketOption::TypeOfService(t)],
            None => seq![],
        }) + (match self.mss {
            Some(m) => seq![SocketOption::SegmentSize(m)],
            None => seq![],
        }) + (match self.congestion {
            Some(c) => seq![SocketOption::Congestion(c)],
            None => seq![],
        })
    }

    /// The options to set on a socket, in order. Setting one may fail; the
    /// others are set all the same.
    pub fn plan(&self) -> (plan: Vec<SocketOption>)
        ensures
            plan@ == self.options(),
    {
        let mut plan: Vec<SocketOption> = Vec::new();
        if let Some(w) = self.window_size {
            plan.push(SocketOption::SendBuffer(w));
            plan.push(SocketOption::ReceiveBuffer(w));
        }
        if let Some(t) = self.tos {
            plan.push(SocketOption::TypeOfService(t));
        }
        if let Some(m) = self.mss {
            plan.push(SocketOption::SegmentSize(m));
        }
        if let Some(c) = &self.congestion {
            plan.push(SocketOption::Congestion(c.clone()));
        }
        proof {
            assert(plan@ =~= self.options());
        }
        plan
    }
}

/// An in-memory socket that records what is sent on it and hands out
/// prepared chunks, one per `recv`.
pub struct MockSocket {
    /// Everything sent so far.
    pub written: Vec<u8>,
    /// The error that every `send` meets, if any.
    pub send_err: Option<IoError>,
    /// The chunks that are still to be handed out.
    pub recv_queue: Vec<Vec<u8>>,
    pub nonblocking: Option<bool>,
    pub read_timeout: Option<Option<Duration>>,
    /// Every call so far that sends, receives or configures.
    pub history: CallLog,
}

impl MockSocket {
    /// A socket with nothing to hand out.
    pub fn new() -> (m: MockSocket)
        ensures
            m.written@.len() == 0,
            m.send_err is None,
            m.recv_queue@.len() == 0,
            m.nonblocking is None,
            m.read_timeout is None,
            m.history.calls().len() == 0,
    {
        MockSocket {
            written: Vec::new(),
            send_err: None,
            recv_queue: Vec::new(),
            nonblocking: None,
            read_timeout: None,
            history: CallLog::new(),
        }
    }

    /// The same socket, on which every `send` fails with `e`.
    pub fn with_send_error(self, e: IoError) -> (m: MockSocket)
        ensures
            m.send_err == Some(e),
            m.written == self.written,
            m.recv_queue == self.recv_queue,
            m.nonblocking == self.nonblocking,
            m.read_timeout == self.read_timeout,
            m.history == self.history,
    {
        let mut m = self;
        m.send_err = Some(e);
        m
    }
}

impl Socket for MockSocket {
    open spec fn calls(&self) -> Seq<SocketEvent> {
        self.history.calls()
    }

    fn recv(&mut self, buf: &mut [u8]) -> (r: Result<usize, IoError>)
        ensures
            old(self).recv_queue@.len() == 0 <==> r is Err,
            r matches Err(e) ==> e.is(ErrorKind::WouldBlock, "no data"@),
            r matches Ok(n) ==> {
                let next = old(self).recv_queue@[0]@;
                &&& n == (if next.len() <= old(buf)@.len() { next.len() } else { old(buf)@.len() })
                &&& final(buf)@.take(n as int) == next.take(n as int)
                &&& final(self).recv_queue@ == old(self).recv_queue@.skip(1)
            },
            r is Err ==> final(self).recv_queue == old(self).recv_queue,
            *final(self) == (MockSocket {
                recv_queue: final(self).recv_queue,
                history: final(self).history,
                ..*old(self)
            }),
    {
        if self.recv_queue.len() == 0 {
            let r = Err(IoError::new(ErrorKind::WouldBlock, "no data"));
            self.history.note(Ghost(SocketEvent::Recv { room: buf@.len(), got: received(buf@, r) }));
            return r;
        }
        let next = self.recv_queue.remove(0);
        proof {
            assert(self.recv_queue@ =~= old(self).recv_queue@.skip(1));
        }
        let n: usize = if next.len() <= buf.len() {
            next.len()
        } else {
            buf.len()
        };
        let mut i: usize = 0;
        while i < n
            invariant
                i <= n <= next@.len(),
                n <= buf@.len(),
                buf@.len() == old(buf)@.len(),
                forall|j: int| 0 <= j < i ==> buf@[j] == next@[j],
            decreases n - i,
        {
            buf[i] = next[i];
            i = i + 1;
        }
        proof {
            assert(buf@.take(n as int) =~= next@.take(n as int));
        }
        let r = Ok(n);
        self.history.note(Ghost(SocketEvent::Recv { room: buf@.len(), got: received(buf@, r) }));
        r
    }

    fn send(&mut self, buf: &[u8]) -> (r: Result<usize, IoError>)
        ensures
            match old(self).send_err {
                Some(e) => {
                    &&& r is Err
                    &&& r->Err_0.is(e.kind, e.message@)
                    &&& final(self).written == old(self).written
                },
                None => {
                    &&& r == Ok::<usize, IoError>(buf@.len() as usize)
                    &&& final(self).written@ == old(self).written@ + buf@
                },
            },
            *final(self) == (MockSocket {
                written: final(self).written,
                history: final(self).history,
                ..*old(self)
            }),
    {
        let r = match &self.send_err {
            Some(e) => {
                Err(IoError::new(e.kind, e.message.as_str()))
            },
            None => {
                self.written.extend_from_slice(buf);
                Ok(buf.len())
            },
        };
        self.history.note(Ghost(SocketEvent::Send { data: buf@, taken: taken(r) }));
        r
    }

    fn set_nonblocking(&mut self, nonblocking: bool) -> (r: Result<(), IoError>)
        ensures
            r is Ok,
            *final(self) == (MockSocket {
                nonblocking: Some(nonblocking),
                history: final(self).history,
                ..*old(self)
            }),
    {
        self.nonblocking = Some(nonblocking);
        let r = Ok(());
        self.history.note(Ghost(SocketEvent::Nonblocking { nonblocking, outcome: r }));
        r
    }

    fn set_read_timeout(&mut self, timeout: Option<Duration>) -> (r: Result<(), IoError>)
        ensures
            r is Ok,
            *final(self) == (MockSocket {
                read_timeout: Some(timeout),
                history: final(self).history,
                ..*old(self)
            }),
    {
        self.read_timeout = Some(timeout);
        let r = Ok(());
        self.history.note(Ghost(SocketEvent::ReadTimeout { timeout, outcome: r }));
        r
    }

    fn tcp_retransmits(&self) -> (r: Result<u32, IoError>)
        ensures
            r == Ok::<u32, IoError>(0),
    {
        Ok(0)
    }
}

} // verus!
