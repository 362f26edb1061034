//! Sessions of a server that runs several tests at once: all connections
//! come in on one port, and the cookie tells which session each belongs to.

use vstd::prelude::*;

use super::cookie::{same_cookie, COOKIE_LEN};
use super::error::{ErrorKind, IoError};
use super::protocol::Protocol;
use super::time::{Duration, MAX_NANOS};

verus! {

/// The sending end of a channel of the standard library, carried unread.
#[verifier::external_type_specification]
#[verifier::external_body]
#[verifier::reject_recursive_types(T)]
pub struct ExSender<T>(std::sync::mpsc::Sender<T>);

/// The receiving end of a channel of the standard library, carried unread.
#[verifier::external_type_specification]
#[verifier::external_body]
#[verifier::reject_recursive_types(T)]
pub struct ExReceiver<T>(std::sync::mpsc::Receiver<T>);

/// `std::sync::mpsc::channel` makes the two ends of a new channel. Nothing is
/// claimed of them.
pub assume_specification<T>[ std::sync::mpsc::channel::<T> ]() -> (
    std::sync::mpsc::Sender<T>,
    std::sync::mpsc::Receiver<T>,
)
;

/// `std::sync::mpsc::Receiver::recv`: the next connection, or nothing once
/// the other end is gone. Which one it is depends on the thread at the other
/// end, so nothing is claimed of it.
#[verifier::external_body]
fn receive(data_rx: &std::sync::mpsc::Receiver<Protocol>) -> (r: Option<Protocol>) {
    data_rx.recv().ok()
}

/// `std::sync::mpsc::Receiver::recv_timeout`: the next connection, or nothing
/// if none comes within the given time. Which one it is depends on the thread
/// at the other end, so nothing is claimed of it.
#[verifier::external_body]
fn receive_within(data_rx: &std::sync::mpsc::Receiver<Protocol>, secs: u64, nanos: u32) -> (r:
    Option<Protocol>)
    requires
        nanos < 1_000_000_000,
{
    data_rx.recv_timeout(std::time::Duration::new(secs, nanos)).ok()
}

/// One wait for a data connection, with what came of it.
pub struct QueueEvent {
    /// For how long, in seconds and nanoseconds; without a limit if `None`.
    pub limit: Option<(u64, u32)>,
    /// The connection that came, if one did.
    pub got: Option<Protocol>,
}

/// The end of a session at which its data connections arrive, and the history
/// of the waits for them. The channel can be reached in no other way, so the
/// history, which exists in proofs only, is complete.
pub struct StreamQueue {
    data_rx: std::sync::mpsc::Receiver<Protocol>,
    history: Ghost<Seq<QueueEvent>>,
}

impl StreamQueue {
    /// The wait was one at this end of a channel, and what came of it came
    /// from there.
    pub closed spec fn waited_at(
        data_rx: std::sync::mpsc::Receiver<Protocol>,
        event: QueueEvent,
    ) -> bool {
        match event.limit {
            None => call_ensures(receive, (&data_rx,), event.got),
            Some((secs, nanos)) => call_ensures(
                receive_within,
                (&data_rx, secs, nanos),
                event.got,
            ),
        }
    }

    /// The end of the channel.
    pub closed spec fn channel(&self) -> std::sync::mpsc::Receiver<Protocol> {
        self.data_rx
    }

    /// Every wait so far, oldest first.
    pub closed spec fn log(&self) -> Seq<QueueEvent> {
        self.history@
    }

    /// A queue at the end of a channel, on which nobody has waited yet.
    pub fn new(data_rx: std::sync::mpsc::Receiver<Protocol>) -> (q: StreamQueue)
        ensures
            q.channel() == data_rx,
            q.log().len() == 0,
    {
        StreamQueue { data_rx, history: Ghost(Seq::empty()) }
    }

    /// Waits for the next connection until the other end is gone.
    fn next(&mut self) -> (r: Option<Protocol>)
        ensures
            final(self).channel() == old(self).channel(),
            final(self).log() == old(self).log().push((QueueEvent { limit: None, got: r })),
            Self::waited_at(old(self).channel(), final(self).log().last()),
    {
        let r = receive(&self.data_rx);
        self.history = Ghost(self.history@.push(QueueEvent { limit: None, got: r }));
        r
    }

    /// Waits for the next connection for some time.
    fn next_within(&mut self, secs: u64, nanos: u32) -> (r: Option<Protocol>)
        requires
            nanos < 1_000_000_000,
        ensures
            final(self).channel() == old(self).channel(),
            final(self).log() == old(self).log().push(
                (QueueEvent { limit: Some((secs, nanos)), got: r }),
            ),
            Self::waited_at(old(self).channel(), final(self).log().last()),
    {
        let r = receive_within(&self.data_rx, secs, nanos);
        self.history = Ghost(
            self.history@.push(QueueEvent { limit: Some((secs, nanos)), got: r }),
        );
        r
    }
}

/// The end of a session that the accept loop holds: data connections that
/// show the session's cookie go in here.
pub struct SessionHandle {
    pub data_tx: std::sync::mpsc::Sender<Protocol>,
}

/// A test that runs on its own thread.
pub struct Session {
    pub cookie: [u8; COOKIE_LEN],
    pub control: Protocol,
    pub data_rx: std::sync::mpsc::Receiver<Protocol>,
}

impl Session {
    /// A session and its handle: what goes in at the handle comes out at the
    /// session, for they hold the two ends of one new channel.
    pub fn new(cookie: [u8; COOKIE_LEN], control: Protocol) -> (r: (Session, SessionHandle))
        ensures
            r.0.cookie == cookie,
            r.0.control == control,
            call_ensures(
                std::sync::mpsc::channel::<Protocol>,
                (),
                (r.1.data_tx, r.0.data_rx),
            ),
    {
        let (tx, rx) = std::sync::mpsc::channel::<Protocol>();
        (Session { cookie, control, data_rx: rx }, SessionHandle { data_tx: tx })
    }
}

/// What became of waiting for a data connection.
pub open spec fn stream_outcome(
    received: Option<Protocol>,
    timeout: Option<Duration>,
    r: Result<Protocol, IoError>,
) -> bool {
    match received {
        Some(p) => r == Ok::<Protocol, IoError>(p),
        None => r matches Err(e) && missing_stream(timeout, e),
    }
}

/// The error for a data connection that did not come.
pub open spec fn missing_stream(timeout: Option<Duration>, e: IoError) -> bool {
    match timeout {
        Some(_) => e.is(ErrorKind::TimedOut, "timed out waiting for data stream"@),
        None => e.is(ErrorKind::UnexpectedEof, "data-stream channel closed"@),
    }
}

/// Takes a data connection that came, or says that it did not.
pub fn take_stream(received: Option<Protocol>, timeout: Option<Duration>) -> (r: Result<
    Protocol,
    IoError,
>)
    ensures
        stream_outcome(received, timeout, r),
{
    match received {
        Some(p) => Ok(p),
        None => match timeout {
            Some(_) => Err(
                IoError::new(ErrorKind::TimedOut, "timed out waiting for data stream"),
            ),
            None => Err(IoError::new(ErrorKind::UnexpectedEof, "data-stream channel closed")),
        },
    }
}

/// A wait that lasts as long as `timeout` says.
pub open spec fn waits_for(limit: Option<(u64, u32)>, timeout: Option<Duration>) -> bool {
    match (limit, timeout) {
        (None, None) => true,
        (Some((secs, nanos)), Some(t)) => nanos < 1_000_000_000 && secs * 1_000_000_000 + nanos
            == t.nanos,
        _ => false,
    }
}

/// The waits that collect `n` data connections: each lasts as long as
/// `timeout` says. Either they brought exactly the connections of the result,
/// in this order, or the last one brought nothing and all before it did.
pub open spec fn collect_run(
    run: Seq<QueueEvent>,
    n: u32,
    timeout: Option<Duration>,
    r: Result<Vec<Protocol>, IoError>,
) -> bool {
    &&& forall|i: int| 0 <= i < run.len() ==> waits_for((#[trigger] run[i]).limit, timeout)
    &&& match r {
        Ok(streams) => {
            &&& run.len() == n
            &&& streams@.len() == n
            &&& forall|i: int|
                0 <= i < n ==> (#[trigger] run[i]).got == Some(streams@[i])
        },
        Err(e) => {
            &&& 0 < run.len() <= n
            &&& run.last().got is None
            &&& forall|i: int| 0 <= i < run.len() - 1 ==> (#[trigger] run[i]).got is Some
            &&& missing_stream(timeout, e)
        },
    }
}

/// Collects `n` data connections from the channel, waiting for each no longer
/// than `timeout`.
pub fn accept_streams_from_channel(
    data_rx: &mut StreamQueue,
    n: u32,
    timeout: Option<Duration>,
) -> (r: Result<Vec<Protocol>, IoError>)
    requires
        timeout matches Some(t) ==> t.nanos <= MAX_NANOS,
    ensures
        final(data_rx).channel() == old(data_rx).channel(),
        old(data_rx).log().is_prefix_of(final(data_rx).log()),
        forall|i: int|
            old(data_rx).log().len() <= i < final(data_rx).log().len() ==> StreamQueue::waited_at(
                old(data_rx).channel(),
                #[trigger] final(data_rx).log()[i],
            ),
        collect_run(final(data_rx).log().skip(old(data_rx).log().len() as int), n, timeout, r),
        n == 0 ==> r is Ok,
{
    let ghost before = data_rx.log();
    let ghost start = before.len() as int;
    let mut streams: Vec<Protocol> = Vec::new();
    let mut i: u32 = 0;
    proof {
        assert(data_rx.log().skip(start) =~= Seq::<QueueEvent>::empty());
    }
    while i < n
        invariant
            i <= n,
            streams@.len() == i,
            timeout matches Some(t) ==> t.nanos <= MAX_NANOS,
            before == old(data_rx).log(),
            start == before.len(),
            data_rx.channel() == old(data_rx).channel(),
            before.is_prefix_of(data_rx.log()),
            data_rx.log().len() == start + i,
            forall|j: int|
                start <= j < data_rx.log().len() ==> StreamQueue::waited_at(
                    data_rx.channel(),
                    #[trigger] data_rx.log()[j],
                ),
            forall|j: int|
                0 <= j < i ==> waits_for((#[trigger] data_rx.log().skip(start)[j]).limit, timeout),
            forall|j: int|
                0 <= j < i ==> (#[trigger] data_rx.log().skip(start)[j]).got == Some(streams@[j]),
        decreases n - i,
    {
        let ghost log = data_rx.log();
        let ghost had = streams@;
        let received = match timeout {
            Some(t) => data_rx.next_within(
                (t.nanos / 1_000_000_000) as u64,
                (t.nanos % 1_000_000_000) as u32,
            ),
            None => data_rx.next(),
        };
        let ghost got = received;
        proof {
            let run = data_rx.log().skip(start);
            assert(run =~= log.skip(start).push(data_rx.log().last()));
            assert(waits_for(run[i as int].limit, timeout));
            assert forall|j: int| 0 <= j < i implies run[j] == log.skip(start)[j] by {}
        }
        match take_stream(received, timeout) {
            Ok(p) => {
                streams.push(p);
                proof {
                    let run = data_rx.log().skip(start);
                    assert forall|j: int| 0 <= j < i + 1 implies (#[trigger] run[j]).got == Some(
                        streams@[j],
                    ) by {
                        if j < i {
                            assert(run[j] == log.skip(start)[j]);
                            assert(streams@[j] == had[j]);
                        }
                    }
                }
            },
            Err(e) => {
                return Err(e);
            },
        }
        i = i + 1;
    }
    Ok(streams)
}

// ---------------------------------------------------------------------
// The registry.

/// A session that is running.
pub struct SessionEntry {
    pub cookie: [u8; COOKIE_LEN],
    pub handle: SessionHandle,
}

/// What to do with a connection, by the cookie it shows.
#[derive(Debug, Clone, Copy, PartialEq, Eq, Structural)]
pub enum Route {
    /// It is a data connection of the session at this position.
    DataStream(usize),
    /// It would open one session too many: it is told that access is denied.
    Busy,
    /// It opens a session.
    NewSession,
}

/// The sessions that are running.
pub struct Registry {
    pub sessions: Vec<SessionEntry>,
    pub max_concurrent: u32,
}

impl Registry {
    /// The cookies of the running sessions.
    pub open spec fn cookies(self) -> Seq<Seq<u8>> {
        self.sessions@.map_values(|s: SessionEntry| s.cookie@)
    }

    /// No more sessions run than may, and no two share a cookie.
    pub open spec fn wf(self) -> bool {
        &&& self.sessions@.len() <= self.max_concurrent
        &&& self.cookies().no_duplicates()
    }

    pub fn new(max_concurrent: u32) -> (r: Registry)
        ensures
            r.wf(),
            r.sessions@.len() == 0,
            r.max_concurrent == max_concurrent,
    {
        let r = Registry { sessions: Vec::new(), max_concurrent };
        proof {
            assert(r.cookies().len() == 0);
        }
        r
    }

    fn find(&self, cookie: &[u8; COOKIE_LEN]) -> (r: Option<usize>)
        ensures
            match r {
                Some(i) => i < self.sessions@.len() && self.sessions@[i as int].cookie@ == cookie@,
                None => !self.cookies().contains(cookie@),
            },
    {
        let mut i: usize = 0;
        while i < self.sessions.len()
            invariant
                i <= self.sessions@.len(),
                forall|j: int| 0 <= j < i ==> (#[trigger] self.sessions@[j]).cookie@ != cookie@,
            decreases self.sessions.len() - i,
        {
            if same_cookie(&self.sessions[i].cookie, cookie) {
                return Some(i);
            }
            i = i + 1;
        }
        proof {
            if self.cookies().contains(cookie@) {
                let j = choose|j: int|
                    0 <= j < self.cookies().len() && self.cookies()[j] == cookie@;
                assert(self.sessions@[j].cookie@ == cookie@);
            }
        }
        None
    }

    /// Says what to do with a connection that shows `cookie`: it belongs to
    /// the session with that cookie, if there is one; else it opens a
    /// session, if one more may run.
    pub fn route(&self, cookie: &[u8; COOKIE_LEN]) -> (route: Route)
        requires
            self.wf(),
        ensures
            match route {
                Route::DataStream(i) => i < self.sessions@.len()
                    && self.sessions@[i as int].cookie@ == cookie@,
                Route::Busy => !self.cookies().contains(cookie@) && self.sessions@.len()
                    == self.max_concurrent,
                Route::NewSession => !self.cookies().contains(cookie@) && self.sessions@.len()
                    < self.max_concurrent,
            },
    {
        match self.find(cookie) {
            Some(i) => Route::DataStream(i),
            None => {
                if self.sessions.len() as u64 >= self.max_concurrent as u64 {
                    Route::Busy
                } else {
                    Route::NewSession
                }
            },
        }
    }

    /// Enters a session that was found to be new.
    pub fn insert(&mut self, cookie: [u8; COOKIE_LEN], handle: SessionHandle)
        requires
            old(self).wf(),
            !old(self).cookies().contains(cookie@),
            old(self).sessions@.len() < old(self).max_concurrent,
        ensures
            final(self).wf(),
            final(self).max_concurrent == old(self).max_concurrent,
            final(self).sessions@ == old(self).sessions@.push((SessionEntry { cookie, handle })),
            final(self).cookies() == old(self).cookies().push(cookie@),
    {
        self.sessions.push(SessionEntry { cookie, handle });
        proof {
            assert(self.cookies() =~= old(self).cookies().push(cookie@));
        }
    }

    /// Takes out a session that has ended. A cookie that no session has is
    /// left alone.
    pub fn remove(&mut self, cookie: &[u8; COOKIE_LEN])
        requires
            old(self).wf(),
        ensures
            final(self).wf(),
            final(self).max_concurrent == old(self).max_concurrent,
            !final(self).cookies().contains(cookie@),
            old(self).cookies().contains(cookie@) ==> exists|i: int|
                0 <= i < old(self).sessions@.len() && old(self).sessions@[i].cookie@ == cookie@
                    && final(self).sessions@ == #[trigger] old(self).sessions@.remove(i),
            !old(self).cookies().contains(cookie@) ==> final(self).sessions@ == old(
                self,
            ).sessions@,
    {
        match self.find(cookie) {
            Some(i) => {
                let ghost before = self.cookies();
                let ghost at = i as int;
                let _ = self.sessions.remove(i);
                proof {
                    assert(before[at] == cookie@);
                    assert(self.cookies() =~= before.remove(at));
                    assert forall|j: int, k: int|
                        0 <= j < k < self.cookies().len() implies self.cookies()[j]
                        != self.cookies()[k] by {
                        let a = if j < at {
                            j
                        } else {
                            j + 1
                        };
                        let b = if k < at {
                            k
                        } else {
                            k + 1
                        };
                        assert(before[a] == self.cookies()[j]);
                        assert(before[b] == self.cookies()[k]);
                    }
                    if self.cookies().contains(cookie@) {
                        let j = choose|j: int|
                            0 <= j < self.cookies().len() && self.cookies()[j] == cookie@;
                        let a = if j < at {
                            j
                        } else {
                            j + 1
                        };
                        assert(before[a] == cookie@);
                    }
                    assert(before.contains(cookie@));
                }
            },
            None => {},
        }
    }
}

/// Whether a session may use a transport: datagrams carry no cookie, so only
/// one UDP test can run at a time, and a server for several refuses them.
pub fn transport_allowed(max_concurrent: u32, udp: bool) -> (b: bool)
    ensures
        b == (max_concurrent <= 1 || !udp),
{
    max_concurrent <= 1 || !udp
}

} // verus!
