//! The session cookie: the first thing on every connection. It lets control
//! and data connections of several tests share one port.

use vstd::prelude::*;
use rand::Rng;

use super::error::IoError;
use super::protocol::{Protocol, SocketEvent};
use super::wire::{calls, extends, fill, read_run};

verus! {

/// Length of a cookie on the wire: 36 random ASCII letters and digits and a
/// trailing NUL byte.
pub const COOKIE_LEN: usize = 37;

/// An ASCII letter or digit.
pub open spec fn is_alphanumeric(b: u8) -> bool {
    ||| 48 <= b <= 57
    ||| 65 <= b <= 90
    ||| 97 <= b <= 122
}

/// What every cookie looks like.
pub open spec fn is_cookie(c: Seq<u8>) -> bool {
    &&& c.len() == COOKIE_LEN
    &&& c.last() == 0
    &&& forall|i: int| 0 <= i < COOKIE_LEN - 1 ==> is_alphanumeric(#[trigger] c[i])
}

/// `rand::Rng::sample` on the thread's generator with
/// `rand::distributions::Alphanumeric`: an ASCII letter or digit. Which one
/// it is depends on chance, so nothing more is claimed.
#[verifier::external_body]
fn sample_alphanumeric() -> (b: u8)
    ensures
        is_alphanumeric(b),
{
    rand::thread_rng().sample(rand::distributions::Alphanumeric)
}

/// The byte was drawn by chance.
pub closed spec fn was_drawn(b: u8) -> bool {
    call_ensures(sample_alphanumeric, (), b)
}

/// A fresh cookie: its bytes, but for the last, are drawn by chance.
pub fn generate_cookie() -> (cookie: [u8; COOKIE_LEN])
    ensures
        is_cookie(cookie@),
        forall|i: int| 0 <= i < COOKIE_LEN - 1 ==> was_drawn(#[trigger] cookie@[i]),
{
    let mut cookie: [u8; COOKIE_LEN] = [0u8; COOKIE_LEN];
    let mut i: usize = 0;
    while i < COOKIE_LEN - 1
        invariant
            i <= COOKIE_LEN - 1,
            cookie@.len() == COOKIE_LEN,
            cookie@[COOKIE_LEN - 1] == 0,
            forall|j: int| 0 <= j < i ==> is_alphanumeric(#[trigger] cookie@[j]),
            forall|j: int| 0 <= j < i ==> was_drawn(#[trigger] cookie@[j]),
        decreases COOKIE_LEN - i,
    {
        cookie[i] = sample_alphanumeric();
        i = i + 1;
    }
    cookie
}

/// The array that holds the bytes of `v`.
fn cookie_from_bytes(v: &Vec<u8>) -> (cookie: [u8; COOKIE_LEN])
    requires
        v@.len() == COOKIE_LEN,
    ensures
        cookie@ == v@,
{
    let mut cookie: [u8; COOKIE_LEN] = [0u8; COOKIE_LEN];
    let mut i: usize = 0;
    while i < COOKIE_LEN
        invariant
            i <= COOKIE_LEN,
            v@.len() == COOKIE_LEN,
            cookie@.len() == COOKIE_LEN,
            forall|j: int| 0 <= j < i ==> cookie@[j] == v@[j],
        decreases COOKIE_LEN - i,
    {
        cookie[i] = v[i];
        i = i + 1;
    }
    proof {
        assert(cookie@ =~= v@);
    }
    cookie
}

/// What a peer that closes too early is told of.
pub open spec fn cookie_closed() -> Seq<char> {
    "peer closed before cookie was fully received"@
}

/// The calls that read a cookie.
pub open spec fn cookie_run(
    run: Seq<SocketEvent>,
    r: Result<[u8; COOKIE_LEN], IoError>,
) -> bool {
    read_run(
        COOKIE_LEN as nat,
        run,
        cookie_closed(),
        match r {
            Ok(c) => Ok(c@),
            Err(e) => Err(e),
        },
    )
}

/// Reads exactly `COOKIE_LEN` bytes. Control and data connections both begin
/// with a cookie, so this is the first thing a server does with either.
pub fn recv_cookie(sock: &mut Protocol) -> (r: Result<[u8; COOKIE_LEN], IoError>)
    ensures
        extends(old(sock).log(), final(sock).log()),
        cookie_run(calls(old(sock).log(), final(sock).log()), r),
{
    let mut buf: Vec<u8> = vec![0u8; COOKIE_LEN];
    let outcome = fill(
        sock,
        buf.as_mut_slice(),
        "peer closed before cookie was fully received",
    );
    match outcome {
        Err(e) => Err(e),
        Ok(_) => Ok(cookie_from_bytes(&buf)),
    }
}

/// Offers the cookie in a single `send`. It is the first data on a fresh
/// connection, so it fits the socket's buffer.
pub fn send_cookie(protocol: &mut Protocol, cookie: &[u8; COOKIE_LEN]) -> (r: Result<(), IoError>)
    ensures
        final(protocol).log().len() == old(protocol).log().len() + 1,
        final(protocol).log().drop_last() == old(protocol).log(),
        match final(protocol).log().last() {
            SocketEvent::Send { data, taken } => data == cookie@ && match r {
                Ok(_) => taken is Ok,
                Err(e) => taken == Err::<nat, IoError>(e),
            },
            _ => false,
        },
{
    let outcome = protocol.send(cookie.as_slice());
    proof {
        assert(protocol.log().drop_last() =~= old(protocol).log());
    }
    match outcome {
        Ok(_) => Ok(()),
        Err(e) => Err(e),
    }
}

/// Whether two cookies are the same.
pub fn same_cookie(a: &[u8; COOKIE_LEN], b: &[u8; COOKIE_LEN]) -> (r: bool)
    ensures
        r == (a@ == b@),
{
    let mut i: usize = 0;
    while i < COOKIE_LEN
        invariant
            i <= COOKIE_LEN,
            a@.len() == COOKIE_LEN,
            b@.len() == COOKIE_LEN,
            forall|j: int| 0 <= j < i ==> a@[j] == b@[j],
        decreases COOKIE_LEN - i,
    {
        if a[i] != b[i] {
            return false;
        }
        i = i + 1;
    }
    proof {
        assert(a@ =~= b@);
    }
    true
}

} // verus!
