//! Bytes, characters, points in time and sockets.

use vstd::prelude::*;
use vstd::utf8::encode_utf8;

use crate::common::accounting::{earliest_of, latest_of, overall_span};
use crate::common::auth::{parse_private_key_pem, parse_public_key_pem, token_from_cipher};
use crate::common::auth::{build_authtoken, decode_authtoken, is_key_pair, sha256_hex};
use crate::common::auth::{validate_timestamp, wall_clock_says, AuthClaim};
use crate::common::auth::{base64_bytes, base64_text, pkcs1_private_key, pkcs1_public_key};
use crate::common::auth::{pkcs8_private_key, spki_public_key, PrivateKey, PublicKey};
use crate::common::big_endian::{be_at_least, be_bytes, be_value, push_be, read_be};
use crate::common::binary64::nearest;
use crate::common::cookie::COOKIE_LEN;
use crate::common::error::{ErrorKind, IoError};

use crate::common::interval::IntervalReporter;
use crate::common::pacing::TokenBucket;
use crate::common::protocol::{Protocol, SocketEvent};
use crate::common::stream::{should_stop, StreamMeter};
use crate::common::test::{ClientStreamReceipt, Test};
use crate::common::text::{from_chars, push_chars, push_digit, slice_chars, to_chars};
use crate::common::time::{Duration, Instant};
use crate::common::timer::{Clock, Timer};
use crate::common::udp_session::{is_slot, PeerAddr, UdpReceiver};
use crate::common::wire::{calls, fill};
use crate::laws::control::{came_in, traffic, went_out};
use crate::laws::datagrams::signed_eight;
use crate::laws::measurement::longest;
use crate::laws::pace::due;
use crate::server::{cookie_display, ServerMeter};

verus! {

// ---------------------------------------------------------------------
// Numbers in bytes.

/// The number that bytes stand for, the highest first: each byte counts 256
/// times what the next one does.
pub open spec fn in_bytes(s: Seq<u8>) -> int
    decreases s.len(),
{
    if s.len() == 0 {
        0
    } else {
        256 * in_bytes(s.drop_last()) + s.last()
    }
}

/// How many numbers some bytes can hold.
pub open spec fn bytes_hold(width: int) -> int
    decreases width,
{
    if width <= 0 {
        1
    } else {
        256 * bytes_hold(width - 1)
    }
}

proof fn values_agree(s: Seq<u8>)
    ensures
        be_value(s) == in_bytes(s),
    decreases s.len(),
{
    if s.len() > 0 {
        values_agree(s.drop_last());
    }
}

proof fn written_bytes(n: nat, width: nat)
    ensures
        be_bytes(n, width).len() == width,
        n < bytes_hold(width as int) ==> in_bytes(be_bytes(n, width)) == n,
    decreases width,
{
    if width > 0 {
        written_bytes(n / 256, (width - 1) as nat);
        let s = be_bytes(n, width);
        assert(s.drop_last() =~= be_bytes(n / 256, (width - 1) as nat));
    }
}

/// A number is written as bytes that stand for it, if they can hold it, and
/// read as what the bytes stand for; and two compare by that.
pub proof fn numbers_are_written_and_read_in_bytes(
    out: &mut Vec<u8>,
    n: u64,
    width: usize,
    bytes: &[u8],
    start: usize,
    long: usize,
    v: u64,
    other: &[u8],
    at_least: bool,
)
    requires
        call_ensures(push_be, (out, n, width), ()),
        call_ensures(read_be, (bytes, start, long), v),
        call_ensures(be_at_least, (bytes, other), at_least),
        start + long <= bytes@.len(),
    ensures
        final(out)@.len() == old(out)@.len() + width,
        final(out)@.take(old(out)@.len() as int) == old(out)@,
        n < bytes_hold(width as int) ==> in_bytes(final(out)@.skip(old(out)@.len() as int)) == n,
        v == in_bytes(bytes@.subrange(start as int, start + long)),
        at_least <==> in_bytes(bytes@) >= in_bytes(other@),
{
    written_bytes(n as nat, width as nat);
    assert(final(out)@.take(old(out)@.len() as int) =~= old(out)@);
    assert(final(out)@.skip(old(out)@.len() as int) =~= be_bytes(n as nat, width as nat));
    values_agree(bytes@.subrange(start as int, start + long));
    values_agree(bytes@);
    values_agree(other@);
}

// ---------------------------------------------------------------------
// Characters.

/// Texts are their characters.
pub proof fn texts_are_their_characters(
    s: &str,
    v: Vec<char>,
    some: &[char],
    made: String,
    a: &mut String,
    start: usize,
    end: usize,
    part: Vec<char>,
    b: &mut String,
    d: u8,
)
    requires
        call_ensures(to_chars, (s,), v),
        call_ensures(from_chars, (some,), made),
        call_ensures(push_chars, (a, some), ()),
        call_ensures(slice_chars, (some, start, end), part),
        call_ensures(push_digit, (b, d), ()),
        start <= end <= some@.len(),
        d < 10,
    ensures
        v@ == s@,
        made@ == some@,
        final(a)@.len() == old(a)@.len() + some@.len(),
        forall|i: int| 0 <= i < old(a)@.len() ==> #[trigger] final(a)@[i] == old(a)@[i],
        forall|i: int| 0 <= i < some@.len() ==> final(a)@[old(a)@.len() + i] == #[trigger] some@[i],
        part@.len() == end - start,
        forall|i: int| 0 <= i < end - start ==> #[trigger] part@[i] == some@[start + i],
        final(b)@.drop_last() == old(b)@,
        final(b)@.len() == old(b)@.len() + 1,
        final(b)@.last() as int == '0' as int + d,
{
    assert(final(b)@.drop_last() =~= old(b)@);
}

/// A cookie is shown without the byte that ends it.
pub proof fn cookies_are_shown_without_their_end(
    cookie: [u8; COOKIE_LEN],
    text: Seq<char>,
    s: String,
)
    requires
        call_ensures(cookie_display, (&cookie,), s),
        encode_utf8(text) == cookie@.take(36),
    ensures
        s@ == text,
{
    assert(cookie@.drop_last() =~= cookie@.take(36));
    vstd::utf8::encode_utf8_valid_utf8(text);
    vstd::utf8::encode_utf8_decode_utf8(text);
}

// ---------------------------------------------------------------------
// Points in time.

/// The earliest and the latest of some points are among them, and no other is
/// earlier or later; and the span over all is the longest.
pub proof fn the_earliest_and_the_latest_bound_the_others(
    a: &Vec<Option<Instant>>,
    b: &Vec<Option<Instant>>,
    first: Option<Instant>,
    last: Option<Instant>,
    d: Duration,
    i: int,
)
    requires
        call_ensures(earliest_of, (a,), first),
        call_ensures(latest_of, (a,), last),
        call_ensures(overall_span, (a, b), d),
        0 <= i < a@.len(),
    ensures
        a@[i] is Some ==> first is Some && last is Some && first->0.nanos <= a@[i]->0.nanos
            && a@[i]->0.nanos <= last->0.nanos,
        first is Some ==> a@.contains(first),
        last is Some ==> a@.contains(last),
        longest(a@, b@, d.nanos as int),
{
    crate::laws::measurement::spans_are_longest(a@, b@, d.nanos as int);
    let x = a@[i];
}

/// Books have room as long as 64 bits hold the bytes and the datagrams, and
/// 128 bits the end of the interval behind the running one.
pub proof fn books_have_room(
    m: &StreamMeter,
    s: &ServerMeter,
    n: usize,
    now: Instant,
    a: bool,
    b: bool,
)
    requires
        call_ensures(StreamMeter::check_room, (m, n, now), a),
        call_ensures(ServerMeter::check_room, (s, n, now), b),
    ensures
        a <==> m.receipt.bytes_sent + n < 0x1_0000_0000_0000_0000 && m.receipt.packets + 1
            < 0x1_0000_0000_0000_0000 && interval_fits(m.reporter, now),
        b <==> s.receipt.bytes + n < 0x1_0000_0000_0000_0000 && (s.reporter matches Some(r)
            ==> interval_fits(r, now)),
{
}

/// The end of the interval behind the running one, or behind the first, which
/// starts at `now`, can be told.
pub open spec fn interval_fits(r: IntervalReporter, now: Instant) -> bool {
    let end = match r.next_boundary {
        Some(b) => b.nanos as int,
        None => now.nanos + r.interval.nanos,
    };
    end + r.interval.nanos <= u128::MAX
}

/// A receiver has room for a datagram that it does not count: one that is too
/// short, ends a stream or comes from elsewhere. For another there has to be
/// room in the books of its stream.
pub proof fn receivers_have_room(
    m: &UdpReceiver,
    src: PeerAddr,
    gram: &[u8],
    now: Instant,
    slot: int,
    b: bool,
)
    requires
        m.wf(),
        call_ensures(UdpReceiver::check_room, (m, src, gram, now), b),
    ensures
        gram@.len() < 16 ==> b,
        gram@.len() >= 16 && signed_eight(gram@, 8) < 0 ==> b,
        !m.order@.contains(src) ==> b,
        gram@.len() >= 16 && signed_eight(gram@, 8) >= 0 && 0 <= slot < m.order@.len()
            && m.order@[slot] == src && (forall|j: int|
            0 <= j < slot ==> #[trigger] m.order@[j] != src) ==> {
            let r = m.states@[slot].receipt;
            let first = match r.first_byte_at {
                Some(f) => f,
                None => now,
            };
            b <==> r.bytes + gram@.len() < 0x1_0000_0000_0000_0000 && r.packets + 1
                < 0x1_0000_0000_0000_0000 && now.nanos - first.nanos
                < 0x1_0000_0000_0000_0000 * 1_000_000_000
        },
{
    if gram@.len() >= 16 {
        crate::laws::datagrams::header_agrees(gram@);
    }
    if !m.order@.contains(src) {
        assert forall|i: int| !is_slot(m.order@, src, i) by {
            if 0 <= i < m.order@.len() {
                assert(m.order@.contains(m.order@[i]));
            }
        }
    }
    if 0 <= slot < m.order@.len() && m.order@[slot] == src && (forall|j: int|
        0 <= j < slot ==> #[trigger] m.order@[j] != src) {
        assert(is_slot(m.order@, src, slot));
        assert forall|i: int| is_slot(m.order@, src, i) implies i == slot by {
            if i < slot {
                assert(m.order@[i] != src);
            }
        }
        let x = m.states@[slot];
    }
}

/// A sender that is not ahead, or has no rate, can go on at any time that the
/// clock can tell; none can at another.
pub proof fn senders_on_time_can_go_on(bucket: &TokenBucket, now: Instant, b: bool)
    requires
        call_ensures(TokenBucket::check_wait, (bucket, now), b),
    ensures
        b ==> now.nanos - bucket.start.nanos < 0x1_0000_0000_0000_0000 * 1_000_000_000,
        now.nanos - bucket.start.nanos < 0x1_0000_0000_0000_0000 * 1_000_000_000 && (
        bucket.rate_bps == 0 || !due(*bucket, now).below(nearest(bucket.bytes_sent as int, 1)))
            ==> b,
{
}

/// A stream stops once its stopwatch shows the time it is to run for.
pub proof fn streams_stop_when_their_time_is_over(
    timer: &Timer,
    duration: Duration,
    a: bool,
    b: bool,
)
    requires
        call_ensures(should_stop, (timer, duration), a),
        call_ensures(Timer::is_elapsed, (timer, duration), b),
    ensures
        exists|d: Duration| #[trigger] timer.shows(d) && (a <==> d.nanos >= duration.nanos),
        exists|d: Duration| #[trigger] timer.shows(d) && (b <==> d.nanos >= duration.nanos),
        duration.nanos == 0 ==> a && b,
{
}

/// A reading of a clock is noted behind those before it, and is what its
/// stopwatch shows.
pub proof fn clocks_keep_their_readings(c: &mut Clock, t: Instant)
    requires
        call_ensures(Clock::read, (c,), t),
    ensures
        final(c).log().len() == old(c).log().len() + 1,
        final(c).log().drop_last() == old(c).log(),
        final(c).log().last() == t,
        old(c).stopwatch().shows((Duration { nanos: t.nanos })),
        final(c).stopwatch() == old(c).stopwatch(),
{
    assert(final(c).log().drop_last() =~= old(c).log());
}

/// Receipts that arrive are kept behind those that did before; nothing else
/// changes.
pub proof fn receipts_are_kept_in_order(t: &mut Test, arrived: Vec<ClientStreamReceipt>)
    requires
        call_ensures(Test::drain_receipts, (t, arrived), ()),
    ensures
        final(t).receipts@.len() == old(t).receipts@.len() + arrived@.len(),
        forall|i: int|
            0 <= i < old(t).receipts@.len() ==> #[trigger] final(t).receipts@[i] == old(
                t,
            ).receipts@[i],
        forall|i: int|
            0 <= i < arrived@.len() ==> final(t).receipts@[old(t).receipts@.len() + i]
                == #[trigger] arrived@[i],
        final(t).config == old(t).config,
        final(t).control_channel == old(t).control_channel,
        final(t).cpu_start == old(t).cpu_start,
        final(t).is_started == old(t).is_started,
        final(t).is_running == old(t).is_running,
{
}

// ---------------------------------------------------------------------
// Keys and tokens.

/// A public key is looked for in the one format, and where it is not in that
/// in the other.
pub proof fn public_keys_come_in_two_formats(pem: &str, r: Result<PublicKey, String>)
    requires
        call_ensures(parse_public_key_pem, (pem,), r),
    ensures
        spki_public_key(pem@) matches Some(der) ==> r is Ok && r->Ok_0.der@ == der,
        spki_public_key(pem@) is None ==> (pkcs1_public_key(pem@) matches Ok(der) ==> r is Ok
            && r->Ok_0.der@ == der),
        spki_public_key(pem@) is None ==> (pkcs1_public_key(pem@) matches Err(e) ==> r is Err
            && r->Err_0@ == "parse pubkey: "@ + e),
{
}

/// So is a private key, all five parts of it.
pub proof fn private_keys_come_in_two_formats(pem: &str, r: Result<PrivateKey, String>)
    requires
        call_ensures(parse_private_key_pem, (pem,), r),
    ensures
        ({
            let one = pkcs8_private_key(pem@);
            let two = pkcs1_private_key(pem@);
            &&& r is Ok <==> one is Some || two is Ok
            &&& r matches Ok(k) ==> {
                let parts = if one is Some {
                    one->0
                } else {
                    two->Ok_0
                };
                &&& parts.len() == 5
                &&& k.modulus@ == parts[0]
                &&& k.public_exponent@ == parts[1]
                &&& k.private_exponent@ == parts[2]
                &&& k.first_prime@ == parts[3]
                &&& k.second_prime@ == parts[4]
            }
            &&& r matches Err(e) ==> e@ == "parse privkey: "@ + two->Err_0
        }),
{
}

/// A token is the ciphertext in base64, and is read back as that.
pub proof fn tokens_are_base64(cipher: Result<Vec<u8>, String>, r: Result<String, String>)
    requires
        call_ensures(token_from_cipher, (cipher,), r),
    ensures
        cipher matches Ok(c) ==> r is Ok && r->Ok_0@ == base64_text(c@) && base64_bytes(r->Ok_0@)
            == Ok::<Seq<u8>, Seq<char>>(c@),
        cipher matches Err(e) ==> r is Err && r->Err_0@ == "rsa encrypt: "@ + e@,
{
}

/// Checked against the clock on the wall, a claim holds if that reads no more
/// than allowed off its time, either way.
pub proof fn claims_are_checked_by_the_clock_on_the_wall(
    claim: &AuthClaim,
    skew: u64,
    r: Result<(), String>,
)
    requires
        call_ensures(validate_timestamp, (claim, skew), r),
    ensures
        exists|time: Result<u64, String>| #[trigger]
            wall_clock_says(time) && match time {
                Ok(now) => r is Ok <==> now - claim.timestamp <= skew && claim.timestamp - now
                    <= skew,
                Err(e) => r is Err && r->Err_0@ == "clock: "@ + e@,
            },
{
    let time = choose|time: Result<u64, String>| #[trigger]
        wall_clock_says(time) && match time {
            Ok(now) => crate::common::auth::freshness(claim.timestamp, skew, now, r),
            Err(e) => r is Err && r->Err_0@ == "clock: "@ + e@,
        };
    assert(wall_clock_says(time));
}

/// A token that is made now tells the server with the matching key what the
/// clock on the wall read, who made it, and the digest of the password.
pub proof fn tokens_tell_the_time_on_the_wall(
    public_key: &PublicKey,
    private_key: &PrivateKey,
    user: &str,
    password: &str,
    digest: String,
    built: Result<String, String>,
    token: &str,
    r: Result<AuthClaim, String>,
)
    requires
        is_key_pair(private_key.larger_first(), public_key.der@),
        !user@.contains('\n'),
        call_ensures(sha256_hex, (password,), digest),
        call_ensures(build_authtoken, (public_key, user, password), built),
        built is Ok,
        token@ == built->Ok_0@,
        call_ensures(decode_authtoken, (private_key, token), r),
    ensures
        r is Ok,
        wall_clock_says(Ok(r->Ok_0.timestamp)),
        r->Ok_0.username@ == user@,
        r->Ok_0.password_sha256_hex@ == digest@,
{
    let time = choose|time: Result<u64, String>| #[trigger]
        wall_clock_says(time) && match time {
            Ok(timestamp) => crate::common::auth::token_outcome(
                public_key.der@,
                timestamp,
                user@,
                password@,
                built,
            ),
            Err(e) => built is Err && built->Err_0@ == "clock: "@ + e@,
        };
    crate::common::auth::token_round_trip(
        private_key.larger_first(),
        public_key.der@,
        time->Ok_0,
        user@,
        password@,
        token@,
        r,
    );
}

// ---------------------------------------------------------------------
// Sockets.

/// Each call on a socket is one call, with what it was given and what it gave
/// back.
pub proof fn calls_are_made_as_they_are_asked_for(
    a: &mut Protocol,
    buf: &mut [u8],
    got: Result<usize, IoError>,
    b: &mut Protocol,
    data: &[u8],
    sent: Result<usize, IoError>,
    c: &mut Protocol,
    nonblocking: bool,
    set: Result<(), IoError>,
    d: &mut Protocol,
    timeout: Option<Duration>,
    limited: Result<(), IoError>,
)
    requires
        call_ensures(Protocol::recv, (a, buf), got),
        call_ensures(Protocol::send, (b, data), sent),
        call_ensures(Protocol::set_nonblocking, (c, nonblocking), set),
        call_ensures(Protocol::set_read_timeout, (d, timeout), limited),
    ensures
        final(a).log().len() == old(a).log().len() + 1,
        old(a).log().is_prefix_of(final(a).log()),
        final(a).log().last() is Recv,
        final(a).log().last()->room == old(buf)@.len(),
        got matches Ok(n) ==> n <= final(buf)@.len() && came_in(
            final(a).log(),
            old(a).log().len() as int,
        ) == final(buf)@.take(n as int),
        final(b).log().len() == old(b).log().len() + 1,
        old(b).log().is_prefix_of(final(b).log()),
        final(b).log().last() is Send,
        final(b).log().last()->data == data@,
        sent matches Ok(n) ==> n <= data@.len() && went_out(
            final(b).log(),
            old(b).log().len() as int,
        ) == data@.take(n as int),
        final(c).log() == old(c).log().push(
            SocketEvent::Nonblocking { nonblocking, outcome: set },
        ),
        final(d).log() == old(d).log().push(SocketEvent::ReadTimeout { timeout, outcome: limited }),
{
    let x = old(a).log();
    assert(final(a).log().drop_last() =~= x);
    assert(came_in(x, x.len() as int) =~= Seq::<u8>::empty());
    if let Ok(n) = got {
        assert(came_in(final(a).log(), x.len() as int) =~= final(buf)@.take(n as int));
    }
    let y = old(b).log();
    assert(final(b).log().drop_last() =~= y);
    assert(went_out(y, y.len() as int) =~= Seq::<u8>::empty());
    if let Ok(n) = sent {
        assert(went_out(final(b).log(), y.len() as int) =~= data@.take(n as int));
    }
}

/// A buffer is filled with what comes in; what came in before a fault stands
/// at its front, and a peer that closes early is told by the words given.
pub proof fn buffers_are_filled(
    p: &mut Protocol,
    buf: &mut [u8],
    closed: &str,
    r: Result<(), IoError>,
)
    requires
        call_ensures(fill, (p, buf, closed), r),
    ensures
        ({
            let got = came_in(final(p).log(), old(p).log().len() as int);
            &&& final(buf)@.len() == old(buf)@.len()
            &&& r is Ok ==> final(buf)@ == got
            &&& r is Err ==> got.len() < old(buf)@.len()
            &&& r matches Err(e) ==> e.kind == ErrorKind::UnexpectedEof && e.message@ == closed@
                || (final(p).log().last() matches SocketEvent::Recv { got: Err(f), .. } && f == e)
        }),
{
    let run = calls(old(p).log(), final(p).log());
    traffic(final(p).log(), old(p).log().len() as int);
    match r {
        Ok(_) => {
            crate::common::wire::read_gives_what_arrived(
                old(buf)@.len(),
                run,
                closed@,
                Ok(final(buf)@),
            );
        },
        Err(e) => {
            crate::common::wire::read_gives_what_arrived(old(buf)@.len(), run, closed@, Err(e));
            assert(run.last() == final(p).log().last());
        },
    }
}

} // verus!
