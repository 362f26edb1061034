//! What a UDP test counts.

use vstd::prelude::*;

use crate::common::big_endian::{be_bytes, be_limits, be_value, value_of_bytes};
use crate::common::binary64::{nearest, seconds, Double};
use crate::common::error::{ErrorKind, IoError};
use crate::common::jitter::{a_sixteenth_on, distance_of, estimate_to_bits, transit_of, Signed};
use crate::common::stream::{build_payload, sentinel_packet, UdpSender};
use crate::common::time::{Duration, Instant};
use crate::common::udp_header::UdpHeader;
use crate::common::udp_session::{ends_on_error, stream_ack, DatagramOutcome, PeerAddr};
use crate::common::udp_session::{StopStep, StreamState, UdpAccept, UdpReceiver};
use crate::common::float_bits::FloatBits;
use crate::laws::results::ieee_bits;
use crate::server::StreamReceipt;

verus! {

// ---------------------------------------------------------------------
// Headers.

/// The number that four bytes stand for, the highest first.
pub open spec fn four(s: Seq<u8>, i: int) -> int {
    s[i] * 16_777_216 + s[i + 1] * 65_536 + s[i + 2] * 256 + s[i + 3]
}

/// The number that eight bytes stand for, the highest first, with the top bit
/// for a sign.
pub open spec fn signed_eight(s: Seq<u8>, i: int) -> int {
    let n = four(s, i) * 4_294_967_296 + four(s, i + 4);
    if n >= 9_223_372_036_854_775_808 {
        n - 18_446_744_073_709_551_616
    } else {
        n
    }
}

proof fn value_of_four(s: Seq<u8>)
    requires
        s.len() == 4,
    ensures
        be_value(s) == four(s, 0),
{
    let a = s.drop_last();
    let b = a.drop_last();
    let c = b.drop_last();
    assert(c.drop_last() =~= Seq::<u8>::empty());
    assert(be_value(c.drop_last()) == 0);
    assert(be_value(c) == s[0]);
    assert(be_value(b) == s[0] * 256 + s[1]);
    assert(be_value(a) == (s[0] * 256 + s[1]) * 256 + s[2]);
}

proof fn value_of_eight(s: Seq<u8>)
    requires
        s.len() == 8,
    ensures
        be_value(s) == four(s, 0) * 4_294_967_296 + four(s, 4),
{
    let a = s.drop_last();
    let b = a.drop_last();
    let c = b.drop_last();
    let d = c.drop_last();
    value_of_four(d);
    assert(four(d, 0) == four(s, 0));
    assert(be_value(c) == be_value(d) * 256 + s[4]);
    assert(be_value(b) == be_value(c) * 256 + s[5]);
    assert(be_value(a) == be_value(b) * 256 + s[6]);
}

/// A header is read from the first sixteen bytes: seconds, microseconds and a
/// signed number, each with its highest byte first. Fewer bytes are none.
pub proof fn headers_are_read_in_network_order(buf: &[u8], r: Result<UdpHeader, IoError>)
    requires
        call_ensures(UdpHeader::decode, (buf,), r),
    ensures
        r is Ok <==> buf@.len() >= 16,
        r matches Ok(h) ==> {
            &&& h.tv_sec == four(buf@, 0)
            &&& h.tv_usec == four(buf@, 4)
            &&& h.seq == signed_eight(buf@, 8)
        },
        r matches Err(e) ==> e.kind == ErrorKind::InvalidData,
{
    if buf@.len() >= 16 {
        let a = buf@.subrange(0, 4);
        let b = buf@.subrange(4, 8);
        let c = buf@.subrange(8, 16);
        value_of_four(a);
        value_of_four(b);
        value_of_eight(c);
        assert(four(a, 0) == four(buf@, 0));
        assert(four(b, 0) == four(buf@, 4));
        assert(four(c, 0) == four(buf@, 8));
        assert(four(c, 4) == four(buf@, 12));
    }
}

proof fn wire_reads(h: UdpHeader, rest: Seq<u8>)
    ensures
        h.on_wire().len() == 16,
        four(h.on_wire() + rest, 0) == h.tv_sec,
        four(h.on_wire() + rest, 4) == h.tv_usec,
        signed_eight(h.on_wire() + rest, 8) == h.seq,
{
    be_limits();
    let n = crate::common::udp_header::twos_complement(h.seq);
    let a = be_bytes(h.tv_sec as nat, 4);
    let b = be_bytes(h.tv_usec as nat, 4);
    let c = be_bytes(n, 8);
    crate::common::big_endian::be_bytes_len(h.tv_sec as nat, 4);
    crate::common::big_endian::be_bytes_len(h.tv_usec as nat, 4);
    crate::common::big_endian::be_bytes_len(n, 8);
    value_of_bytes(h.tv_sec as nat, 4);
    value_of_bytes(h.tv_usec as nat, 4);
    value_of_bytes(n, 8);
    value_of_four(a);
    value_of_four(b);
    value_of_eight(c);
    let all = h.on_wire() + rest;
    assert(four(all, 0) == four(a, 0));
    assert(four(all, 4) == four(b, 0));
    assert(four(all, 8) == four(c, 0));
    assert(four(all, 12) == four(c, 4));
}

/// A header is written over the first sixteen bytes, and nothing else is
/// touched. Fewer bytes are left alone.
pub proof fn headers_are_written_in_network_order(
    h: UdpHeader,
    out: &mut [u8],
    r: Result<(), IoError>,
)
    requires
        call_ensures(UdpHeader::encode, (h, out), r),
    ensures
        r is Ok <==> old(out)@.len() >= 16,
        r is Ok ==> {
            &&& final(out)@.len() == old(out)@.len()
            &&& four(final(out)@, 0) == h.tv_sec
            &&& four(final(out)@, 4) == h.tv_usec
            &&& signed_eight(final(out)@, 8) == h.seq
            &&& forall|i: int|
                16 <= i < old(out)@.len() ==> #[trigger] final(out)@[i] == old(out)@[i]
        },
        r is Err ==> final(out)@ == old(out)@ && r->Err_0.kind == ErrorKind::InvalidInput,
{
    wire_reads(h, old(out)@.skip(16));
}

/// Only a negative number marks the end of a stream.
pub proof fn negative_numbers_end_a_stream(h: &UdpHeader, b: bool)
    requires
        call_ensures(UdpHeader::is_sentinel, (h,), b),
    ensures
        b <==> h.seq < 0,
{
}

/// A datagram is stamped with the wall clock, whose seconds wrap at 2^32, and
/// with its number; the payload behind stays.
pub proof fn datagrams_are_stamped(s: &mut UdpSender, secs: u64, micros: u32)
    requires
        old(s).wf(),
        call_ensures(UdpSender::stamp, (s, secs, micros), ()),
    ensures
        final(s).packet@.len() == old(s).packet@.len(),
        four(final(s).packet@, 0) == secs as int % 4_294_967_296,
        four(final(s).packet@, 4) == micros,
        signed_eight(final(s).packet@, 8) == old(s).seq,
        forall|i: int|
            16 <= i < old(s).packet@.len() ==> #[trigger] final(s).packet@[i] == old(
                s,
            ).packet@[i],
        final(s).seq == old(s).seq,
        final(s).receipt == old(s).receipt,
        final(s).bucket == old(s).bucket,
        final(s).omit == old(s).omit,
{
    wire_reads(
        crate::common::stream::stamped(secs, micros, old(s).seq),
        old(s).packet@.skip(16),
    );
}

/// The last datagram is a header alone, numbered -1.
pub proof fn the_last_datagram_is_numbered_minus_one(secs: u64, micros: u32, p: Vec<u8>)
    requires
        call_ensures(sentinel_packet, (secs, micros), p),
    ensures
        p@.len() == 16,
        four(p@, 0) == secs as int % 4_294_967_296,
        four(p@, 4) == micros,
        signed_eight(p@, 8) == -1,
{
    let h = crate::common::stream::stamped(secs, micros, (-1) as i64);
    wire_reads(h, Seq::empty());
    assert(h.on_wire() + Seq::<u8>::empty() =~= h.on_wire());
}

/// Payloads are of the asked length.
pub proof fn payloads_are_of_the_asked_length(len: usize, p: Vec<u8>)
    requires
        call_ensures(build_payload, (len,), p),
    ensures
        p@.len() == len,
        forall|i: int| 0 <= i < len ==> #[trigger] p@[i] == 1,
{
}

// ---------------------------------------------------------------------
// Peers.

/// A peer opens a stream with its first datagram, and is answered once; the
/// streams are numbered in the order in which they show up.
pub proof fn peers_open_one_stream_each(a: &mut UdpAccept, src: PeerAddr, answer: bool)
    requires
        call_ensures(UdpAccept::on_datagram, (a, src), answer),
    ensures
        answer <==> forall|i: int|
            0 <= i < old(a).addrs@.len() ==> #[trigger] old(a).addrs@[i] != src,
        answer ==> final(a).addrs@ == old(a).addrs@.push(src),
        !answer ==> final(a).addrs@ == old(a).addrs@,
        final(a).wanted == old(a).wanted,
{
}

/// All streams are there when as many peers have shown up as were wanted.
pub proof fn streams_are_complete_in_number(
    wanted: u32,
    fresh: UdpAccept,
    a: &UdpAccept,
    b: bool,
    ack: Vec<u8>,
)
    requires
        call_ensures(UdpAccept::new, (wanted,), fresh),
        call_ensures(UdpAccept::is_complete, (a,), b),
        call_ensures(stream_ack, (), ack),
    ensures
        fresh.addrs@.len() == 0 && fresh.wanted == wanted,
        b <==> a.addrs@.len() >= a.wanted,
        ack@ == seq![54u8, 55u8, 56u8, 57u8],
{
}

// ---------------------------------------------------------------------
// Times and distances.

/// The time from when a datagram was stamped to when it came, in milliseconds
/// and each on its own clock: seconds since the first datagram times 1000,
/// less the stamp's seconds times 1000 and its microseconds over 1000.
pub proof fn transit_is_arrival_less_stamp(since: Duration, h: UdpHeader, t: Signed)
    requires
        call_ensures(transit_of, (since, &h), t),
    ensures
        ({
            let k = nearest(1_000, 1);
            let came = seconds(since).product(k);
            let sent = nearest(h.tv_sec as int, 1).product(k).sum(
                nearest(h.tv_usec as int, 1).quotient(k),
            );
            &&& t.negative <==> came.below(sent)
            &&& came.below(sent) ==> t.size == sent.difference(came)
            &&& !came.below(sent) ==> t.size == came.difference(sent)
        }),
{
}

/// The distance between two transit times is the size of their difference.
pub proof fn distance_is_the_size_of_the_difference(a: Signed, b: Signed, d: Signed)
    requires
        call_ensures(distance_of, (a, b), d),
    ensures
        a.negative != b.negative ==> d.size == a.size.sum(b.size),
        a.negative == b.negative && a.size.below(b.size) ==> d.size == b.size.difference(a.size),
        a.negative == b.negative && !a.size.below(b.size) ==> d.size == a.size.difference(b.size),
{
}

/// An estimate leaves in the format of IEEE 754; the smallest numbers have no
/// exponent of their own.
pub proof fn estimates_leave_in_ieee_format(d: Double, b: FloatBits)
    requires
        crate::common::jitter::is_estimate(d),
        call_ensures(estimate_to_bits, (d,), b),
    ensures
        d.mant == 0 ==> b.bits == 0,
        d.mant > 0 && d.exp >= -1074 ==> b.bits == ieee_bits(d),
        d.mant > 0 && d.exp < -1074 ==> b.bits * crate::common::binary64::pow2_pos(-1074 - d.exp)
            == d.mant,
{
    if d.mant > 0 && d.exp < -1074 {
        let p = crate::common::binary64::pow2_pos(-1074 - d.exp);
        crate::common::binary64::pow2_pos_positive(-1074 - d.exp);
        vstd::arithmetic::div_mod::lemma_fundamental_div_mod(d.mant as int, p);
        assert(p * (d.mant as int / p) == (d.mant as int / p) * p) by (nonlinear_arith);
    }
}

// ---------------------------------------------------------------------
// A run of datagrams.

/// The transit time of a datagram with header `h` that came at `at`, on a
/// stream whose first came at `first`.
pub open spec fn transit_time(first: Instant, at: Instant, h: UdpHeader) -> Signed {
    let k = nearest(1_000, 1);
    let since = Duration {
        nanos: if at.nanos > first.nanos {
            (at.nanos - first.nanos) as u128
        } else {
            0
        },
    };
    let came = seconds(since).product(k);
    let sent = nearest(h.tv_sec as int, 1).product(k).sum(
        nearest(h.tv_usec as int, 1).quotient(k),
    );
    if came.below(sent) {
        Signed { negative: true, size: sent.difference(came) }
    } else {
        Signed { negative: false, size: came.difference(sent) }
    }
}

/// How far two transit times lie apart.
pub open spec fn apart(a: Signed, b: Signed) -> Double {
    if a.negative != b.negative {
        a.size.sum(b.size)
    } else if a.size.below(b.size) {
        b.size.difference(a.size)
    } else {
        a.size.difference(b.size)
    }
}

/// The estimate of RFC 1889 after `k + 1` datagrams, from when they came and
/// what they were stamped with: nothing at first, and moved on by the distance
/// between each transit time and the one before it.
pub open spec fn rfc1889(at: Seq<Instant>, h: Seq<UdpHeader>, k: int) -> Double
    decreases k,
{
    if k <= 0 {
        Double { mant: 0, exp: 0 }
    } else {
        crate::common::jitter::estimate_after(
            rfc1889(at, h, k - 1),
            apart(
                transit_time(at[0], at[k], h[k]),
                transit_time(at[0], at[k - 1], h[k - 1]),
            ),
        )
    }
}

/// The highest number among the first `k + 1` datagrams.
pub open spec fn highest(h: Seq<UdpHeader>, k: int) -> int
    decreases k + 1,
{
    if k < 0 {
        -1
    } else if h[k].seq > highest(h, k - 1) {
        h[k].seq as int
    } else {
        highest(h, k - 1)
    }
}

/// How many of the first `k + 1` datagrams came with a lower number than one
/// before them.
pub open spec fn late(h: Seq<UdpHeader>, k: int) -> int
    decreases k + 1,
{
    if k < 0 {
        0
    } else {
        late(h, k - 1) + (if h[k].seq < highest(h, k - 1) {
            1int
        } else {
            0
        })
    }
}

/// The bytes of the first `k + 1` datagrams.
pub open spec fn lengths(grams: Seq<Seq<u8>>, k: int) -> int
    decreases k + 1,
{
    if k < 0 {
        0
    } else {
        lengths(grams, k - 1) + grams[k].len()
    }
}

/// The state of the stream at `slot`, after the datagrams of a run.
pub open spec fn tallies(
    s: StreamState,
    grams: Seq<Seq<u8>>,
    h: Seq<UdpHeader>,
    at: Seq<Instant>,
    k: int,
) -> bool {
    &&& s.jitter == rfc1889(at, h, k)
    &&& s.last_transit == Some(transit_time(at[0], at[k], h[k]))
    &&& s.receipt.packets == k + 1
    &&& s.receipt.bytes == lengths(grams, k)
    &&& s.receipt.ooo == late(h, k)
    &&& s.max_seq == highest(h, k)
    &&& s.receipt.lost == (if highest(h, k) + 1 > k + 1 {
        highest(h, k) - k
    } else {
        0
    })
    &&& s.receipt.first_byte_at == Some(at[0])
    &&& s.receipt.last_byte_at == Some(at[k])
}

proof fn one_datagram(
    a: StreamState,
    b: StreamState,
    grams: Seq<Seq<u8>>,
    h: Seq<UdpHeader>,
    at: Seq<Instant>,
    omit: Duration,
    k: int,
)
    requires
        k >= 0,
        a.counts(grams[k].len(), h[k], at[k], omit, b),
        k == 0 ==> a.jitter == (Double { mant: 0, exp: 0 }) && a.last_transit is None
            && a.receipt.packets == 0 && a.receipt.bytes == 0 && a.receipt.ooo == 0 && a.max_seq
            == -1 && a.receipt.first_byte_at is None,
        k > 0 ==> tallies(a, grams, h, at, k - 1),
    ensures
        tallies(b, grams, h, at, k),
{
    assert(b.receipt.account().bytes == b.receipt.bytes);
    assert(a.receipt.account().bytes == a.receipt.bytes);
    assert(b.receipt.account().first == b.receipt.first_byte_at);
    assert(b.receipt.account().last == b.receipt.last_byte_at);
    assert(a.receipt.account().first == a.receipt.first_byte_at);
    let x = a.seqs();
    let y = b.seqs();
    assert(x.packets == a.receipt.packets && x.highest == a.max_seq);
    assert(x.out_of_order == a.receipt.ooo);
    assert(y.packets == b.receipt.packets && y.highest == b.max_seq && y.lost == b.receipt.lost);
    assert(y.out_of_order == b.receipt.ooo);
    reveal_with_fuel(highest, 2);
    reveal_with_fuel(late, 2);
    reveal_with_fuel(lengths, 2);
}

/// What is counted of a stream: over a run of datagrams from one peer, of
/// whatever lengths, the jitter is that of RFC 1889 over all consecutive pairs
/// of them; every datagram counts, with its bytes; those that come behind a
/// higher number are out of order; and lost is what is missing up to the
/// highest number.
pub proof fn streams_are_tallied_datagram_by_datagram(
    calls: Seq<&mut UdpReceiver>,
    src: PeerAddr,
    grams: Seq<&[u8]>,
    at: Seq<Instant>,
    outcomes: Seq<DatagramOutcome>,
    slot: usize,
    k: int,
)
    requires
        calls.len() == grams.len() == at.len() == outcomes.len(),
        0 <= k < calls.len(),
        forall|i: int|
            0 <= i < calls.len() ==> #[trigger] call_ensures(
                UdpReceiver::on_datagram,
                (calls[i], src, grams[i], at[i]),
                outcomes[i],
            ),
        forall|i: int| 0 < i < calls.len() ==> *(#[trigger] calls[i]) == *final(calls[i - 1]),
        forall|i: int|
            0 <= i < outcomes.len() ==> #[trigger] outcomes[i] == (DatagramOutcome::Counted {
                slot,
            }),
        slot < calls[0].states@.len(),
        calls[0].states@[slot as int] == StreamState::fresh(),
    ensures
        final(calls[k]).states@.len() == calls[0].states@.len(),
        final(calls[k]).omit == calls[0].omit,
        tallies(
            final(calls[k]).states@[slot as int],
            Seq::new(grams.len(), |i: int| grams[i]@),
            Seq::new(
                grams.len(),
                |i: int|
                    UdpHeader {
                        tv_sec: four(grams[i]@, 0) as u32,
                        tv_usec: four(grams[i]@, 4) as u32,
                        seq: signed_eight(grams[i]@, 8) as i64,
                    },
            ),
            at,
            k,
        ),
        forall|j: int|
            0 <= j < calls[0].states@.len() && j != slot ==> #[trigger] final(calls[k]).states@[j]
                == calls[0].states@[j],
    decreases k,
{
    assert(call_ensures(
        UdpReceiver::on_datagram,
        (calls[k], src, grams[k], at[k]),
        outcomes[k],
    ));
    assert(outcomes[k] == (DatagramOutcome::Counted { slot }));
    let bytes = Seq::new(grams.len(), |i: int| grams[i]@);
    let h = Seq::new(
        grams.len(),
        |i: int|
            UdpHeader {
                tv_sec: four(grams[i]@, 0) as u32,
                tv_usec: four(grams[i]@, 4) as u32,
                seq: signed_eight(grams[i]@, 8) as i64,
            },
    );
    header_agrees(grams[k]@);
    let a = calls[k].states@[slot as int];
    let b = final(calls[k]).states@[slot as int];
    if k > 0 {
        streams_are_tallied_datagram_by_datagram(calls, src, grams, at, outcomes, slot, k - 1);
        assert(*calls[k] == *final(calls[k - 1]));
    }
    one_datagram(a, b, bytes, h, at, calls[k].omit, k);
}

/// A header is read in network order.
pub proof fn header_agrees(s: Seq<u8>)
    requires
        s.len() >= 16,
    ensures
        crate::common::udp_header::header_of(s) == (UdpHeader {
            tv_sec: four(s, 0) as u32,
            tv_usec: four(s, 4) as u32,
            seq: signed_eight(s, 8) as i64,
        }),
{
    let a = s.subrange(0, 4);
    let b = s.subrange(4, 8);
    let c = s.subrange(8, 16);
    value_of_four(a);
    value_of_four(b);
    value_of_eight(c);
    assert(four(a, 0) == four(s, 0));
    assert(four(b, 0) == four(s, 4));
    assert(four(c, 0) == four(s, 8));
    assert(four(c, 4) == four(s, 12));
}

/// Every datagram but the first of a stream, of whatever length, moves the
/// estimate a sixteenth of the way towards the distance between its transit
/// time and that of the datagram before it. Where the estimate was nothing,
/// any distance that clocks can tell leaves it above that.
pub proof fn every_datagram_moves_the_estimate(
    m: &mut UdpReceiver,
    src: PeerAddr,
    gram: &[u8],
    now: Instant,
    slot: usize,
    d: Signed,
)
    requires
        call_ensures(
            UdpReceiver::on_datagram,
            (m, src, gram, now),
            (DatagramOutcome::Counted { slot }),
        ),
        old(m).wf(),
        old(m).states@[slot as int].last_transit is Some,
        final(m).states@[slot as int].last_transit is Some,
        call_ensures(
            distance_of,
            (
                final(m).states@[slot as int].last_transit->0,
                old(m).states@[slot as int].last_transit->0,
            ),
            d,
        ),
    ensures
        ({
            let a = old(m).states@[slot as int];
            let b = final(m).states@[slot as int];
            let first = match a.receipt.first_byte_at {
                Some(f) => f,
                None => now,
            };
            &&& b.last_transit->0 == transit_time(
                first,
                now,
                UdpHeader {
                    tv_sec: four(gram@, 0) as u32,
                    tv_usec: four(gram@, 4) as u32,
                    seq: signed_eight(gram@, 8) as i64,
                },
            )
            &&& d.size == apart(b.last_transit->0, a.last_transit->0)
            &&& a_sixteenth_on(a.jitter, d.size, b.jitter)
            &&& a.jitter.mant == 0 && d.size.mant > 0 && d.size.exp >= -1000 ==> b.jitter.mant > 0
        }),
{
    let a = old(m).states@[slot as int];
    let b = final(m).states@[slot as int];
    header_agrees(gram@);
    assert(final(m).states@.len() == old(m).states@.len());
    crate::common::jitter::estimate_moves_on(a.jitter, d.size, b.jitter);
}

/// Jitter goes by arrival times and stamps alone: runs that agree in those
/// estimate the same, whatever their datagrams weigh and are numbered.
pub proof fn jitter_goes_by_times_alone(
    a: StreamState,
    b: StreamState,
    ga: Seq<Seq<u8>>,
    gb: Seq<Seq<u8>>,
    ha: Seq<UdpHeader>,
    hb: Seq<UdpHeader>,
    at: Seq<Instant>,
    k: int,
)
    requires
        k >= 0,
        tallies(a, ga, ha, at, k),
        tallies(b, gb, hb, at, k),
        forall|i: int|
            0 <= i <= k ==> (#[trigger] ha[i]).tv_sec == hb[i].tv_sec && ha[i].tv_usec
                == hb[i].tv_usec,
    ensures
        a.jitter == b.jitter,
{
    same_estimates(ha, hb, at, k, k);
}

proof fn same_estimates(
    ha: Seq<UdpHeader>,
    hb: Seq<UdpHeader>,
    at: Seq<Instant>,
    k: int,
    i: int,
)
    requires
        i <= k,
        forall|i: int|
            0 <= i <= k ==> (#[trigger] ha[i]).tv_sec == hb[i].tv_sec && ha[i].tv_usec
                == hb[i].tv_usec,
    ensures
        rfc1889(at, ha, i) == rfc1889(at, hb, i),
    decreases i,
{
    if i > 0 {
        same_estimates(ha, hb, at, k, i - 1);
        assert(ha[i].tv_sec == hb[i].tv_sec);
        assert(ha[i - 1].tv_sec == hb[i - 1].tv_sec);
    }
}

// ---------------------------------------------------------------------
// One datagram, and the end.

/// What becomes of one datagram: those too short for a header and those from
/// elsewhere are passed over; a negative number ends the stream of its peer;
/// any other counts for the first stream of its peer. No other stream is
/// touched.
pub proof fn datagrams_go_to_the_stream_of_their_peer(
    m: &mut UdpReceiver,
    src: PeerAddr,
    gram: &[u8],
    now: Instant,
    outcome: DatagramOutcome,
)
    requires
        old(m).wf(),
        call_ensures(UdpReceiver::on_datagram, (m, src, gram, now), outcome),
    ensures
        gram@.len() < 16 <==> outcome is TooShort,
        gram@.len() >= 16 && !old(m).order@.contains(src) <==> outcome is UnknownSource,
        outcome is Ended ==> signed_eight(gram@, 8) < 0,
        outcome is Counted ==> signed_eight(gram@, 8) >= 0,
        outcome is TooShort || outcome is UnknownSource ==> final(m).states@ == old(m).states@,
        final(m).order@ == old(m).order@,
        final(m).omit == old(m).omit,
        match outcome {
            DatagramOutcome::Ended { slot } => {
                let a = old(m).states@[slot as int];
                let b = final(m).states@[slot as int];
                &&& slot < old(m).order@.len() && old(m).order@[slot as int] == src
                &&& forall|j: int| 0 <= j < slot ==> #[trigger] old(m).order@[j] != src
                &&& b.saw_sentinel
                &&& b.receipt == a.receipt && b.jitter == a.jitter && b.max_seq == a.max_seq
                &&& b.last_transit == a.last_transit
                &&& forall|j: int|
                    0 <= j < old(m).states@.len() && j != slot ==> #[trigger] final(m).states@[j]
                        == old(m).states@[j]
            },
            DatagramOutcome::Counted { slot } => {
                let a = old(m).states@[slot as int].receipt;
                let b = final(m).states@[slot as int].receipt;
                let first = match a.first_byte_at {
                    Some(f) => f.nanos as int,
                    None => now.nanos as int,
                };
                let age = if now.nanos > first {
                    now.nanos - first
                } else {
                    0
                };
                &&& slot < old(m).order@.len() && old(m).order@[slot as int] == src
                &&& forall|j: int| 0 <= j < slot ==> #[trigger] old(m).order@[j] != src
                &&& b.bytes == a.bytes + gram@.len()
                &&& b.packets == a.packets + 1
                &&& b.bytes_omit == a.bytes_omit + (if age < old(m).omit.nanos {
                    gram@.len() as int
                } else {
                    0
                })
                &&& b.last_byte_at == Some(now)
                &&& b.first_byte_at matches Some(f) && f.nanos == first
                &&& final(m).states@[slot as int].saw_sentinel == old(
                    m,
                ).states@[slot as int].saw_sentinel
                &&& forall|j: int|
                    0 <= j < old(m).states@.len() && j != slot ==> #[trigger] final(m).states@[j]
                        == old(m).states@[j]
            },
            _ => true,
        },
{
    if gram@.len() >= 16 {
        header_agrees(gram@);
    }
    if let DatagramOutcome::Counted { slot } = outcome {
        let a = old(m).states@[slot as int];
        let b = final(m).states@[slot as int];
        assert(b.receipt.account().bytes == b.receipt.bytes);
        assert(a.receipt.account().bytes == a.receipt.bytes);
        assert(b.receipt.account().omitted == b.receipt.bytes_omit);
        assert(a.receipt.account().omitted == a.receipt.bytes_omit);
        assert(b.receipt.account().first == b.receipt.first_byte_at);
        assert(b.receipt.account().last == b.receipt.last_byte_at);
        assert(b.seqs().packets == b.receipt.packets && a.seqs().packets == a.receipt.packets);
    }
}

/// A new receiver has counted nothing.
pub proof fn a_new_receiver_has_counted_nothing(
    order: Vec<PeerAddr>,
    omit: Duration,
    r: UdpReceiver,
    i: int,
)
    requires
        call_ensures(UdpReceiver::new, (order, omit), r),
        0 <= i < order@.len(),
    ensures
        r.order@ == order@,
        r.states@.len() == order@.len(),
        r.omit == omit,
        r.grace_deadline is None,
        !r.short_timeout_set,
        r.states@[i].jitter == (Double { mant: 0, exp: 0 }),
        r.states@[i].max_seq == -1,
        r.states@[i].last_transit is None,
        !r.states@[i].saw_sentinel,
        r.states@[i].receipt.bytes == 0 && r.states@[i].receipt.packets == 0,
        r.states@[i].receipt.lost == 0 && r.states@[i].receipt.ooo == 0,
        r.states@[i].receipt.first_byte_at is None,
{
}

/// The receipts of a UDP test tell what was counted, and the jitter estimate,
/// stream by stream.
pub proof fn udp_receipts_tell_what_was_counted(
    m: UdpReceiver,
    receipts: Vec<StreamReceipt>,
    i: int,
)
    requires
        m.wf(),
        call_ensures(UdpReceiver::finish, (m,), receipts),
        0 <= i < m.order@.len(),
    ensures
        receipts@.len() == m.order@.len(),
        ({
            let s = m.states@[i];
            let r = receipts@[i];
            &&& r.bytes == s.receipt.bytes
            &&& r.bytes_omit == s.receipt.bytes_omit
            &&& r.packets == s.receipt.packets
            &&& r.lost == s.receipt.lost
            &&& r.ooo == s.receipt.ooo
            &&& r.first_byte_at == s.receipt.first_byte_at
            &&& r.first_measured_at == s.receipt.first_measured_at
            &&& r.last_byte_at == s.receipt.last_byte_at
            &&& s.jitter.mant == 0 ==> r.jitter_ms.bits == 0
            &&& s.jitter.mant > 0 && s.jitter.exp >= -1074 ==> r.jitter_ms.bits == ieee_bits(
                s.jitter,
            )
        }),
{
    assert(m.states@[i].reports(receipts@[i]));
}

/// Once a test is to stop, reading goes on until every stream has ended, but
/// for no longer than half a second; the reads are shortened once.
pub proof fn stopping_waits_for_half_a_second(m: &mut UdpReceiver, now: Instant, step: StopStep)
    requires
        old(m).wf(),
        old(m).order@.no_duplicates(),
        now.nanos + 500_000_000 <= u128::MAX,
        call_ensures(UdpReceiver::on_stop, (m, now), step),
    ensures
        final(m).states@ == old(m).states@,
        final(m).order@ == old(m).order@,
        final(m).short_timeout_set,
        step.shorten_timeout <==> !old(m).short_timeout_set,
        old(m).grace_deadline is Some ==> final(m).grace_deadline == old(m).grace_deadline,
        old(m).grace_deadline is None ==> (final(m).grace_deadline matches Some(d) && d.nanos
            == now.nanos + 500_000_000),
        step.finished <==> now.nanos >= final(m).grace_deadline->0.nanos || forall|i: int|
            0 <= i < old(m).states@.len() ==> (#[trigger] old(m).states@[i]).saw_sentinel,
{
    assert forall|i: int| 0 <= i < old(m).states@.len() implies crate::common::udp_session::is_slot(
        old(m).order@,
        old(m).order@[i],
        i,
    ) by {}
}

/// A failed read ends the reading once the test is to stop; before that, only
/// if it was more than a read that timed out.
pub proof fn timeouts_do_not_end_the_reading(kind: ErrorKind, stopping: bool, b: bool)
    requires
        call_ensures(ends_on_error, (kind, stopping), b),
    ensures
        stopping ==> b,
        !stopping ==> (b <==> kind != ErrorKind::WouldBlock && kind != ErrorKind::TimedOut),
{
}

} // verus!
