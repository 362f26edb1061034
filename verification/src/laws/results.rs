//! What the two sides tell each other at the end of a test.

use vstd::prelude::*;

use crate::client::{build_client_results, client_options, create_streams, settle_results};
use crate::client::{summary_roles, Settlement, StreamStart};
use crate::common::binary64::{to_bits, Double};
use crate::common::cpu::{CpuSnapshot, CpuUsage};
use crate::common::direction::Direction;
use crate::common::float_bits::FloatBits;
use crate::common::stream::Transfer;
use crate::common::test::{ClientStreamReceipt, Config, Test};
use crate::common::transport_kind::TransportKind;
use crate::common::wire::{ClientOptions, Results};
use crate::server::{build_server_results, StreamReceipt};

verus! {

/// The bits of a double: a biased exponent above the 52 low bits of the
/// mantissa.
pub open spec fn ieee_bits(d: Double) -> int {
    if d.mant == 0 {
        0
    } else {
        (d.exp + 1075) * 4_503_599_627_370_496 + (d.mant - 4_503_599_627_370_496)
    }
}

/// Doubles leave the library in the format of IEEE 754.
pub proof fn doubles_leave_in_ieee_format(d: Double, b: FloatBits)
    requires
        call_ensures(to_bits, (d,), b),
    ensures
        b.bits == ieee_bits(d),
{
}

/// The server reports each receipt in its place: bytes, jitter, losses and
/// datagrams as they were counted, whatever the others are. It never reports
/// retransmissions.
pub proof fn server_reports_each_receipt(
    receipts: &[StreamReceipt],
    cpu: &CpuUsage,
    r: Results,
    i: int,
)
    requires
        call_ensures(build_server_results, (receipts, cpu), r),
        0 <= i < receipts@.len(),
    ensures
        r.streams@.len() == receipts@.len(),
        r.streams@[i].bytes == receipts@[i].bytes,
        r.streams@[i].jitter == receipts@[i].jitter_ms,
        r.streams@[i].errors == receipts@[i].lost,
        r.streams@[i].packets == receipts@[i].packets,
        r.streams@[i].retransmits == 0,
        i < u32::MAX ==> r.streams@[i].id == i + 1,
        r.sender_has_retransmits == 0,
        r.cpu_util_total.bits == ieee_bits(cpu.total_pct),
        r.cpu_util_user.bits == ieee_bits(cpu.user_pct),
        r.cpu_util_system.bits == ieee_bits(cpu.system_pct),
{
}

/// A server without streams reports none.
pub proof fn server_reports_nothing_of_nothing(
    receipts: &[StreamReceipt],
    cpu: &CpuUsage,
    r: Results,
)
    requires
        call_ensures(build_server_results, (receipts, cpu), r),
    ensures
        r.streams@.len() == receipts@.len(),
        r.sender_has_retransmits == 0,
{
}

/// Receipts that differ in nothing but what they lost are reported alike but
/// for the errors; so with each other field.
pub proof fn server_reports_fields_apart(
    a: &[StreamReceipt],
    b: &[StreamReceipt],
    cpu: &CpuUsage,
    ra: Results,
    rb: Results,
    i: int,
)
    requires
        call_ensures(build_server_results, (a, cpu), ra),
        call_ensures(build_server_results, (b, cpu), rb),
        0 <= i < a@.len(),
        a@.len() == b@.len(),
    ensures
        a@[i].jitter_ms == b@[i].jitter_ms ==> ra.streams@[i].jitter == rb.streams@[i].jitter,
        a@[i].lost == b@[i].lost ==> ra.streams@[i].errors == rb.streams@[i].errors,
        a@[i].packets == b@[i].packets ==> ra.streams@[i].packets == rb.streams@[i].packets,
        a@[i].bytes == b@[i].bytes ==> ra.streams@[i].bytes == rb.streams@[i].bytes,
        ra.streams@[i].id == rb.streams@[i].id,
{
}

/// The client reports each receipt in its place, under its own number, and
/// says whether any stream sent segments again.
pub proof fn client_reports_each_receipt(
    receipts: &[ClientStreamReceipt],
    cpu: &CpuUsage,
    r: Results,
)
    requires
        call_ensures(build_client_results, (receipts, cpu), r),
    ensures
        r.streams@.len() == receipts@.len(),
        forall|i: int|
            #![trigger r.streams@[i]]
            #![trigger receipts@[i]]
            0 <= i < receipts@.len() ==> {
                &&& r.streams@[i].id == receipts@[i].stream_id
                &&& r.streams@[i].bytes == receipts@[i].bytes_sent
                &&& r.streams@[i].retransmits == receipts@[i].retransmits
                &&& r.streams@[i].jitter == receipts@[i].jitter_ms
                &&& r.streams@[i].errors == receipts@[i].lost
                &&& r.streams@[i].packets == receipts@[i].packets
            },
        (exists|i: int| 0 <= i < receipts@.len() && (#[trigger] receipts@[i]).retransmits > 0)
            ==> r.sender_has_retransmits == 1,
        (forall|i: int| 0 <= i < receipts@.len() ==> (#[trigger] receipts@[i]).retransmits == 0)
            ==> r.sender_has_retransmits == 0,
        r.cpu_util_total.bits == ieee_bits(cpu.total_pct),
        r.cpu_util_user.bits == ieee_bits(cpu.user_pct),
        r.cpu_util_system.bits == ieee_bits(cpu.system_pct),
{
}

/// What a client settles on is reported in full.
pub proof fn settled_results_are_of_all_receipts(
    test: &mut Test,
    arrived: Vec<ClientStreamReceipt>,
    now: CpuSnapshot,
    ticks: u64,
    s: Option<Settlement>,
    i: int,
)
    requires
        call_ensures(settle_results, (test, arrived, &now, ticks), s),
        s is Some,
        0 <= i < old(test).receipts@.len() + arrived@.len(),
    ensures
        ({
            let all = old(test).receipts@ + arrived@;
            let e = s->0.results.streams@[i];
            &&& s->0.results.streams@.len() == all.len()
            &&& e.id == all[i].stream_id
            &&& e.bytes == all[i].bytes_sent
            &&& e.retransmits == all[i].retransmits
            &&& e.jitter == all[i].jitter_ms
            &&& e.errors == all[i].lost
            &&& e.packets == all[i].packets
        }),
        s->0.results.cpu_util_total.bits == ieee_bits(s->0.cpu.total_pct),
        s->0.results.cpu_util_user.bits == ieee_bits(s->0.cpu.user_pct),
        s->0.results.cpu_util_system.bits == ieee_bits(s->0.cpu.system_pct),
{
}

/// The options tell the server every choice of the client that it needs.
pub proof fn options_tell_the_choices_of_the_client(
    config: &Config,
    token: Option<String>,
    o: ClientOptions,
)
    requires
        call_ensures(client_options, (config, token), o),
    ensures
        o.udp == (config.transport == TransportKind::Udp),
        o.tcp == (config.transport == TransportKind::Tcp),
        o.time == config.time,
        o.omit == config.omit,
        o.parallel == config.parallel,
        o.len == config.len,
        o.bandwidth == config.bandwidth,
        o.reverse == (config.direction == Direction::Reverse),
        o.bidirectional == (config.direction == Direction::Bidirectional),
        o.client_version@ == "3.1.3"@,
        o.authtoken == token,
{
}

/// Options for a plain TCP test.
pub proof fn default_options_are_for_plain_tcp(
    time: u32,
    parallel: u32,
    len: u32,
    o: ClientOptions,
)
    requires
        call_ensures(ClientOptions::tcp_defaults, (time, parallel, len), o),
    ensures
        o.tcp && !o.udp && !o.reverse && !o.bidirectional,
        o.time == time && o.parallel == parallel && o.len == len,
        o.omit == 0 && o.bandwidth == 0 && o.authtoken is None,
        o.client_version@ == "3.1.3"@,
{
}

/// What the server takes from the options: both ways if so told, else back if
/// so told, else forth; over UDP if so told.
pub proof fn options_are_read_as_they_are_meant(
    o: &ClientOptions,
    d: Direction,
    t: TransportKind,
)
    requires
        call_ensures(ClientOptions::direction, (o,), d),
        call_ensures(ClientOptions::transport, (o,), t),
    ensures
        d == Direction::Bidirectional <==> o.bidirectional,
        d == Direction::Reverse <==> o.reverse && !o.bidirectional,
        d == Direction::Forward <==> !o.reverse && !o.bidirectional,
        t == TransportKind::Udp <==> o.udp,
{
}

/// What the server reads from the options is what the client was told.
pub proof fn the_server_runs_the_test_that_was_asked_for(
    config: &Config,
    token: Option<String>,
    o: ClientOptions,
    d: Direction,
    t: TransportKind,
)
    requires
        call_ensures(client_options, (config, token), o),
        call_ensures(ClientOptions::direction, (&o,), d),
        call_ensures(ClientOptions::transport, (&o,), t),
    ensures
        d == config.direction,
        t == config.transport,
{
}

/// Who sends: the client unless the test is reversed, the server unless it is
/// forward. What one side sends the other receives.
pub proof fn each_direction_has_its_senders(
    d: Direction,
    cs: bool,
    cr: bool,
    ss: bool,
    sr: bool,
    rev: bool,
    bi: bool,
)
    requires
        call_ensures(Direction::client_sends, (d,), cs),
        call_ensures(Direction::client_receives, (d,), cr),
        call_ensures(Direction::server_sends, (d,), ss),
        call_ensures(Direction::server_receives, (d,), sr),
        call_ensures(Direction::is_reverse, (d,), rev),
        call_ensures(Direction::is_bidirectional, (d,), bi),
    ensures
        cs == sr,
        ss == cr,
        d == Direction::Forward ==> cs && !cr && !rev && !bi,
        d == Direction::Reverse ==> !cs && cr && rev && !bi,
        d == Direction::Bidirectional ==> cs && cr && !rev && bi,
{
}

/// The roles in the summary: who sends is called so, and both ways count as
/// the client sending.
pub proof fn roles_go_by_the_direction(
    d: Direction,
    roles: (&'static str, &'static str),
)
    requires
        call_ensures(summary_roles, (d,), roles),
    ensures
        d == Direction::Reverse ==> roles.0@ == "receiver"@ && roles.1@ == "sender"@,
        d == Direction::Forward ==> roles.0@ == "sender"@ && roles.1@ == "receiver"@,
        d == Direction::Bidirectional ==> roles.0@ == "sender"@ && roles.1@ == "receiver"@,
{
}

// ---------------------------------------------------------------------
// Streams.

proof fn starts_one_by_one(n: int, d: Direction, t: TransportKind, i: int)
    requires
        0 <= i < n <= u32::MAX,
    ensures
        ({
            let s = crate::client::starts_up_to(n, d, t);
            let send = if t == TransportKind::Udp {
                Transfer::UdpSend
            } else {
                Transfer::TcpSend
            };
            let recv = if t == TransportKind::Udp {
                Transfer::UdpRecv
            } else {
                Transfer::TcpRecv
            };
            match d {
                Direction::Forward => s.len() == n && s[i].stream_id == i + 1 && s[i].transfer
                    == send,
                Direction::Reverse => s.len() == n && s[i].stream_id == i + 1 && s[i].transfer
                    == recv,
                Direction::Bidirectional => {
                    &&& s.len() == 2 * n
                    &&& s[2 * i].stream_id == i + 1 && s[2 * i].transfer == send
                    &&& s[2 * i + 1].stream_id == i + 1 && s[2 * i + 1].transfer == recv
                },
            }
        }),
    decreases n,
{
    let head = crate::client::starts_up_to(n - 1, d, t);
    if n > 1 {
        starts_one_by_one(
            n - 1,
            d,
            t,
            if i < n - 1 {
                i
            } else {
                0
            },
        );
    } else {
        assert(head.len() == 0);
    }
}

/// A client starts as many streams as it was told to run in parallel, at least
/// one, numbered from one: each sends, or receives, or does both, as the
/// direction says, over the transport of the test.
pub proof fn streams_are_started_as_configured(config: &Config, starts: Vec<StreamStart>, i: int)
    requires
        call_ensures(create_streams, (config,), starts),
        0 <= i,
        i < config.parallel || i == 0,
    ensures
        ({
            let n = if config.parallel == 0 {
                1
            } else {
                config.parallel as int
            };
            let s = starts@;
            let udp = config.transport == TransportKind::Udp;
            let send = if udp {
                Transfer::UdpSend
            } else {
                Transfer::TcpSend
            };
            let recv = if udp {
                Transfer::UdpRecv
            } else {
                Transfer::TcpRecv
            };
            match config.direction {
                Direction::Forward => s.len() == n && s[i].stream_id == i + 1 && s[i].transfer
                    == send,
                Direction::Reverse => s.len() == n && s[i].stream_id == i + 1 && s[i].transfer
                    == recv,
                Direction::Bidirectional => {
                    &&& s.len() == 2 * n
                    &&& s[2 * i].stream_id == i + 1 && s[2 * i].transfer == send
                    &&& s[2 * i + 1].stream_id == i + 1 && s[2 * i + 1].transfer == recv
                },
            }
        }),
{
    let n = if config.parallel == 0 {
        1
    } else {
        config.parallel as int
    };
    starts_one_by_one(n, config.direction, config.transport, i);
}

} // verus!
