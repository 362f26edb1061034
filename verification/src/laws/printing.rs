//! What the lines say.

use vstd::prelude::*;

use crate::client::ClientTotals;
use crate::common::binary64::{nearest, seconds, span_seconds, to_seconds, Double};
use crate::common::cpu::CpuUsage;
use crate::common::direction::Direction;
use crate::common::format::{bitrate, bitrate_bps, bitrate_text, bits_per_second, bytes};
use crate::common::format::{bytes_text, fixed};
use crate::common::interval::{megabits_per_second, IntervalSnapshot};
use crate::common::json_output::{summary, JsonOutput, JsonSum};
use crate::common::stream::{format_interval_row, format_summary_row, titled};
use crate::common::test::Config;
use crate::common::text::decimal;
use crate::common::time::Duration;
use crate::common::transport_kind::TransportKind;
use crate::laws::results::ieee_bits;
use crate::report::{client_own_lines, client_peer_lines, format_session_line};
use crate::server::{format_server_row, format_summary, SessionTotals};

verus! {

/// So many blanks; none for a negative number.
pub open spec fn blanks(n: int) -> Seq<char> {
    Seq::new(
        (if n > 0 {
            n
        } else {
            0
        }) as nat,
        |i: int| ' ',
    )
}

/// A span that is at least a millionth of a second.
pub open spec fn at_least_a_microsecond(secs: Double) -> Double {
    let least = nearest(1, 1).quotient(nearest(1_000_000, 1));
    if secs.below(least) {
        least
    } else {
        secs
    }
}

/// Bits per second of so many bytes over a span.
pub open spec fn rate(n: u64, secs: Double) -> Double {
    nearest(n as int, 1).product(nearest(8, 1)).quotient(at_least_a_microsecond(secs))
}

/// From one point in time to another; nothing backwards.
pub open spec fn gap(start: Double, end: Double) -> Double {
    if end.below(start) {
        Double { mant: 0, exp: 0 }
    } else {
        end.difference(start)
    }
}

/// A row of the table of intervals.
pub open spec fn row(id: u32, start: Double, end: Double, n: u64) -> Seq<char> {
    let number = decimal(id as nat);
    let from = fixed(start, 2);
    let to = fixed(end, 2);
    let amount = bytes_text(n);
    let speed = bitrate_text(rate(n, gap(start, end)));
    "["@ + blanks(3 - number.len()) + number + "] "@ + blanks(6 - from.len()) + from + "-"@ + to
        + blanks(5 - to.len()) + " sec  "@ + blanks(10 - amount.len()) + amount + "  "@ + blanks(
        14 - speed.len(),
    ) + speed
}

proof fn rows_agree(id: u32, start: Double, end: Double, n: u64)
    ensures
        crate::common::stream::row_text(id, start, end, n) == row(id, start, end, n),
{
    reveal_strlit("[");
    reveal_strlit("-");
    assert("["@ =~= seq!['[']);
    assert("-"@ =~= seq!['-']);
    let number = decimal(id as nat);
    let from = fixed(start, 2);
    let to = fixed(end, 2);
    let amount = bytes_text(n);
    let speed = bitrate_text(rate(n, gap(start, end)));
    blanks_agree(3 - number.len());
    blanks_agree(6 - from.len());
    blanks_agree(5 - to.len());
    blanks_agree(10 - amount.len());
    blanks_agree(14 - speed.len());
    assert(crate::common::format::rate_over(
        n,
        crate::common::binary64::seconds_between(start, end),
    ) == rate(n, gap(start, end)));
    assert(crate::common::stream::row_text(id, start, end, n) =~= row(id, start, end, n));
}

proof fn blanks_agree(n: int)
    ensures
        crate::common::format::spaces(n) == blanks(n),
{
    assert(crate::common::format::spaces(n) =~= blanks(n));
}

/// A row names its stream, its interval, the bytes moved in it, and those
/// bytes as bits over the length of the interval.
pub proof fn rows_tell_bytes_over_time(
    id: u32,
    start: Double,
    end: Double,
    n: u64,
    role: &str,
    s: String,
    t: String,
)
    requires
        call_ensures(format_interval_row, (id, start, end, n), s),
        call_ensures(format_summary_row, (id, start, end, n, role), t),
    ensures
        s@ == row(id, start, end, n),
        t@ == row(id, start, end, n) + "  "@ + role@,
{
    rows_agree(id, start, end, n);
}

/// A line behind the title of the test, where it has one.
pub open spec fn behind_title(title: Option<String>, line: Seq<char>) -> Seq<char> {
    match title {
        Some(t) => t@ + ":  "@ + line,
        None => line,
    }
}

/// The title comes before the row.
pub proof fn titles_come_first(title: Option<String>, line: &str, s: String)
    requires
        call_ensures(titled, (&title, line), s),
    ensures
        s@ == behind_title(title, line@),
{
}

/// The client's own summary: nothing with JSON; else a separator, the heading,
/// and a row of the bytes over the time in which those bytes moved, from zero,
/// with the part that the client played.
pub proof fn own_summary_is_over_its_own_time(
    config: &Config,
    totals: &ClientTotals,
    lines: Vec<String>,
)
    requires
        call_ensures(client_own_lines, (config, totals), lines),
    ensures
        config.json ==> lines@.len() == 0,
        !config.json ==> {
            &&& lines@.len() == 3
            &&& lines@[0]@ == "- - - - - - - - - - - - - - - - - - - - - - - - -"@
            &&& lines@[1]@ == "[ ID] Interval           Transfer     Bitrate"@
            &&& lines@[2]@ == behind_title(
                config.title,
                row(1, nearest(0, 1), seconds(totals.duration), totals.bytes) + "  "@ + (
                if config.direction == Direction::Reverse {
                    "receiver"@
                } else {
                    "sender"@
                }),
            )
        },
{
    rows_agree(1, nearest(0, 1), seconds(totals.duration), totals.bytes);
    let texts = crate::report::line_texts(lines@);
    assert(texts.len() == lines@.len());
    if !config.json {
        assert(texts[0] == lines@[0]@ && texts[1] == lines@[1]@ && texts[2] == lines@[2]@);
    }
}

/// Nothing but the bytes and their time goes into the client's own summary:
/// totals that agree in both read the same.
pub proof fn own_summary_leaves_the_session_out(
    config: &Config,
    a: &ClientTotals,
    b: &ClientTotals,
    la: Vec<String>,
    lb: Vec<String>,
    i: int,
)
    requires
        call_ensures(client_own_lines, (config, a), la),
        call_ensures(client_own_lines, (config, b), lb),
        a.bytes == b.bytes,
        a.duration == b.duration,
        0 <= i < la@.len(),
    ensures
        la@.len() == lb@.len(),
        la@[i]@ == lb@[i]@,
{
    own_summary_is_over_its_own_time(config, a, la);
    own_summary_is_over_its_own_time(config, b, lb);
}

/// The other side's summary: a row of what that side counted over the client's
/// time, with the part that it played; then the retransmissions, if there were
/// any, and the processor use, if there was any.
pub proof fn peer_summary_is_over_the_clients_time(
    config: &Config,
    totals: &ClientTotals,
    n: u64,
    cpu: &CpuUsage,
    lines: Vec<String>,
)
    requires
        call_ensures(client_peer_lines, (config, totals, n, cpu), lines),
    ensures
        ({
            let again = if totals.retransmits > 0 {
                1int
            } else {
                0
            };
            let busy = if cpu.total_pct.mant > 0 {
                1int
            } else {
                0
            };
            &&& lines@.len() == 1 + again + busy
            &&& lines@[0]@ == behind_title(
                config.title,
                row(1, nearest(0, 1), seconds(totals.duration), n) + "  "@ + (
                if config.direction == Direction::Reverse {
                    "sender"@
                } else {
                    "receiver"@
                }),
            )
            &&& again == 1 ==> lines@[1]@ == "TCP retransmits: "@ + decimal(
                totals.retransmits as nat,
            )
            &&& busy == 1 ==> lines@[1 + again]@ == "CPU: "@ + fixed(cpu.total_pct, 2)
                + "% total ("@ + fixed(cpu.user_pct, 2) + "% user, "@ + fixed(cpu.system_pct, 2)
                + "% system)"@
        }),
{
    rows_agree(1, nearest(0, 1), seconds(totals.duration), n);
    let texts = crate::report::line_texts(lines@);
    assert(texts.len() == lines@.len());
    assert(texts[0] == lines@[0]@);
    if texts.len() > 1 {
        assert(texts[1] == lines@[1]@);
    }
    if texts.len() > 2 {
        assert(texts[2] == lines@[2]@);
    }
    assert(Seq::<char>::empty() + "CPU: "@ =~= "CPU: "@);
    assert(cpu.text(Seq::empty()) =~= "CPU: "@ + fixed(cpu.total_pct, 2) + "% total ("@ + fixed(
        cpu.user_pct,
        2,
    ) + "% user, "@ + fixed(cpu.system_pct, 2) + "% system)"@);
}

/// The line on processor use tells all three figures, where there was any.
pub proof fn processor_use_is_told(cpu: &CpuUsage, lead: &str, r: Option<String>)
    requires
        call_ensures(CpuUsage::line, (cpu, lead), r),
    ensures
        r is Some <==> cpu.total_pct.mant != 0,
        r matches Some(s) ==> s@ == lead@ + "CPU: "@ + fixed(cpu.total_pct, 2) + "% total ("@
            + fixed(cpu.user_pct, 2) + "% user, "@ + fixed(cpu.system_pct, 2) + "% system)"@,
{
}

/// Millions of bits per second of so many bytes over a span.
pub open spec fn megabits(n: u64, secs: Double) -> Double {
    nearest(n as int, 1).product(nearest(8, 1)).quotient(nearest(1_000_000, 1)).quotient(
        at_least_a_microsecond(secs),
    )
}

/// The server's summary: bytes, streams, time, and the rate over that time.
pub proof fn server_summary_tells_its_rate(n: u64, d: Duration, streams: usize, s: String)
    requires
        call_ensures(format_summary, (n, d, streams), s),
    ensures
        ({
            let secs = at_least_a_microsecond(seconds(d));
            s@ == "received "@ + decimal(n as nat) + " bytes across "@ + decimal(streams as nat)
                + " stream(s) in "@ + fixed(secs, 2) + "s ("@ + fixed(megabits(n, secs), 2)
                + " Mbits/sec)"@
        }),
{
}

/// A row of the server: the stream, the interval, its bytes, and their rate
/// over the interval; the last one says so.
pub proof fn server_rows_tell_bytes_over_time(snap: &IntervalSnapshot, last: bool, s: String)
    requires
        call_ensures(format_server_row, (snap, last), s),
    ensures
        s@ == "[SRV "@ + decimal(snap.stream_id as nat) + "] "@ + fixed(seconds(snap.start), 2)
            + "-"@ + fixed(seconds(snap.end), 2) + " sec  "@ + bytes_text(snap.bytes) + "  "@
            + bitrate_text(rate(snap.bytes, gap(seconds(snap.start), seconds(snap.end)))) + (
        if last {
            " (final)"@
        } else {
            Seq::<char>::empty()
        }),
{
}

/// The line on a whole session of the server.
pub proof fn session_lines_tell_both_spans(t: &SessionTotals, streams: usize, s: String)
    requires
        call_ensures(format_session_line, (t, streams), s),
    ensures
        s@ == "total bytes received: "@ + decimal(t.total_bytes as nat) + " ("@ + decimal(
            t.measured_bytes as nat,
        ) + " post-omit) across "@ + decimal(streams as nat) + " stream(s) over "@ + fixed(
            seconds(t.raw),
            6,
        ) + "s (steady-state "@ + fixed(seconds(t.steady), 6) + "s)"@,
{
}

/// The rate within an interval.
pub proof fn intervals_tell_their_rate(snap: &IntervalSnapshot, d: Double)
    requires
        call_ensures(IntervalSnapshot::mbits_per_sec, (snap,), d),
    ensures
        d == megabits(snap.bytes, gap(seconds(snap.start), seconds(snap.end))),
{
}

/// Rates are bytes times eight over seconds.
pub proof fn rates_are_bits_over_seconds(n: u64, secs: Double, a: Double, b: Double, s: String)
    requires
        call_ensures(bits_per_second, (n, secs), a),
        call_ensures(megabits_per_second, (n, secs), b),
        call_ensures(bitrate, (n, secs), s),
    ensures
        a == rate(n, secs),
        b == megabits(n, secs),
        s@ == bitrate_text(rate(n, secs)),
{
}

/// The time between two points.
pub proof fn spans_run_from_start_to_end(start: Double, end: Double, d: Double)
    requires
        call_ensures(span_seconds, (start, end), d),
    ensures
        d == gap(start, end),
{
}

/// Seconds are the whole ones and the billionths together.
pub proof fn seconds_are_whole_ones_and_billionths(d: Duration, s: Double)
    requires
        call_ensures(to_seconds, (d,), s),
    ensures
        ({
            let whole = d.nanos as int / 1_000_000_000;
            s == seconds(d) && seconds(d) == nearest(whole, 1).sum(
                nearest(d.nanos - whole * 1_000_000_000, 1).quotient(nearest(1_000_000_000, 1)),
            )
        }),
{
}

/// Bytes are told in the largest of the units, each 1024 times the one below,
/// of which there is at least one, with two places; below the first, in full.
pub proof fn bytes_are_told_in_the_largest_unit(n: u64, s: String)
    requires
        call_ensures(bytes, (n,), s),
    ensures
        s@ == bytes_text(n),
        n < 1_024 ==> s@ == decimal(n as nat) + " Bytes"@,
        1_024 <= n < 1_048_576 ==> s@ == fixed(
            nearest(n as int, 1).quotient(nearest(1_024, 1)),
            2,
        ) + " KBytes"@,
        1_048_576 <= n < 1_073_741_824 ==> s@ == fixed(
            nearest(n as int, 1).quotient(nearest(1_048_576, 1)),
            2,
        ) + " MBytes"@,
        1_073_741_824 <= n < 1_099_511_627_776 ==> s@ == fixed(
            nearest(n as int, 1).quotient(nearest(1_073_741_824, 1)),
            2,
        ) + " GBytes"@,
        1_099_511_627_776 <= n ==> s@ == fixed(
            nearest(n as int, 1).quotient(nearest(1_099_511_627_776, 1)),
            2,
        ) + " TBytes"@,
{
}

/// A rate is told in the largest of the units, each 1000 times the one below,
/// of which there is at least one, with two places.
pub proof fn rates_are_told_in_the_largest_unit(bps: Double, s: String)
    requires
        call_ensures(bitrate_bps, (bps,), s),
    ensures
        ({
            let k = nearest(1_000, 1);
            let m = nearest(1_000_000, 1);
            let g = nearest(1_000_000_000, 1);
            let t = nearest(1_000_000_000_000, 1);
            &&& s@ == bitrate_text(bps)
            &&& !bps.below(t) ==> s@ == fixed(bps.quotient(t), 2) + " Tbits/sec"@
            &&& bps.below(t) && !bps.below(g) ==> s@ == fixed(bps.quotient(g), 2) + " Gbits/sec"@
            &&& bps.below(t) && bps.below(g) && !bps.below(m) ==> s@ == fixed(bps.quotient(m), 2)
                + " Mbits/sec"@
            &&& bps.below(t) && bps.below(g) && bps.below(m) && !bps.below(k) ==> s@ == fixed(
                bps.quotient(k),
                2,
            ) + " Kbits/sec"@
            &&& bps.below(t) && bps.below(g) && bps.below(m) && bps.below(k) ==> s@ == fixed(bps, 2)
                + " bits/sec"@
        }),
{
}

/// The JSON summary tells the test and, for each side, its bytes, the seconds,
/// and the rate over those seconds.
pub proof fn json_tells_the_test_and_both_sides(
    config: &Config,
    sent: u64,
    received: u64,
    secs: Double,
    o: JsonOutput,
)
    requires
        call_ensures(summary, (config, sent, received, secs), o),
    ensures
        o.start.connecting_to is Some,
        o.start.connecting_to->0.host@ == config.host@,
        o.start.connecting_to->0.port == config.port,
        config.transport == TransportKind::Udp ==> o.start.test_start.protocol@ == "UDP"@,
        config.transport == TransportKind::Tcp ==> o.start.test_start.protocol@ == "TCP"@,
        o.start.test_start.num_streams == config.parallel,
        o.start.test_start.blksize == config.len,
        o.start.test_start.duration == config.time,
        config.direction == Direction::Forward ==> o.start.test_start.reverse == 0
            && o.start.test_start.bidir == 0,
        config.direction == Direction::Reverse ==> o.start.test_start.reverse == 1
            && o.start.test_start.bidir == 0,
        config.direction == Direction::Bidirectional ==> o.start.test_start.reverse == 0
            && o.start.test_start.bidir == 1,
        o.end.sum_sent.bytes == sent,
        o.end.sum_received.bytes == received,
        o.end.sum_sent.seconds.bits == ieee_bits(secs),
        o.end.sum_received.seconds.bits == ieee_bits(secs),
        o.end.sum_sent.bits_per_second.bits == ieee_bits(rate(sent, secs)),
        o.end.sum_received.bits_per_second.bits == ieee_bits(rate(received, secs)),
{
}

/// One side of the JSON summary.
pub proof fn json_sums_are_bytes_over_seconds(n: u64, secs: Double, s: JsonSum)
    requires
        call_ensures(JsonSum::new, (n, secs), s),
    ensures
        s.bytes == n,
        s.seconds.bits == ieee_bits(secs),
        s.bits_per_second.bits == ieee_bits(rate(n, secs)),
{
}

} // verus!
