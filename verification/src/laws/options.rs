//! What the command line is taken for.

use vstd::prelude::*;

use crate::cli::{Cli, Mode};
use crate::common::affinity::parse_affinity;
use crate::common::bandwidth::{parse, parse_size, parse_tos};
use crate::common::direction::Direction;
use crate::common::protocol::{SocketOption, TuningOpts};
use crate::common::test::{Config, Test};
use crate::common::text::{decimal, number_error_message, parse_number, NumberError};
use crate::common::transport_kind::TransportKind;

verus! {

/// What is wrong with a number, in words.
pub open spec fn fault(e: NumberError) -> Seq<char> {
    match e {
        NumberError::Empty => "cannot parse integer from empty string"@,
        NumberError::InvalidDigit => "invalid digit found in string"@,
        NumberError::TooLarge => "number too large to fit in target type"@,
    }
}

/// Faults are told in words.
pub proof fn faults_are_told(e: NumberError, s: &'static str)
    requires
        call_ensures(number_error_message, (e,), s),
    ensures
        s@ == fault(e),
{
}

/// What a letter behind a number multiplies it by, where it does.
pub open spec fn factor(c: char, unit: int) -> int {
    if c == 'k' || c == 'K' {
        unit
    } else if c == 'm' || c == 'M' {
        unit * unit
    } else if c == 'g' || c == 'G' {
        unit * unit * unit
    } else {
        0
    }
}

/// What an amount comes to, given what its digits are read as: nothing for an
/// empty text, and otherwise the digits times the factor, if that fits.
pub open spec fn amount(
    what: Seq<char>,
    s: Seq<char>,
    unit: int,
    digits: Result<u64, NumberError>,
    r: Result<u64, String>,
) -> bool {
    let f = if factor(s.last(), unit) > 0 {
        factor(s.last(), unit)
    } else {
        1
    };
    if s.len() == 0 {
        r == Ok::<u64, String>(0)
    } else {
        match digits {
            Ok(n) => {
                &&& r is Ok <==> n * f <= u64::MAX
                &&& r matches Ok(v) ==> v == n * f
                &&& r is Err ==> r->Err_0@ == what + " '"@ + s + "' overflows u64"@
            },
            Err(e) => r is Err && r->Err_0@ == "invalid "@ + what + " '"@ + s + "': "@ + fault(e),
        }
    }
}

/// The digits of an amount: all of it, but for a letter that multiplies.
pub open spec fn digits_in(s: Seq<char>) -> Seq<char> {
    if s.len() > 0 && factor(s.last(), 1) > 0 {
        s.drop_last()
    } else {
        s
    }
}

/// Rates count in thousands, and sizes in units of 1024: K, M and G, in either
/// case, behind a number multiply it by one, two or three of those.
pub proof fn letters_multiply_amounts(
    s: &str,
    digits: &[char],
    n: Result<u64, NumberError>,
    rate: Result<u64, String>,
    size: Result<u64, String>,
)
    requires
        digits@ == digits_in(s@),
        call_ensures(parse_number, (digits, 10, u64::MAX), n),
        call_ensures(parse, (s,), rate),
        call_ensures(parse_size, (s,), size),
    ensures
        amount("bandwidth"@, s@, 1000, n, rate),
        amount("size"@, s@, 1024, n, size),
{
    if s@.len() > 0 {
        let c = s@.last();
        assert(crate::common::bandwidth::multiplier(c, 1000) == (if factor(c, 1000) > 0 {
            Some(factor(c, 1000))
        } else {
            None::<int>
        }));
        assert(crate::common::bandwidth::multiplier(c, 1024) == (if factor(c, 1024) > 0 {
            Some(factor(c, 1024))
        } else {
            None::<int>
        }));
        assert(factor(c, 1) > 0 <==> factor(c, 1000) > 0);
        assert(factor(c, 1) > 0 <==> factor(c, 1024) > 0);
    }
}

/// A type of service is a byte, in decimal; in hexadecimal behind 0x; and in
/// octal behind any other zero that is not alone.
pub proof fn types_of_service_are_bytes(
    s: &str,
    digits: &[char],
    radix: u32,
    n: Result<u64, NumberError>,
    r: Result<u8, String>,
)
    requires
        call_ensures(parse_tos, (s,), r),
        ({
            let t = s@;
            let zero = t.len() >= 2 && t[0] == '0';
            let hex = zero && (t[1] == 'x' || t[1] == 'X');
            &&& hex ==> radix == 16 && digits@ == t.skip(2)
            &&& zero && !hex ==> radix == 8 && digits@ == t.skip(1)
            &&& !zero ==> radix == 10 && digits@ == t
        }),
        call_ensures(parse_number, (digits, radix, u32::MAX as u64), n),
    ensures
        r is Ok <==> n is Ok && n->Ok_0 <= 255,
        r matches Ok(v) ==> v == n->Ok_0,
        n is Ok && n->Ok_0 > 255 ==> r is Err && r->Err_0@ == "TOS value "@ + decimal(
            n->Ok_0 as nat,
        ) + " out of range (0-255)"@,
        n is Err ==> r is Err && r->Err_0@ == (if radix == 16 {
            "invalid TOS hex '"@
        } else if radix == 8 {
            "invalid TOS octal '"@
        } else {
            "invalid TOS '"@
        }) + s@ + "': "@ + fault(n->Err_0),
{
}

/// A processor is named by its number.
pub proof fn processors_are_named_by_number(
    s: &str,
    digits: &[char],
    n: Result<u64, NumberError>,
    r: Result<usize, String>,
)
    requires
        digits@ == s@,
        call_ensures(parse_number, (digits, 10, usize::MAX as u64), n),
        call_ensures(parse_affinity, (s,), r),
    ensures
        r is Ok <==> n is Ok,
        r matches Ok(v) ==> v == n->Ok_0,
        r is Err ==> r->Err_0@ == "warning: invalid -A value '"@ + s@
            + "', expected integer CPU id"@,
{
}

/// The command line becomes the configuration that it names, or the first of
/// its faults: in the rate, in the window, in the type of service, in the
/// number of bytes.
pub proof fn the_command_line_is_taken_at_its_word(
    cli: Cli,
    r: Result<Mode, String>,
    rate: &str,
    window: &str,
    tos: &str,
    bytes: &str,
    pr: Result<u64, String>,
    pw: Result<u64, String>,
    pt: Result<u8, String>,
    pb: Result<u64, String>,
)
    requires
        call_ensures(Cli::try_into_mode, (cli,), r),
        cli.bandwidth matches Some(s) ==> rate@ == s@,
        cli.window matches Some(s) ==> window@ == s@,
        cli.tos matches Some(s) ==> tos@ == s@,
        cli.bytes matches Some(s) ==> bytes@ == s@,
        call_ensures(parse, (rate,), pr),
        call_ensures(parse_size, (window,), pw),
        call_ensures(parse_tos, (tos,), pt),
        call_ensures(parse_size, (bytes,), pb),
    ensures
        ({
            let bad_rate = cli.bandwidth is Some && pr is Err;
            let no_window = cli.window is Some && pw is Err;
            let big_window = cli.window is Some && pw is Ok && pw->Ok_0 > u32::MAX;
            let bad_tos = cli.tos is Some && pt is Err;
            let bad_bytes = cli.bytes is Some && pb is Err;
            &&& r is Err <==> bad_rate || no_window || big_window || bad_tos || bad_bytes
            &&& bad_rate ==> r->Err_0@ == pr->Err_0@
            &&& !bad_rate && no_window ==> r->Err_0@ == pw->Err_0@
            &&& !bad_rate && big_window ==> r->Err_0@ == "window size '"@ + window@
                + "' exceeds u32::MAX"@
            &&& !bad_rate && !no_window && !big_window && bad_tos ==> r->Err_0@ == pt->Err_0@
            &&& !bad_rate && !no_window && !big_window && !bad_tos && bad_bytes ==> r->Err_0@
                == pb->Err_0@
            &&& r matches Ok(m) ==> {
                let c = match m {
                    Mode::Server(c) => c,
                    Mode::Client(c) => c,
                };
                &&& m is Server <==> cli.server
                &&& cli.host matches Some(h) ==> c.host@ == h@
                &&& cli.host is None ==> c.host@ == "0.0.0.0"@
                &&& c.port == cli.port
                &&& c.time == cli.time
                &&& c.parallel == cli.parallel
                &&& cli.len matches Some(n) ==> c.len == n
                &&& cli.len is None && cli.udp ==> c.len == 1460
                &&& cli.len is None && !cli.udp ==> c.len == 131_072
                &&& c.omit == cli.omit
                &&& c.transport == TransportKind::Udp <==> cli.udp
                &&& cli.bandwidth is Some ==> c.bandwidth == pr->Ok_0
                &&& cli.bandwidth is None && cli.udp ==> c.bandwidth == 1_000_000
                &&& cli.bandwidth is None && !cli.udp ==> c.bandwidth == 0
                &&& c.one_off == cli.one_off
                &&& cli.max_concurrent == 0 ==> c.max_concurrent == 1
                &&& cli.max_concurrent > 0 ==> c.max_concurrent == cli.max_concurrent
                &&& c.direction == Direction::Bidirectional <==> cli.bidir
                &&& c.direction == Direction::Reverse <==> cli.reverse && !cli.bidir
                &&& c.json == cli.json
                &&& c.format_unit == cli.format
                &&& c.logfile == cli.logfile
                &&& cli.window is Some ==> c.window_size is Some && c.window_size->0 == pw->Ok_0
                &&& cli.window is None ==> c.window_size is None
                &&& c.mss == cli.mss
                &&& c.congestion == cli.congestion
                &&& cli.tos is Some ==> c.tos is Some && c.tos->0 == pt->Ok_0
                &&& cli.tos is None ==> c.tos is None
                &&& c.zero_copy == cli.zerocopy
                &&& cli.bytes is Some ==> c.total_bytes is Some && c.total_bytes->0 == pb->Ok_0
                &&& cli.bytes is None ==> c.total_bytes is None
                &&& c.total_blocks == cli.blockcount
                &&& c.title == cli.title
                &&& c.affinity == cli.affinity
                &&& c.username == cli.username
                &&& c.password == cli.password
                &&& c.rsa_public_key == cli.rsa_public_key
                &&& c.rsa_private_key == cli.rsa_private_key
                &&& c.authorized_users == cli.authorized_users
            }
        }),
{
}

/// A configuration without options.
pub proof fn a_plain_configuration_is_a_tcp_test(host: &str, c: Config, t: Test)
    requires
        call_ensures(Config::with_host, (host,), c),
        call_ensures(Test::new, (c,), t),
    ensures
        c.host@ == host@ && c.port == 5201 && c.time == 10 && c.parallel == 1 && c.len == 131_072,
        c.omit == 0 && c.bandwidth == 0 && c.max_concurrent == 1 && !c.one_off && !c.json,
        c.transport == TransportKind::Tcp && c.direction == Direction::Forward,
        c.title is None && c.window_size is None && c.mss is None && c.tos is None,
        c.congestion is None && c.total_bytes is None && c.total_blocks is None,
        t.config == c && !t.is_started && !t.is_running && t.receipts@.len() == 0,
        t.control_channel is None && t.cpu_start is None,
{
}

/// The options of a socket are set in order: the window on both buffers, then
/// the type of service, the segment size and the congestion algorithm; those
/// that were not asked for are left out.
pub proof fn socket_options_are_set_in_order(o: &TuningOpts, plan: Vec<SocketOption>)
    requires
        call_ensures(TuningOpts::plan, (o,), plan),
    ensures
        ({
            let w: int = if o.window_size is Some {
                2
            } else {
                0
            };
            let t: int = if o.tos is Some {
                1
            } else {
                0
            };
            let m: int = if o.mss is Some {
                1
            } else {
                0
            };
            let c: int = if o.congestion is Some {
                1
            } else {
                0
            };
            &&& plan@.len() == w + t + m + c
            &&& o.window_size matches Some(n) ==> plan@[0] == SocketOption::SendBuffer(n)
                && plan@[1] == SocketOption::ReceiveBuffer(n)
            &&& o.tos matches Some(n) ==> plan@[w] == SocketOption::TypeOfService(n)
            &&& o.mss matches Some(n) ==> plan@[w + t] == SocketOption::SegmentSize(n)
            &&& o.congestion matches Some(s) ==> plan@[w + t + m] == SocketOption::Congestion(s)
        }),
{
}

/// A transport is UDP or not.
pub proof fn transports_are_told_apart(t: TransportKind, b: bool)
    requires
        call_ensures(TransportKind::is_udp, (t,), b),
    ensures
        b <==> t == TransportKind::Udp,
        !b <==> t == TransportKind::Tcp,
{
}

} // verus!
