//! What either side prints at the end of a test.

use vstd::prelude::*;
use vstd::string::StringExecFns;

use crate::client::{summary_roles, ClientTotals};
use crate::common::binary64::{seconds, to_seconds, Double};
use crate::common::cpu::CpuUsage;
use crate::common::direction::Direction;
use crate::common::format::{fixed, push_fixed6};
use crate::common::stream::{format_summary_row, row_text, titled, titled_text};
use crate::common::stream::{INTERVAL_HEADER, SUMMARY_SEPARATOR};
use crate::common::test::Config;
use crate::common::text::{decimal, push_decimal};
use crate::common::time::MAX_NANOS;
use crate::server::SessionTotals;

verus! {

/// Lines, by their characters.
pub open spec fn line_texts(lines: Seq<String>) -> Seq<Seq<char>> {
    lines.map_values(|s: String| s@)
}

/// The title of a test, by its characters.
pub open spec fn title_of(config: Config) -> Option<Seq<char>> {
    match config.title {
        Some(t) => Some(t@),
        None => None,
    }
}

/// The role of the client, or of the server, in the summary.
pub open spec fn role_text(direction: Direction, of_client: bool) -> Seq<char> {
    if (direction == Direction::Reverse) == of_client {
        "receiver"@
    } else {
        "sender"@
    }
}

/// The row that sums up what one side counted, over the client's time.
pub open spec fn summary_row(
    config: Config,
    totals: ClientTotals,
    bytes: u64,
    of_client: bool,
) -> Seq<char> {
    let zero = Double { mant: 0, exp: 0 };
    titled_text(
        title_of(config),
        row_text(1, zero, seconds(totals.duration), bytes) + "  "@ + role_text(
            config.direction,
            of_client,
        ),
    )
}

fn render_summary_row(config: &Config, totals: &ClientTotals, bytes: u64, of_client: bool) -> (s:
    String)
    requires
        totals.duration.nanos <= MAX_NANOS,
    ensures
        s@ == summary_row(*config, *totals, bytes, of_client),
{
    let (client_role, server_role) = summary_roles(config.direction);
    let role = if of_client {
        client_role
    } else {
        server_role
    };
    let row = format_summary_row(1, Double::zero(), to_seconds(totals.duration), bytes, role);
    titled(&config.title, row.as_str())
}

/// What the client prints before results are exchanged.
pub open spec fn own_lines(config: Config, totals: ClientTotals) -> Seq<Seq<char>> {
    if config.json {
        seq![]
    } else {
        seq![
            SUMMARY_SEPARATOR@,
            INTERVAL_HEADER@,
            summary_row(config, totals, totals.bytes, true),
        ]
    }
}

/// What the client prints before results are exchanged: what it counted
/// itself. Nothing where the summary is to be JSON.
pub fn client_own_lines(config: &Config, totals: &ClientTotals) -> (lines: Vec<String>)
    requires
        totals.duration.nanos <= MAX_NANOS,
    ensures
        line_texts(lines@) == own_lines(*config, *totals),
{
    let mut lines: Vec<String> = Vec::new();
    if !config.json {
        lines.push(SUMMARY_SEPARATOR.to_owned());
        lines.push(INTERVAL_HEADER.to_owned());
        lines.push(render_summary_row(config, totals, totals.bytes, true));
    }
    proof {
        assert(line_texts(lines@) =~= own_lines(*config, *totals));
    }
    lines
}

/// What the client prints once the server has reported `server_bytes`.
pub open spec fn peer_lines(
    config: Config,
    totals: ClientTotals,
    server_bytes: u64,
    cpu: CpuUsage,
) -> Seq<Seq<char>> {
    seq![summary_row(config, totals, server_bytes, false)] + (if totals.retransmits > 0 {
        seq!["TCP retransmits: "@ + decimal(totals.retransmits as nat)]
    } else {
        seq![]
    }) + (if cpu.total_pct.mant > 0 {
        seq![cpu.text(Seq::empty())]
    } else {
        seq![]
    })
}

/// What the client prints once the server has reported `server_bytes`: what
/// the server counted, then retransmissions and processor use where there
/// were any.
pub fn client_peer_lines(
    config: &Config,
    totals: &ClientTotals,
    server_bytes: u64,
    cpu: &CpuUsage,
) -> (lines: Vec<String>)
    requires
        totals.duration.nanos <= MAX_NANOS,
        cpu.wf(),
    ensures
        line_texts(lines@) == peer_lines(*config, *totals, server_bytes, *cpu),
{
    let mut lines: Vec<String> = Vec::new();
    lines.push(render_summary_row(config, totals, server_bytes, false));
    if totals.retransmits > 0 {
        let mut s = "TCP retransmits: ".to_owned();
        push_decimal(&mut s, totals.retransmits as u128);
        lines.push(s);
    }
    proof {
        reveal_strlit("");
        assert(""@ =~= Seq::<char>::empty());
    }
    match cpu.line("") {
        Some(s) => {
            lines.push(s);
        },
        None => {},
    }
    proof {
        assert(line_texts(lines@) =~= peer_lines(*config, *totals, server_bytes, *cpu));
    }
    lines
}

/// The line that tells what a session came to.
pub open spec fn session_text(totals: SessionTotals, streams: nat) -> Seq<char> {
    "total bytes received: "@ + decimal(totals.total_bytes as nat) + " ("@ + decimal(
        totals.measured_bytes as nat,
    ) + " post-omit) across "@ + decimal(streams) + " stream(s) over "@ + fixed(
        seconds(totals.raw),
        6,
    ) + "s (steady-state "@ + fixed(seconds(totals.steady), 6) + "s)"@
}

/// Renders the line that tells what a session came to.
pub fn format_session_line(totals: &SessionTotals, streams: usize) -> (s: String)
    requires
        totals.raw.nanos <= MAX_NANOS,
        totals.steady.nanos <= MAX_NANOS,
    ensures
        s@ == session_text(*totals, streams as nat),
{
    let mut s = "total bytes received: ".to_owned();
    push_decimal(&mut s, totals.total_bytes as u128);
    s.append(" (");
    push_decimal(&mut s, totals.measured_bytes as u128);
    s.append(" post-omit) across ");
    push_decimal(&mut s, streams as u128);
    s.append(" stream(s) over ");
    push_fixed6(&mut s, to_seconds(totals.raw));
    s.append("s (steady-state ");
    push_fixed6(&mut s, to_seconds(totals.steady));
    s.append("s)");
    proof {
        assert(s@ =~= session_text(*totals, streams as nat));
    }
    s
}

} // verus!
