//! Processor time, as the kernel writes it down for a process.

use vstd::prelude::*;
use vstd::arithmetic::power2::*;
use vstd::string::StringExecFns;

use super::binary64::{nearest, pow2_pos, seconds, to_seconds, Double};
use super::format::{fixed2, push_fixed2};
use super::text::{chars_views, number, parse_number, slice_chars, split_words, to_chars, words};
use super::time::{Duration, MAX_NANOS};

verus! {

/// Processor time of the process, in clock ticks.
#[derive(Debug, Clone, Copy, PartialEq, Eq, Structural)]
pub struct CpuSnapshot {
    pub user_ticks: u64,
    pub system_ticks: u64,
}

impl Default for CpuSnapshot {
    fn default() -> (s: CpuSnapshot)
        ensures
            s.user_ticks == 0,
            s.system_ticks == 0,
    {
        CpuSnapshot { user_ticks: 0, system_ticks: 0 }
    }
}

/// Processor use over a stretch of time, in percent of one core.
#[derive(Debug, Clone, Copy, PartialEq, Eq, Structural)]
pub struct CpuUsage {
    pub user_pct: Double,
    pub system_pct: Double,
    pub total_pct: Double,
}

impl CpuUsage {
    /// The figures are in a range that can be written out.
    pub open spec fn wf(self) -> bool {
        &&& self.user_pct.within(-1_000, 60)
        &&& self.system_pct.within(-1_000, 60)
        &&& self.total_pct.within(-1_000, 60)
    }

    /// No use at all.
    pub open spec fn nothing() -> CpuUsage {
        let zero = Double { mant: 0, exp: 0 };
        CpuUsage { user_pct: zero, system_pct: zero, total_pct: zero }
    }

    /// No use at all.
    pub fn zero() -> (u: CpuUsage)
        ensures
            u == Self::nothing(),
            u.wf(),
    {
        CpuUsage {
            user_pct: Double::zero(),
            system_pct: Double::zero(),
            total_pct: Double::zero(),
        }
    }

    /// The line that tells of the use, behind `lead`.
    pub open spec fn text(self, lead: Seq<char>) -> Seq<char> {
        lead + "CPU: "@ + fixed2(self.total_pct) + "% total ("@ + fixed2(self.user_pct)
            + "% user, "@ + fixed2(self.system_pct) + "% system)"@
    }

    /// Renders the line that tells of the use, behind `lead`. There is none
    /// where there was no use.
    pub fn line(&self, lead: &str) -> (r: Option<String>)
        requires
            self.wf(),
        ensures
            r is Some <==> self.total_pct.mant > 0,
            r matches Some(s) ==> s@ == self.text(lead@),
    {
        if self.total_pct.mant == 0 {
            return None;
        }
        let mut s = lead.to_owned();
        s.append("CPU: ");
        push_fixed2(&mut s, self.total_pct);
        s.append("% total (");
        push_fixed2(&mut s, self.user_pct);
        s.append("% user, ");
        push_fixed2(&mut s, self.system_pct);
        s.append("% system)");
        proof {
            assert(s@ =~= self.text(lead@));
        }
        Some(s)
    }
}

/// The position of the last `)`.
pub open spec fn is_last_paren(s: Seq<char>, i: int) -> bool {
    &&& 0 <= i < s.len()
    &&& s[i] == ')'
    &&& forall|j: int| i < j < s.len() ==> s[j] != ')'
}

/// The fields behind the process name, which stands in parentheses and may
/// hold parentheses itself.
pub open spec fn fields_from(s: Seq<char>, close: int) -> Seq<Seq<char>> {
    words(s.skip(close + 1))
}

/// The tick count in the field at `i`.
pub open spec fn ticks_in(fields: Seq<Seq<char>>, i: int) -> Option<int> {
    if i < fields.len() {
        match number(fields[i], 10, u64::MAX as int) {
            Ok(n) => Some(n),
            Err(_) => None,
        }
    } else {
        None
    }
}

/// Where user time stands among the fields behind the name.
pub const USER_FIELD: usize = 11;

/// Where system time stands among the fields behind the name.
pub const SYSTEM_FIELD: usize = 12;

fn read_ticks(fields: &Vec<Vec<char>>, i: usize) -> (r: Option<u64>)
    ensures
        match r {
            Some(n) => ticks_in(chars_views(fields@), i as int) == Some(n as int),
            None => ticks_in(chars_views(fields@), i as int) is None,
        },
{
    if i < fields.len() {
        proof {
            assert(chars_views(fields@)[i as int] == fields@[i as int]@);
        }
        match parse_number(&fields[i], 10, u64::MAX) {
            Ok(n) => Some(n),
            Err(_) => None,
        }
    } else {
        None
    }
}

/// Reads the line of `/proc/self/stat`.
pub fn parse_proc_stat(raw: &str) -> (r: Option<CpuSnapshot>)
    ensures
        !raw@.contains(')') ==> r is None,
        forall|close: int| #[trigger]
            is_last_paren(raw@, close) ==> {
                let fields = fields_from(raw@, close);
                match (ticks_in(fields, USER_FIELD as int), ticks_in(fields, SYSTEM_FIELD as int)) {
                    (Some(u), Some(s)) => r == Some(
                        CpuSnapshot { user_ticks: u as u64, system_ticks: s as u64 },
                    ) && 0 <= u <= u64::MAX && 0 <= s <= u64::MAX,
                    _ => r is None,
                }
            },
{
    let chars = to_chars(raw);
    let mut end: usize = chars.len();
    while end > 0 && chars[end - 1] != ')'
        invariant
            end <= chars@.len(),
            forall|j: int| end <= j < chars@.len() ==> chars@[j] != ')',
        decreases end,
    {
        end = end - 1;
    }
    if end == 0 {
        return None;
    }
    proof {
        assert(is_last_paren(raw@, end - 1));
        assert forall|close: int| #[trigger] is_last_paren(raw@, close) implies close == end - 1 by {
            assert(raw@[close] == ')');
            assert(raw@[end - 1] == ')');
        }
        assert(raw@.contains(')')) by {
            assert(raw@[end - 1] == ')');
        }
    }
    let rest = slice_chars(&chars, end, chars.len());
    proof {
        assert(rest@ =~= raw@.skip(end as int));
    }
    let fields = split_words(&rest);
    match read_ticks(&fields, USER_FIELD) {
        None => None,
        Some(user_ticks) => match read_ticks(&fields, SYSTEM_FIELD) {
            None => None,
            Some(system_ticks) => Some(CpuSnapshot { user_ticks, system_ticks }),
        },
    }
}

/// The snapshot to go by, given what the kernel's file held: without one, or
/// with one that cannot be read, no time at all.
pub fn sample(stat: Option<&str>) -> (s: CpuSnapshot)
    ensures
        stat is None ==> s == (CpuSnapshot { user_ticks: 0, system_ticks: 0 }),
        stat matches Some(raw) ==> snapshot_of(raw@, s),
{
    match stat {
        None => CpuSnapshot::default(),
        Some(raw) => match parse_proc_stat(raw) {
            Some(s) => s,
            None => CpuSnapshot::default(),
        },
    }
}

/// The snapshot that a line stands for.
pub open spec fn snapshot_of(raw: Seq<char>, s: CpuSnapshot) -> bool {
    let none = CpuSnapshot { user_ticks: 0, system_ticks: 0 };
    &&& !raw.contains(')') ==> s == none
    &&& forall|close: int| #[trigger]
        is_last_paren(raw, close) ==> {
            let fields = fields_from(raw, close);
            match (ticks_in(fields, USER_FIELD as int), ticks_in(fields, SYSTEM_FIELD as int)) {
                (Some(u), Some(v)) => s.user_ticks == u && s.system_ticks == v,
                _ => s == none,
            }
        }
}

/// The clock rate to go by, given what the system says: 100 where it says
/// nothing useful.
pub fn clock_ticks_per_sec(reported: i64) -> (ticks: u64)
    ensures
        ticks == (if reported > 0 {
            reported as int
        } else {
            100
        }),
{
    if reported > 0 {
        reported as u64
    } else {
        100
    }
}

/// The ticks between two counts; none where the count went back.
pub open spec fn ticks_passed(start: u64, end: u64) -> u64 {
    if end >= start {
        (end - start) as u64
    } else {
        0
    }
}

/// The ticks that passed from `start` to `end`, in user mode and in the
/// kernel; none where the count went back.
pub fn ticks_between(start: &CpuSnapshot, end: &CpuSnapshot) -> (d: CpuSnapshot)
    ensures
        d.user_ticks == ticks_passed(start.user_ticks, end.user_ticks),
        d.system_ticks == ticks_passed(start.system_ticks, end.system_ticks),
{
    CpuSnapshot {
        user_ticks: end.user_ticks.saturating_sub(start.user_ticks),
        system_ticks: end.system_ticks.saturating_sub(start.system_ticks),
    }
}

/// Seconds of processor time.
pub open spec fn tick_seconds(ticks: u64, ticks_per_sec: u64) -> Double {
    nearest(ticks as int, 1).quotient(nearest(ticks_per_sec as int, 1))
}

/// Seconds of processor time in percent of a stretch of time.
pub open spec fn percent(secs: Double, wall: Duration) -> Double {
    nearest(100, 1).product(secs).quotient(seconds(wall))
}

fn to_percent(secs: Double, wall_secs: Double) -> (d: Double)
    requires
        secs.within(-300, 15),
        wall_secs.within(-83, 14),
        wall_secs.mant > 0,
    ensures
        d == nearest(100, 1).product(secs).quotient(wall_secs),
        d.within(-1_000, 60),
{
    proof {
        lemma2_to64();
        assert(pow2_pos(6) <= 100 < pow2_pos(7));
    }
    Double::from_u64(100).times(secs).div(wall_secs)
}

/// Processor use from `start` to `end`, over `wall`; none over no time.
pub open spec fn usage_over(
    start: CpuSnapshot,
    end: CpuSnapshot,
    wall: Duration,
    ticks_per_sec: u64,
) -> CpuUsage {
    if wall.nanos == 0 {
        CpuUsage::nothing()
    } else {
        let user = tick_seconds(ticks_passed(start.user_ticks, end.user_ticks), ticks_per_sec);
        let system = tick_seconds(
            ticks_passed(start.system_ticks, end.system_ticks),
            ticks_per_sec,
        );
        CpuUsage {
            user_pct: percent(user, wall),
            system_pct: percent(system, wall),
            total_pct: percent(user.sum(system), wall),
        }
    }
}

/// Processor use between two snapshots over `wall`, where the clock ticks
/// `ticks_per_sec` times a second. A saturated core is 100; several cores
/// can be more.
pub fn usage(
    start: &CpuSnapshot,
    end: &CpuSnapshot,
    wall: Duration,
    ticks_per_sec: u64,
) -> (u: CpuUsage)
    requires
        wall.nanos <= MAX_NANOS,
        ticks_per_sec > 0,
    ensures
        u.wf(),
        u == usage_over(*start, *end, wall, ticks_per_sec),
{
    if wall.nanos == 0 {
        return CpuUsage::zero();
    }
    proof {
        lemma2_to64();
        assert(pow2_pos(0) <= ticks_per_sec);
    }
    let wall_secs = to_seconds(wall);
    let rate = Double::from_u64(ticks_per_sec);
    let passed = ticks_between(start, end);
    let user = Double::from_u64(passed.user_ticks).div(rate);
    let system = Double::from_u64(passed.system_ticks).div(rate);
    let both = user.plus(system);
    CpuUsage {
        user_pct: to_percent(user, wall_secs),
        system_pct: to_percent(system, wall_secs),
        total_pct: to_percent(both, wall_secs),
    }
}

} // verus!
