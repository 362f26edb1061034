//! What a stream's receipt adds up: bytes, the bytes of the omit window at
//! its start, and the points in time that bound both.

use vstd::prelude::*;

use super::time::{Duration, Instant};

verus! {

/// Bytes that moved at one point in time.
pub struct Delivery {
    pub bytes: nat,
    pub at: Instant,
}

/// The account of a stream.
pub struct Account {
    /// All bytes.
    pub bytes: nat,
    /// The bytes that moved within the omit window.
    pub omitted: nat,
    /// When the first bytes moved.
    pub first: Option<Instant>,
    /// When the first bytes after the omit window moved.
    pub first_measured: Option<Instant>,
    /// When the last bytes moved.
    pub last: Option<Instant>,
}

/// Whether `at` lies in the window of length `omit` that opens at `first`.
pub open spec fn in_window(first: Instant, at: Instant, omit: Duration) -> bool {
    at.nanos_since(first) < omit.nanos
}

impl Account {
    /// The account of a stream on which nothing has moved.
    pub open spec fn empty() -> Account {
        Account { bytes: 0, omitted: 0, first: None, first_measured: None, last: None }
    }

    /// The account once `d` has moved too.
    pub open spec fn after(self, d: Delivery, omit: Duration) -> Account {
        let first = match self.first {
            Some(f) => f,
            None => d.at,
        };
        let within = in_window(first, d.at, omit);
        Account {
            bytes: self.bytes + d.bytes,
            omitted: if within {
                self.omitted + d.bytes
            } else {
                self.omitted
            },
            first: Some(first),
            first_measured: if !within && self.first_measured is None {
                Some(d.at)
            } else {
                self.first_measured
            },
            last: Some(d.at),
        }
    }
}

impl Account {
    /// The account once all of `moved` has moved too, in this order.
    pub open spec fn after_all(self, moved: Seq<Delivery>, omit: Duration) -> Account
        decreases moved.len(),
    {
        if moved.len() == 0 {
            self
        } else {
            self.after_all(moved.drop_last(), omit).after(moved.last(), omit)
        }
    }

    /// What moves after the rest comes last.
    pub proof fn after_all_and_one(self, moved: Seq<Delivery>, d: Delivery, omit: Duration)
        ensures
            self.after_all(moved.push(d), omit) == self.after_all(moved, omit).after(d, omit),
    {
        assert(moved.push(d).drop_last() =~= moved);
    }
}

/// From an empty account, all that moved makes up the account of a stream.
pub proof fn account_from_the_start(moved: Seq<Delivery>, omit: Duration)
    ensures
        Account::empty().after_all(moved, omit) == account_of(moved, omit),
    decreases moved.len(),
{
    if moved.len() > 0 {
        account_from_the_start(moved.drop_last(), omit);
    }
}

/// The account of a stream on which `moved` has moved, in this order.
pub open spec fn account_of(moved: Seq<Delivery>, omit: Duration) -> Account
    decreases moved.len(),
{
    if moved.len() == 0 {
        Account::empty()
    } else {
        account_of(moved.drop_last(), omit).after(moved.last(), omit)
    }
}

/// All bytes of a run of deliveries.
pub open spec fn total_bytes(moved: Seq<Delivery>) -> nat
    decreases moved.len(),
{
    if moved.len() == 0 {
        0
    } else {
        total_bytes(moved.drop_last()) + moved.last().bytes
    }
}

/// The bytes of those deliveries that lie in the window that opens at `first`.
pub open spec fn bytes_in_window(moved: Seq<Delivery>, first: Instant, omit: Duration) -> nat
    decreases moved.len(),
{
    if moved.len() == 0 {
        0
    } else {
        bytes_in_window(moved.drop_last(), first, omit) + (if in_window(
            first,
            moved.last().at,
            omit,
        ) {
            moved.last().bytes
        } else {
            0
        })
    }
}

/// What an account says of the deliveries behind it: it counts every byte
/// once, it omits exactly the bytes within the window after the first
/// delivery, and it marks the first delivery, the last one, and the first
/// one outside the window.
pub proof fn account_counts_every_byte(moved: Seq<Delivery>, omit: Duration)
    ensures
        account_of(moved, omit).bytes == total_bytes(moved),
        account_of(moved, omit).omitted <= account_of(moved, omit).bytes,
        moved.len() == 0 ==> account_of(moved, omit) == Account::empty(),
        moved.len() > 0 ==> {
            let a = account_of(moved, omit);
            &&& a.first == Some(moved[0].at)
            &&& a.last == Some(moved.last().at)
            &&& a.omitted == bytes_in_window(moved, moved[0].at, omit)
            &&& match a.first_measured {
                None => forall|i: int|
                    0 <= i < moved.len() ==> in_window(
                        moved[0].at,
                        (#[trigger] moved[i]).at,
                        omit,
                    ),
                Some(t) => exists|k: int|
                    {
                        &&& 0 <= k < moved.len()
                        &&& (#[trigger] moved[k]).at == t
                        &&& !in_window(moved[0].at, moved[k].at, omit)
                        &&& forall|i: int|
                            0 <= i < k ==> in_window(moved[0].at, (#[trigger] moved[i]).at, omit)
                    },
            }
        },
    decreases moved.len(),
{
    if moved.len() > 0 {
        let head = moved.drop_last();
        account_counts_every_byte(head, omit);
        let first = moved[0].at;
        if head.len() == 0 {
            assert(moved.last() == moved[0]);
            assert(bytes_in_window(head, first, omit) == 0);
            if !in_window(first, first, omit) {
                assert(moved[0].at == first);
            } else {
                assert forall|i: int| 0 <= i < moved.len() implies in_window(
                    first,
                    (#[trigger] moved[i]).at,
                    omit,
                ) by {
                    assert(i == 0);
                }
            }
        } else {
            assert(head[0] == moved[0]);
            let a = account_of(head, omit);
            let b = account_of(moved, omit);
            match a.first_measured {
                Some(t) => {
                    let k = choose|k: int|
                        {
                            &&& 0 <= k < head.len()
                            &&& (#[trigger] head[k]).at == t
                            &&& !in_window(head[0].at, head[k].at, omit)
                            &&& forall|i: int|
                                0 <= i < k ==> in_window(head[0].at, (#[trigger] head[i]).at, omit)
                        };
                    assert(moved[k] == head[k]);
                    assert forall|i: int| 0 <= i < k implies in_window(
                        moved[0].at,
                        (#[trigger] moved[i]).at,
                        omit,
                    ) by {
                        assert(moved[i] == head[i]);
                    }
                },
                None => {
                    assert forall|i: int| 0 <= i < head.len() implies in_window(
                        moved[0].at,
                        (#[trigger] moved[i]).at,
                        omit,
                    ) by {
                        assert(moved[i] == head[i]);
                    }
                    if !in_window(first, moved.last().at, omit) {
                        let k = moved.len() - 1;
                        assert(moved[k].at == moved.last().at);
                    }
                },
            }
        }
    }
}

/// The span from `first` to `last`, empty where either is missing or they
/// stand the wrong way round.
pub open spec fn span_nanos(first: Option<Instant>, last: Option<Instant>) -> int {
    match (first, last) {
        (Some(f), Some(l)) => l.nanos_since(f),
        _ => 0,
    }
}

pub fn span(first: Option<Instant>, last: Option<Instant>) -> (d: Duration)
    ensures
        d.nanos == span_nanos(first, last),
{
    match first {
        Some(f) => match last {
            Some(l) => l.duration_since(f),
            None => Duration::zero(),
        },
        None => Duration::zero(),
    }
}

/// The earliest of some points in time, if there are any.
pub open spec fn is_earliest(points: Seq<Option<Instant>>, r: Option<Instant>) -> bool {
    match r {
        None => forall|i: int| 0 <= i < points.len() ==> #[trigger] points[i] is None,
        Some(t) => {
            &&& points.contains(Some(t))
            &&& forall|i: int|
                0 <= i < points.len() ==> (#[trigger] points[i] matches Some(u) ==> t.nanos
                    <= u.nanos)
        },
    }
}

/// The latest of some points in time, if there are any.
pub open spec fn is_latest(points: Seq<Option<Instant>>, r: Option<Instant>) -> bool {
    match r {
        None => forall|i: int| 0 <= i < points.len() ==> #[trigger] points[i] is None,
        Some(t) => {
            &&& points.contains(Some(t))
            &&& forall|i: int|
                0 <= i < points.len() ==> (#[trigger] points[i] matches Some(u) ==> u.nanos
                    <= t.nanos)
        },
    }
}

/// Keeps the earlier of two points in time.
pub fn earlier(a: Option<Instant>, b: Option<Instant>) -> (r: Option<Instant>)
    ensures
        r == (match (a, b) {
            (Some(x), Some(y)) => if y.nanos < x.nanos {
                Some(y)
            } else {
                Some(x)
            },
            (Some(x), None) => Some(x),
            (None, y) => y,
        }),
{
    match a {
        None => b,
        Some(x) => match b {
            None => Some(x),
            Some(y) => if y.nanos < x.nanos {
                Some(y)
            } else {
                Some(x)
            },
        },
    }
}

/// Keeps the later of two points in time.
pub fn later(a: Option<Instant>, b: Option<Instant>) -> (r: Option<Instant>)
    ensures
        r == (match (a, b) {
            (Some(x), Some(y)) => if y.nanos > x.nanos {
                Some(y)
            } else {
                Some(x)
            },
            (Some(x), None) => Some(x),
            (None, y) => y,
        }),
{
    match a {
        None => b,
        Some(x) => match b {
            None => Some(x),
            Some(y) => if y.nanos > x.nanos {
                Some(y)
            } else {
                Some(x)
            },
        },
    }
}

/// One more point in time: the earliest so far, compared with it.
pub proof fn earliest_grows(points: Seq<Option<Instant>>, so_far: Option<Instant>, next: Option<Instant>)
    requires
        is_earliest(points, so_far),
    ensures
        is_earliest(
            points.push(next),
            (match (so_far, next) {
                (Some(x), Some(y)) => if y.nanos < x.nanos {
                    Some(y)
                } else {
                    Some(x)
                },
                (Some(x), None) => Some(x),
                (None, y) => y,
            }),
        ),
{
    let all = points.push(next);
    assert(all[points.len() as int] == next);
    match so_far {
        Some(x) => {
            let i = choose|i: int| 0 <= i < points.len() && points[i] == Some(x);
            assert(all[i] == Some(x));
        },
        None => {},
    }
    assert forall|i: int| 0 <= i < points.len() implies all[i] == #[trigger] points[i] by {}
    assert forall|i: int| 0 <= i < all.len() implies (i < points.len() && #[trigger] all[i]
        == points[i] || all[i] == next) by {}
}

/// One more point in time: the latest so far, compared with it.
pub proof fn latest_grows(points: Seq<Option<Instant>>, so_far: Option<Instant>, next: Option<Instant>)
    requires
        is_latest(points, so_far),
    ensures
        is_latest(
            points.push(next),
            (match (so_far, next) {
                (Some(x), Some(y)) => if y.nanos > x.nanos {
                    Some(y)
                } else {
                    Some(x)
                },
                (Some(x), None) => Some(x),
                (None, y) => y,
            }),
        ),
{
    let all = points.push(next);
    assert(all[points.len() as int] == next);
    match so_far {
        Some(x) => {
            let i = choose|i: int| 0 <= i < points.len() && points[i] == Some(x);
            assert(all[i] == Some(x));
        },
        None => {},
    }
    assert forall|i: int| 0 <= i < points.len() implies all[i] == #[trigger] points[i] by {}
    assert forall|i: int| 0 <= i < all.len() implies (i < points.len() && #[trigger] all[i]
        == points[i] || all[i] == next) by {}
}

/// The earliest of some points in time.
pub fn earliest_of(points: &Vec<Option<Instant>>) -> (r: Option<Instant>)
    ensures
        is_earliest(points@, r),
{
    let mut r: Option<Instant> = None;
    let mut i: usize = 0;
    while i < points.len()
        invariant
            i <= points.len(),
            is_earliest(points@.take(i as int), r),
        decreases points.len() - i,
    {
        proof {
            earliest_grows(points@.take(i as int), r, points@[i as int]);
            assert(points@.take(i as int + 1) =~= points@.take(i as int).push(points@[i as int]));
        }
        r = earlier(r, points[i]);
        i = i + 1;
    }
    proof {
        assert(points@.take(i as int) =~= points@);
    }
    r
}

/// The latest of some points in time.
pub fn latest_of(points: &Vec<Option<Instant>>) -> (r: Option<Instant>)
    ensures
        is_latest(points@, r),
{
    let mut r: Option<Instant> = None;
    let mut i: usize = 0;
    while i < points.len()
        invariant
            i <= points.len(),
            is_latest(points@.take(i as int), r),
        decreases points.len() - i,
    {
        proof {
            latest_grows(points@.take(i as int), r, points@[i as int]);
            assert(points@.take(i as int + 1) =~= points@.take(i as int).push(points@[i as int]));
        }
        r = later(r, points[i]);
        i = i + 1;
    }
    proof {
        assert(points@.take(i as int) =~= points@);
    }
    r
}

/// Says that `nanos` is the span from the earliest of `firsts` to the latest
/// of `lasts`, and zero where either is missing or they stand the wrong way
/// round.
pub open spec fn spans(firsts: Seq<Option<Instant>>, lasts: Seq<Option<Instant>>, nanos: int) -> bool {
    exists|f: Option<Instant>, l: Option<Instant>|
        #![trigger is_earliest(firsts, f), is_latest(lasts, l)]
        is_earliest(firsts, f) && is_latest(lasts, l) && nanos == span_nanos(f, l)
}

/// There is only one such span.
pub proof fn span_is_unique(firsts: Seq<Option<Instant>>, lasts: Seq<Option<Instant>>, a: int, b: int)
    requires
        spans(firsts, lasts, a),
        spans(firsts, lasts, b),
    ensures
        a == b,
{
    let (f, l) = choose|f: Option<Instant>, l: Option<Instant>|
        #![trigger is_earliest(firsts, f), is_latest(lasts, l)]
        is_earliest(firsts, f) && is_latest(lasts, l) && a == span_nanos(f, l);
    let (g, m) = choose|f: Option<Instant>, l: Option<Instant>|
        #![trigger is_earliest(firsts, f), is_latest(lasts, l)]
        is_earliest(firsts, f) && is_latest(lasts, l) && b == span_nanos(f, l);
    earliest_is_unique(firsts, f, g);
    latest_is_unique(lasts, l, m);
}

pub proof fn earliest_is_unique(points: Seq<Option<Instant>>, a: Option<Instant>, b: Option<Instant>)
    requires
        is_earliest(points, a),
        is_earliest(points, b),
    ensures
        a == b,
{
    if a is Some {
        let i = choose|i: int| 0 <= i < points.len() && points[i] == a;
        assert(points[i] is Some);
    }
    if b is Some {
        let i = choose|i: int| 0 <= i < points.len() && points[i] == b;
        assert(points[i] is Some);
    }
}

pub proof fn latest_is_unique(points: Seq<Option<Instant>>, a: Option<Instant>, b: Option<Instant>)
    requires
        is_latest(points, a),
        is_latest(points, b),
    ensures
        a == b,
{
    if a is Some {
        let i = choose|i: int| 0 <= i < points.len() && points[i] == a;
        assert(points[i] is Some);
    }
    if b is Some {
        let i = choose|i: int| 0 <= i < points.len() && points[i] == b;
        assert(points[i] is Some);
    }
}

/// The span over several streams covers the span of each.
pub proof fn span_covers_each(
    firsts: Seq<Option<Instant>>,
    lasts: Seq<Option<Instant>>,
    nanos: int,
    i: int,
)
    requires
        spans(firsts, lasts, nanos),
        0 <= i < firsts.len(),
        i < lasts.len(),
    ensures
        span_nanos(firsts[i], lasts[i]) <= nanos,
{
    let (f, l) = choose|f: Option<Instant>, l: Option<Instant>|
        #![trigger is_earliest(firsts, f), is_latest(lasts, l)]
        is_earliest(firsts, f) && is_latest(lasts, l) && nanos == span_nanos(f, l);
    assert(firsts[i] is None || firsts[i] is Some);
    assert(lasts[i] is None || lasts[i] is Some);
}

/// The span from the earliest of `firsts` to the latest of `lasts`.
pub fn overall_span(firsts: &Vec<Option<Instant>>, lasts: &Vec<Option<Instant>>) -> (d: Duration)
    ensures
        spans(firsts@, lasts@, d.nanos as int),
{
    let f = earliest_of(firsts);
    let l = latest_of(lasts);
    span(f, l)
}

} // verus!
