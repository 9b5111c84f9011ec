use crate::time::Dt;
use vstd::prelude::*;

verus! {

/// Seconds in one week.
pub const WEEK_IN_SECONDS: i64 = 7 * 86_400;

/// Seconds in an hour.
pub const HOUR_IN_SECONDS: i64 = 3600;

/// How long after a week's end its log may still change: the 72-hour
/// nullification window plus an hour of margin.
pub const NULLIFICATION_MARGIN_SECS: i64 = 73 * HOUR_IN_SECONDS;

/// The earliest week-aligned timestamp that an `i64` holds.
pub const MIN_WEEK_TS: i64 = -9_223_372_036_854_460_800;

/// The timestamp of the first weekly bundle of the directory.
pub const FIRST_WEEK_TS: i64 = 1_668_643_200;

/// A week, named by the unix timestamp at which it starts.
///
/// Weeks made from instants are aligned to multiples of a week's seconds.
#[derive(Debug, Clone, Copy, PartialEq, Eq, Structural, PartialOrd)]
pub struct Week(pub i64);

/// One end of a range of weeks.
#[derive(Debug, Clone, Copy, PartialEq, Eq, Structural)]
pub enum WeekBound {
    Included(Week),
    Excluded(Week),
    Unbounded,
}

/// The weeks `first`, `first + 1 week`, ... up to and including `last`.
pub open spec fn weeks_from(first: int, last: int) -> Seq<Week>
    decreases (if first <= last { last - first + 1 } else { 0 }),
{
    if first > last || first > i64::MAX {
        Seq::empty()
    } else {
        seq![Week(first as i64)] + weeks_from(first + WEEK_IN_SECONDS, last)
    }
}

/// The time before which a week must have ended to be immutable, at `now`.
pub open spec fn cutoff_at(now: Dt) -> int {
    now.secs - NULLIFICATION_MARGIN_SECS
}

/// Rust's integer division of `d` by a week: rounds toward zero.
pub open spec fn weeks_toward_zero(d: int) -> int {
    if d >= 0 {
        d / WEEK_IN_SECONDS as int
    } else {
        -((-d) / WEEK_IN_SECONDS as int)
    }
}

/// The first week of a range, as a timestamp.
pub open spec fn range_first(start: WeekBound) -> int {
    match start {
        WeekBound::Included(w) => w.0 as int,
        WeekBound::Excluded(w) => w.0 + WEEK_IN_SECONDS,
        WeekBound::Unbounded => 0,
    }
}

/// The latest timestamp that a week of a range may start at. An unbounded
/// end stops before the first week that is not yet immutable at `now`.
pub open spec fn range_last(end: WeekBound, now: Dt) -> int {
    match end {
        WeekBound::Included(w) => w.0 as int,
        WeekBound::Excluded(w) => w.0 - WEEK_IN_SECONDS,
        WeekBound::Unbounded => cutoff_at(now) - WEEK_IN_SECONDS,
    }
}

/// The weeks of a range, in order, at `now`.
pub open spec fn range_spec(start: WeekBound, end: WeekBound, now: Dt) -> Seq<Week> {
    weeks_from(range_first(start), range_last(end, now))
}

/// Floor of `t` to a multiple of a week, where an `i64` holds it.
pub open spec fn week_floor(secs: i64) -> int {
    if secs >= MIN_WEEK_TS {
        (secs as int / WEEK_IN_SECONDS as int) * WEEK_IN_SECONDS
    } else {
        MIN_WEEK_TS as int
    }
}

impl Week {
    pub fn from_n(n: i64) -> (r: Week)
        ensures
            r.0 == n,
    {
        Week(n)
    }

    /// The timestamp at which this week starts.
    pub fn timestamp(&self) -> (r: i64)
        ensures
            r == self.0,
    {
        self.0
    }

    pub fn next(&self) -> (r: Week)
        requires
            self.0 <= i64::MAX - WEEK_IN_SECONDS,
        ensures
            r.0 == self.0 + WEEK_IN_SECONDS,
    {
        Week(self.0 + WEEK_IN_SECONDS)
    }

    pub fn prev(&self) -> (r: Week)
        requires
            self.0 >= i64::MIN + WEEK_IN_SECONDS,
        ensures
            r.0 == self.0 - WEEK_IN_SECONDS,
    {
        Week(self.0 - WEEK_IN_SECONDS)
    }

    /// Whole weeks from `self` to `other`, rounded toward zero.
    pub fn n_until(&self, other: Week) -> (r: i64)
        ensures
            r == weeks_toward_zero(other.0 - self.0),
    {
        let d: i128 = other.0 as i128 - self.0 as i128;
        let w: i128 = WEEK_IN_SECONDS as i128;
        if d >= 0 {
            (d / w) as i64
        } else {
            (0 - ((0 - d) / w)) as i64
        }
    }

    /// Whole weeks from `self` to `now`, rounded toward zero.
    pub fn n_ago_at(&self, now: Dt) -> (r: i64)
        ensures
            r == weeks_toward_zero(now.secs - self.0),
    {
        self.n_until(Week(now.secs))
    }

    /// Whole weeks from `self` to the current time, rounded toward zero.
    pub fn n_ago(&self) -> (r: i64)
        ensures
            exists|now: Dt| r == weeks_toward_zero(now.secs - self.0),
    {
        let now = Dt::now();
        self.n_ago_at(now)
    }

    /// Whether this week ended more than the nullification margin before
    /// `now`, so that its log can no longer change.
    pub open spec fn immutable_at(self, now: Dt) -> bool {
        self.0 + WEEK_IN_SECONDS <= cutoff_at(now)
    }

    pub fn is_immutable_at(&self, now: Dt) -> (r: bool)
        ensures
            r == self.immutable_at(now),
    {
        (self.0 as i128) + (WEEK_IN_SECONDS as i128) <= (now.secs as i128) - (
        NULLIFICATION_MARGIN_SECS as i128)
    }

    /// Whether the log for this week lies outside the 72-hour nullification
    /// window (plus an hour for safety), by the current time.
    pub fn is_immutable(&self) -> (r: bool)
        ensures
            exists|now: Dt| r == self.immutable_at(now),
    {
        let now = Dt::now();
        self.is_immutable_at(now)
    }
}

/// The weeks a backfill fetches, at `now`: from the first bundle up to the
/// week before `until`'s week (when given) and only while immutable, most
/// recent first.
pub open spec fn backfill_spec(until: Option<Dt>, now: Dt) -> Seq<Week> {
    let immutable_last = cutoff_at(now) - WEEK_IN_SECONDS;
    let last = match until {
        Some(u) => if week_floor(u.secs) - WEEK_IN_SECONDS < immutable_last {
            week_floor(u.secs) - WEEK_IN_SECONDS
        } else {
            immutable_last
        },
        None => immutable_last,
    };
    weeks_from(FIRST_WEEK_TS as int, last).reverse()
}

/// The weeks from `first` up to `last`, in order.
fn weeks_between(first: i64, last: i128) -> (r: Vec<Week>)
    requires
        last <= i64::MAX,
    ensures
        r@ == weeks_from(first as int, last as int),
{
    let mut out: Vec<Week> = Vec::new();
    let mut current: i128 = first as i128;
    while current <= last
        invariant
            first <= current,
            last <= i64::MAX,
            out@ + weeks_from(current as int, last as int) == weeks_from(first as int, last as int),
        decreases last + WEEK_IN_SECONDS - current,
    {
        let ghost before = out@;
        out.push(Week(current as i64));
        proof {
            let rest = weeks_from(current + WEEK_IN_SECONDS, last as int);
            assert(weeks_from(current as int, last as int) == seq![Week(current as i64)] + rest);
            assert(out@ + rest =~= before + (seq![Week(current as i64)] + rest));
        }
        current = current + WEEK_IN_SECONDS as i128;
    }
    proof {
        assert(out@ =~= out@ + weeks_from(current as int, last as int));
    }
    out
}

impl Week {
    /// The weeks of a range, in order, with an unbounded end read at `now`.
    pub fn range_at(start: WeekBound, end: WeekBound, now: Dt) -> (r: Vec<Week>)
        requires
            !(start is Unbounded),
            start matches WeekBound::Excluded(w) ==> w.0 <= i64::MAX - WEEK_IN_SECONDS,
        ensures
            r@ == range_spec(start, end, now),
    {
        let first: i64 = match start {
            WeekBound::Included(w) => w.0,
            WeekBound::Excluded(w) => w.0 + WEEK_IN_SECONDS,
            WeekBound::Unbounded => 0,
        };
        let last: i128 = match end {
            WeekBound::Included(w) => w.0 as i128,
            WeekBound::Excluded(w) => w.0 as i128 - WEEK_IN_SECONDS as i128,
            WeekBound::Unbounded => now.secs as i128 - NULLIFICATION_MARGIN_SECS as i128
                - WEEK_IN_SECONDS as i128,
        };
        weeks_between(first, last)
    }

    /// The weeks of a range, in order. An unbounded end stops before the
    /// first week that is not yet immutable by the current time.
    pub fn range(start: WeekBound, end: WeekBound) -> (r: Vec<Week>)
        requires
            !(start is Unbounded),
            start matches WeekBound::Excluded(w) ==> w.0 <= i64::MAX - WEEK_IN_SECONDS,
        ensures
            exists|now: Dt| r@ == range_spec(start, end, now),
            !(end is Unbounded) ==> forall|now: Dt| r@ == range_spec(start, end, now),
    {
        let now = Dt::now();
        Week::range_at(start, end, now)
    }

    /// The weeks a backfill fetches at `now`, most recent first: from the
    /// first bundle, before `until`'s week when given, and only immutable
    /// ones.
    pub fn backfill_weeks_at(until: Option<Dt>, now: Dt) -> (r: Vec<Week>)
        ensures
            r@ == backfill_spec(until, now),
    {
        let immutable_last: i128 = now.secs as i128 - NULLIFICATION_MARGIN_SECS as i128
            - WEEK_IN_SECONDS as i128;
        let last: i128 = match until {
            Some(u) => {
                let uw = Week::from(u);
                let l = uw.0 as i128 - WEEK_IN_SECONDS as i128;
                if l < immutable_last {
                    l
                } else {
                    immutable_last
                }
            },
            None => immutable_last,
        };
        let mut asc = weeks_between(FIRST_WEEK_TS, last);
        let ghost full = asc@;
        let mut out: Vec<Week> = Vec::new();
        while asc.len() > 0
            invariant
                asc@ == full.subrange(0, asc@.len() as int),
                out@.len() == full.len() - asc@.len(),
                forall|i: int| 0 <= i < out@.len() ==> out@[i] == full[full.len() - 1 - i],
            decreases asc@.len(),
        {
            let w = asc.pop().unwrap();
            out.push(w);
            proof {
                assert(asc@ =~= full.subrange(0, asc@.len() as int));
            }
        }
        proof {
            assert(out@ =~= full.reverse());
        }
        out
    }

    /// The weeks a backfill fetches by the current time, most recent first.
    pub fn backfill_weeks(until: Option<Dt>) -> (r: Vec<Week>)
        ensures
            exists|now: Dt| r@ == backfill_spec(until, now),
    {
        let now = Dt::now();
        Week::backfill_weeks_at(until, now)
    }
}

impl From<Dt> for Week {
    /// The week containing `dt`: its timestamp floored to a whole week
    /// (the earliest representable week for instants before it).
    fn from(dt: Dt) -> (r: Week)
        ensures
            r.0 == week_floor(dt.secs),
    {
        if dt.secs < MIN_WEEK_TS {
            return Week(MIN_WEEK_TS);
        }
        match dt.secs.checked_div_euclid(WEEK_IN_SECONDS) {
            Some(q) => Week(q * WEEK_IN_SECONDS),
            None => Week(MIN_WEEK_TS),
        }
    }
}

impl vstd::std_specs::convert::FromSpecImpl<Dt> for Week {
    open spec fn obeys_from_spec() -> bool {
        true
    }

    open spec fn from_spec(dt: Dt) -> Week {
        Week(week_floor(dt.secs) as i64)
    }
}

impl From<Week> for Dt {
    /// The instant at which the week starts.
    fn from(week: Week) -> (r: Dt)
        ensures
            r == (Dt { secs: week.0, nanos: 0 }),
    {
        Dt { secs: week.0, nanos: 0 }
    }
}

impl vstd::std_specs::convert::FromSpecImpl<Week> for Dt {
    open spec fn obeys_from_spec() -> bool {
        true
    }

    open spec fn from_spec(week: Week) -> Dt {
        Dt { secs: week.0, nanos: 0 }
    }
}

/// Week round trip: the week of an instant starts no later than the
/// instant and less than a week before it, on a multiple of a week; the
/// instant of that week is the instant's seconds rounded down to the week.
pub proof fn lemma_week_round_trip(t: Dt)
    requires
        t.secs >= MIN_WEEK_TS,
    ensures
        ({
            let f = week_floor(t.secs);
            &&& f <= t.secs
            &&& t.secs - f < WEEK_IN_SECONDS
            &&& f % (WEEK_IN_SECONDS as int) == 0
            &&& f == t.secs - (t.secs as int) % (WEEK_IN_SECONDS as int)
            &&& Dt { secs: f as i64, nanos: 0 }.no_later(t)
        }),
{
}

/// Immutability cutoff: an immutable week ended, plus the nullification
/// margin, no later than `now`.
pub proof fn lemma_immutable_cutoff(w: Week, now: Dt)
    requires
        w.immutable_at(now),
    ensures
        w.0 + WEEK_IN_SECONDS + NULLIFICATION_MARGIN_SECS <= now.secs,
{
}

} // verus!
