use chrono::Timelike;
use vstd::prelude::*;

use crate::config::{Config, TimeWalpapperConfig};

verus! {

/// Milliseconds in one day.
pub const DAY_MS: u32 = 86_400_000;

/// A wall-clock time of day, in milliseconds since midnight.
#[derive(Debug, Clone, Copy, PartialEq, Eq, Structural)]
pub struct TimeOfDay {
    pub millis: u32,
}

impl TimeOfDay {
    /// A time of day lies in `[00:00:00, 24:00:00)`.
    pub open spec fn wf(&self) -> bool {
        self.millis < DAY_MS
    }

    /// The time `millis` milliseconds after midnight, if that is within one day.
    pub fn from_millis(millis: u32) -> (r: Option<TimeOfDay>)
        ensures
            r is Some <==> millis < DAY_MS,
            r matches Some(t) ==> t.millis == millis,
    {
        if millis < DAY_MS {
            Some(TimeOfDay { millis })
        } else {
            None
        }
    }

    /// The time `hour:minute:second`, if each part is within its range.
    pub fn from_hms(hour: u32, minute: u32, second: u32) -> (r: Option<TimeOfDay>)
        ensures
            r is Some <==> hour < 24 && minute < 60 && second < 60,
            r matches Some(t) ==> t.millis == ((hour * 60 + minute) * 60 + second) * 1000,
    {
        if hour < 24 && minute < 60 && second < 60 {
            Some(TimeOfDay { millis: ((hour * 60 + minute) * 60 + second) * 1000 })
        } else {
            None
        }
    }
}

/// chrono's parse error, carried as an opaque value.
#[verifier::external_type_specification]
#[verifier::external_body]
pub struct ExParseError(chrono::ParseError);

/// Hour and minute of the time that chrono reads from `s` under the strftime format `fmt`,
/// or `None` where chrono rejects the text.
pub uninterp spec fn parsed_hour_minute(s: Seq<char>, fmt: Seq<char>) -> Option<(u32, u32)>;

/// Relies on chrono's `NaiveTime::parse_from_str`, which reads a time of day from `s` under
/// the strftime format `fmt`, and on `Timelike::hour` and `Timelike::minute`, whose results
/// lie in `0..24` and `0..60`.
#[verifier::external_body]
fn parse_hour_minute(s: &str, fmt: &str) -> (r: Result<(u32, u32), chrono::ParseError>)
    ensures
        match r {
            Ok(hm) => parsed_hour_minute(s@, fmt@) == Some(hm) && hm.0 < 24 && hm.1 < 60,
            Err(_) => parsed_hour_minute(s@, fmt@) is None,
        },
{
    chrono::NaiveTime::parse_from_str(s, fmt).map(|t| (t.hour(), t.minute()))
}

/// The strict 24-hour format of schedule times.
pub open spec fn time_format() -> Seq<char> {
    "%H:%M"@
}

/// The time of day that a schedule time string denotes, in milliseconds, if it is valid.
pub open spec fn parsed_time(s: Seq<char>) -> Option<int> {
    match parsed_hour_minute(s, time_format()) {
        Some((h, m)) => Some((h * 60 + m) * 60_000),
        None => None,
    }
}

/// A schedule time string that is not a valid `HH:MM` time.
#[derive(Debug, Clone, Copy, PartialEq, Eq, Structural)]
pub struct InvalidTime;

/// Why a schedule could not be built from its source.
#[derive(Debug, Clone, Copy, PartialEq, Eq, Structural)]
pub enum ScheduleError {
    /// The source holds no entry.
    Empty,
    /// The entry at `index` has a time string that is not a valid `HH:MM` time.
    InvalidTime { index: usize },
    /// The entry at `index` has the same time as an earlier entry.
    DuplicateTime { index: usize },
}

/// A schedule entry: from `time` on, `wallpapper` is the one to show.
#[derive(Debug)]
pub struct TimeWallpapper {
    pub time: TimeOfDay,
    pub wallpapper: String,
}

impl TimeWallpapper {
    /// An entry from a `HH:MM` time string and a wallpaper.
    pub fn new(time: &str, wallpapper: &str) -> (r: Result<TimeWallpapper, InvalidTime>)
        ensures
            r is Ok <==> parsed_time(time@) is Some,
            r matches Ok(e) ==> {
                &&& e.time.wf()
                &&& parsed_time(time@) == Some(e.time.millis as int)
                &&& e.wallpapper@ == wallpapper@
            },
    {
        let time = Self::parsing_date(time)?;
        Ok(TimeWallpapper { time, wallpapper: wallpapper.to_owned() })
    }

    /// The time of day of a `HH:MM` string.
    fn parsing_date(date: &str) -> (r: Result<TimeOfDay, InvalidTime>)
        ensures
            r is Ok <==> parsed_time(date@) is Some,
            r matches Ok(t) ==> t.wf() && parsed_time(date@) == Some(t.millis as int),
    {
        match parse_hour_minute(date, "%H:%M") {
            Ok((h, m)) => match TimeOfDay::from_hms(h, m, 0) {
                Some(t) => Ok(t),
                None => Err(InvalidTime),
            },
            Err(_) => Err(InvalidTime),
        }
    }
}

/// The millisecond times of a sequence of entries.
pub open spec fn times(tw: Seq<TimeWallpapper>) -> Seq<int> {
    tw.map_values(|e: TimeWallpapper| e.time.millis as int)
}

/// Strictly ascending: sorted, with no two equal times.
pub open spec fn strictly_sorted(ts: Seq<int>) -> bool {
    forall|a: int, b: int| 0 <= a < b < ts.len() ==> ts[a] < ts[b]
}

/// Entry `i` is active at `now`: it has the greatest time not after `now`, or, when every
/// entry is later than `now`, the greatest time overall (the last one of the day before).
pub open spec fn is_active_index(ts: Seq<int>, now: int, i: int) -> bool {
    &&& 0 <= i < ts.len()
    &&& if exists|j: int| 0 <= j < ts.len() && ts[j] <= now {
        &&& ts[i] <= now
        &&& forall|j: int| 0 <= j < ts.len() && ts[j] <= now ==> ts[j] <= ts[i]
    } else {
        forall|j: int| 0 <= j < ts.len() ==> ts[j] <= ts[i]
    }
}

/// Entry `k` comes next after `now`: it has the smallest time after `now`, or, when no entry
/// is after `now`, the smallest time overall (the first one of the next day).
pub open spec fn is_next_index(ts: Seq<int>, now: int, k: int) -> bool {
    &&& 0 <= k < ts.len()
    &&& if exists|j: int| 0 <= j < ts.len() && ts[j] > now {
        &&& ts[k] > now
        &&& forall|j: int| 0 <= j < ts.len() && ts[j] > now ==> ts[k] <= ts[j]
    } else {
        forall|j: int| 0 <= j < ts.len() ==> ts[k] <= ts[j]
    }
}

/// Milliseconds from `now` until the time of day `next` comes round again.
pub open spec fn wait_ms(next: int, now: int) -> int {
    if next > now {
        next - now
    } else {
        DAY_MS - (now - next)
    }
}

/// The schedule: a periodic rotation, or entries keyed by time of day.
#[derive(Debug)]
pub enum ChangeWallpapper {
    EveryMin { every: u16, wallpappers: Vec<String> },
    AtTime { tw: Vec<TimeWallpapper> },
}

impl ChangeWallpapper {
    /// Entries in strictly ascending order of time, each a valid time of day.
    pub open spec fn wf(&self) -> bool {
        match self {
            ChangeWallpapper::EveryMin { .. } => true,
            ChangeWallpapper::AtTime { tw } => {
                &&& strictly_sorted(times(tw@))
                &&& forall|i: int| 0 <= i < tw@.len() ==> (#[trigger] tw@[i]).time.wf()
            },
        }
    }

    /// What a lookup at `now` gives: the active entry's index and the wait until the next one.
    pub open spec fn lookup_result(&self, now: TimeOfDay, r: Option<(usize, u32)>) -> bool {
        match self {
            ChangeWallpapper::EveryMin { .. } => r is None,
            ChangeWallpapper::AtTime { tw } => if tw@.len() == 0 {
                r is None
            } else {
                exists|k: int|
                    {
                        &&& r matches Some((i, w))
                        &&& is_active_index(times(tw@), now.millis as int, i as int)
                        &&& #[trigger] is_next_index(times(tw@), now.millis as int, k)
                        &&& w == wait_ms(times(tw@)[k], now.millis as int)
                    }
            },
        }
    }

    /// Index of the active entry at `now` and milliseconds until the next entry starts.
    pub fn active_at(&self, now: TimeOfDay) -> (r: Option<(usize, u32)>)
        requires
            self.wf(),
            now.wf(),
        ensures
            self.lookup_result(now, r),
    {
        match self {
            ChangeWallpapper::EveryMin { .. } => None,
            ChangeWallpapper::AtTime { tw } => {
                let n = tw.len();
                if n == 0 {
                    return None;
                }
                let ghost ts = times(tw@);
                let mut active: Option<usize> = None;
                let mut i: usize = 0;
                while i < n
                    invariant
                        n == tw@.len(),
                        ts == times(tw@),
                        strictly_sorted(ts),
                        i <= n,
                        active is None ==> forall|j: int| 0 <= j < i ==> ts[j] > now.millis,
                        active matches Some(a) ==> {
                            &&& a < i
                            &&& ts[a as int] <= now.millis
                            &&& forall|j: int| 0 <= j < i && ts[j] <= now.millis ==> ts[j] <= ts[a as int]
                        },
                    decreases n - i,
                {
                    if tw[i].time.millis <= now.millis {
                        active = Some(i);
                    }
                    i = i + 1;
                }
                let mut next: Option<usize> = None;
                let mut k: usize = 0;
                while k < n && next.is_none()
                    invariant
                        n == tw@.len(),
                        ts == times(tw@),
                        strictly_sorted(ts),
                        k <= n,
                        next is None ==> forall|j: int| 0 <= j < k ==> ts[j] <= now.millis,
                        next matches Some(x) ==> {
                            &&& x < n
                            &&& ts[x as int] > now.millis
                            &&& forall|j: int| 0 <= j < x ==> ts[j] <= now.millis
                        },
                    decreases n - k,
                {
                    if tw[k].time.millis > now.millis {
                        next = Some(k);
                    }
                    k = k + 1;
                }
                let a: usize = match active {
                    Some(a) => a,
                    None => n - 1,
                };
                let x: usize = match next {
                    Some(x) => x,
                    None => 0,
                };
                let next_t = tw[x].time.millis;
                assert(tw@[x as int].time.wf());
                let wait: u32 = if next_t > now.millis {
                    next_t - now.millis
                } else {
                    DAY_MS - (now.millis - next_t)
                };
                proof {
                    assert(is_active_index(ts, now.millis as int, a as int));
                    assert(is_next_index(ts, now.millis as int, x as int));
                }
                Some((a, wait))
            },
        }
    }

    /// The entry active at `from_time` and milliseconds until the next entry starts.
    pub fn wallpapper(&self, from_time: TimeOfDay) -> (r: Option<(&TimeWallpapper, u32)>)
        requires
            self.wf(),
            from_time.wf(),
        ensures
            match self {
                ChangeWallpapper::EveryMin { .. } => r is None,
                ChangeWallpapper::AtTime { tw } => if tw@.len() == 0 {
                    r is None
                } else {
                    exists|i: int, k: int|
                        {
                            &&& #[trigger] is_active_index(times(tw@), from_time.millis as int, i)
                            &&& #[trigger] is_next_index(times(tw@), from_time.millis as int, k)
                            &&& r matches Some((e, w))
                            &&& *e == tw@[i]
                            &&& w == wait_ms(times(tw@)[k], from_time.millis as int)
                        }
                },
            },
    {
        match self.active_at(from_time) {
            None => None,
            Some((i, w)) => match self {
                ChangeWallpapper::EveryMin { .. } => None,
                ChangeWallpapper::AtTime { tw } => Some((&tw[i], w)),
            },
        }
    }
}

/// The time of the `i`-th entry of a schedule source, if its time string is valid.
pub open spec fn entry_time(plan: Seq<TimeWalpapperConfig>, i: int) -> Option<int> {
    parsed_time(plan[i].time_view())
}

/// Entry `i` of a schedule source cannot join a schedule: its time string is invalid, or its
/// time is that of an earlier entry.
pub open spec fn is_bad_entry(plan: Seq<TimeWalpapperConfig>, i: int) -> bool {
    ||| entry_time(plan, i) is None
    ||| exists|j: int| 0 <= j < i && entry_time(plan, j) == entry_time(plan, i)
}

/// Entry `i` is the first entry of the source that cannot join a schedule.
pub open spec fn is_first_bad_entry(plan: Seq<TimeWalpapperConfig>, i: int) -> bool {
    &&& 0 <= i < plan.len()
    &&& is_bad_entry(plan, i)
    &&& forall|j: int| 0 <= j < i ==> !is_bad_entry(plan, j)
}

/// Some entry of `tw` carries the time and the wallpaper of the source entry `c`.
pub open spec fn holds_entry(tw: Seq<TimeWallpapper>, c: TimeWalpapperConfig) -> bool {
    exists|k: int|
        0 <= k < tw.len() && parsed_time(c.time_view()) == Some(#[trigger] tw[k].time.millis as int)
            && tw[k].wallpapper@ == c.wallpapper_view()
}

/// `tw` is the schedule of the first `n` entries of the source `plan`, none of them bad:
/// entry `m` of `tw` comes from source entry `src[m]`, and source entry `j` went to entry
/// `pos[j]` of `tw`.
#[verifier::opaque]
pub open spec fn built_from(
    plan: Seq<TimeWalpapperConfig>,
    n: int,
    tw: Seq<TimeWallpapper>,
    src: Seq<int>,
    pos: Seq<int>,
) -> bool {
    &&& tw.len() == n
    &&& src.len() == n
    &&& pos.len() == n
    &&& forall|j: int| 0 <= j < n ==> !is_bad_entry(plan, j)
    &&& forall|m: int|
        0 <= m < n ==> 0 <= #[trigger] src[m] < n && entry_time(plan, src[m]) == Some(
            tw[m].time.millis as int,
        )
    &&& forall|j: int|
        0 <= j < n ==> {
            &&& 0 <= #[trigger] pos[j] < n
            &&& entry_time(plan, j) == Some(tw[pos[j]].time.millis as int)
            &&& tw[pos[j]].wallpapper@ == plan[j].wallpapper_view()
        }
}

/// An entry whose time is already in the schedule of the entries before it is bad.
proof fn lemma_repeated_time(
    plan: Seq<TimeWalpapperConfig>,
    i: int,
    tw: Seq<TimeWallpapper>,
    src: Seq<int>,
    pos: Seq<int>,
    e: TimeWallpapper,
)
    requires
        built_from(plan, i, tw, src, pos),
        0 <= i < plan.len(),
        entry_time(plan, i) == Some(e.time.millis as int),
        !(forall|m: int| 0 <= m < tw.len() ==> (#[trigger] tw[m]).time.millis != e.time.millis),
    ensures
        is_bad_entry(plan, i),
{
    reveal(built_from);
    let m = choose|m: int| 0 <= m < tw.len() && #[trigger] tw[m].time.millis == e.time.millis;
    assert(src[m] < i);
    assert(entry_time(plan, src[m]) == entry_time(plan, i));
}

/// Where entry `q` of a schedule goes when an entry is inserted at `k`.
pub open spec fn shifted(q: int, k: int) -> int {
    if q >= k {
        q + 1
    } else {
        q
    }
}

/// Inserting the entry of source entry `i`, whose time is new, extends the schedule of the
/// entries before it to the schedule of the entries up to it.
proof fn lemma_extend_schedule(
    plan: Seq<TimeWalpapperConfig>,
    i: int,
    tw: Seq<TimeWallpapper>,
    src: Seq<int>,
    pos: Seq<int>,
    k: int,
    e: TimeWallpapper,
)
    requires
        built_from(plan, i, tw, src, pos),
        0 <= i < plan.len(),
        entry_time(plan, i) == Some(e.time.millis as int),
        e.wallpapper@ == plan[i].wallpapper_view(),
        forall|m: int| 0 <= m < tw.len() ==> (#[trigger] tw[m]).time.millis != e.time.millis,
        0 <= k <= tw.len(),
    ensures
        built_from(
            plan,
            i + 1,
            tw.insert(k, e),
            src.insert(k, i),
            pos.map_values(|q: int| shifted(q, k)).push(k),
        ),
{
    reveal(built_from);
    let nt = tw.insert(k, e);
    let ns = src.insert(k, i);
    let np = pos.map_values(|q: int| shifted(q, k)).push(k);
    tw.insert_ensures(k, e);
    src.insert_ensures(k, i);
    assert forall|j: int| 0 <= j < i implies entry_time(plan, j) != entry_time(plan, i) by {
        assert(0 <= pos[j] < i);
    };
    assert forall|j: int| 0 <= j < i + 1 implies !is_bad_entry(plan, j) by {
        if j < i {
            assert(!is_bad_entry(plan, j));
        }
    };
    assert forall|m: int| 0 <= m < i + 1 implies 0 <= #[trigger] ns[m] < i + 1 && entry_time(
        plan,
        ns[m],
    ) == Some(nt[m].time.millis as int) by {
        if m < k {
            assert(ns[m] == src[m] && nt[m] == tw[m]);
        } else if m > k {
            assert(ns[m] == src[m - 1] && nt[m] == tw[m - 1]);
        }
    };
    assert forall|j: int| 0 <= j < i + 1 implies {
        &&& 0 <= #[trigger] np[j] < i + 1
        &&& entry_time(plan, j) == Some(nt[np[j]].time.millis as int)
        &&& nt[np[j]].wallpapper@ == plan[j].wallpapper_view()
    } by {
        if j < i {
            let q = pos[j];
            assert(0 <= q < i);
            assert(np[j] == shifted(q, k));
            if q < k {
                assert(nt[q] == tw[q]);
            } else {
                assert(nt[q + 1] == tw[q]);
            }
        } else {
            assert(np[j] == k);
        }
    };
}

/// Inserts `e` at the place that its time takes among the strictly ascending entries of
/// `tw`, unless an entry of `tw` has the same time: then `tw` is left as it was.
fn insert_by_time(tw: &mut Vec<TimeWallpapper>, e: TimeWallpapper) -> (inserted: bool)
    requires
        strictly_sorted(times(old(tw)@)),
        forall|m: int| 0 <= m < old(tw)@.len() ==> (#[trigger] old(tw)@[m]).time.wf(),
        e.time.wf(),
    ensures
        forall|m: int| 0 <= m < final(tw)@.len() ==> (#[trigger] final(tw)@[m]).time.wf(),
        inserted <==> forall|m: int|
            0 <= m < old(tw)@.len() ==> (#[trigger] old(tw)@[m]).time.millis != e.time.millis,
        !inserted ==> final(tw)@ == old(tw)@,
        inserted ==> exists|k: int| 0 <= k <= old(tw)@.len() && final(tw)@ == old(tw)@.insert(k, e),
        strictly_sorted(times(final(tw)@)),
{
    let mut k: usize = 0;
    while k < tw.len() && tw[k].time.millis < e.time.millis
        invariant
            k <= tw@.len(),
            forall|m: int| 0 <= m < k ==> (#[trigger] tw@[m]).time.millis < e.time.millis,
        decreases tw@.len() - k,
    {
        k = k + 1;
    }
    if k < tw.len() && tw[k].time.millis == e.time.millis {
        return false;
    }
    let ghost old_tw = tw@;
    proof {
        assert forall|m: int| 0 <= m < old_tw.len() implies (#[trigger] old_tw[m]).time.millis
            != e.time.millis by {
            if m > k {
                assert(times(old_tw)[k as int] < times(old_tw)[m]);
            }
        };
        lemma_insert_sorted(old_tw, k as int, e);
    }
    tw.insert(k, e);
    proof {
        old_tw.insert_ensures(k as int, e);
        assert forall|m: int| 0 <= m < tw@.len() implies (#[trigger] tw@[m]).time.wf() by {
            if m > k {
                assert(tw@[m] == old_tw[m - 1]);
            }
        };
    }
    true
}

impl ChangeWallpapper {
    /// The schedule of a source: its entries ordered by time. Fails on an empty source, and
    /// otherwise on its first entry that has an invalid time or repeats an earlier time.
    pub fn new_at_time(config: &Config) -> (r: Result<ChangeWallpapper, ScheduleError>)
        ensures
            r == Err::<ChangeWallpapper, ScheduleError>(ScheduleError::Empty) <==> config.plan_view().len() == 0,
            r matches Err(ScheduleError::InvalidTime { index }) ==> {
                &&& is_first_bad_entry(config.plan_view(), index as int)
                &&& entry_time(config.plan_view(), index as int) is None
            },
            r matches Err(ScheduleError::DuplicateTime { index }) ==> {
                &&& is_first_bad_entry(config.plan_view(), index as int)
                &&& entry_time(config.plan_view(), index as int) is Some
            },
            r is Ok <==> config.plan_view().len() > 0 && forall|i: int|
                0 <= i < config.plan_view().len() ==> !is_bad_entry(config.plan_view(), i),
            r matches Ok(s) ==> {
                &&& s.wf()
                &&& s matches ChangeWallpapper::AtTime { tw }
                &&& tw@.len() == config.plan_view().len()
                &&& forall|i: int|
                    0 <= i < config.plan_view().len() ==> holds_entry(
                        tw@,
                        #[trigger] config.plan_view()[i],
                    )
            },
    {
        let plan = config.plan();
        let ghost p = config.plan_view();
        if plan.len() == 0 {
            return Err(ScheduleError::Empty);
        }
        let mut tw: Vec<TimeWallpapper> = Vec::new();
        let mut i: usize = 0;
        let ghost mut src: Seq<int> = Seq::empty();
        let ghost mut pos: Seq<int> = Seq::empty();
        proof {
            reveal(built_from);
        }
        while i < plan.len()
            invariant
                plan@ == p,
                p == config.plan_view(),
                p.len() > 0,
                i <= p.len(),
                built_from(p, i as int, tw@, src, pos),
                strictly_sorted(times(tw@)),
                forall|m: int| 0 <= m < tw@.len() ==> (#[trigger] tw@[m]).time.wf(),
            decreases p.len() - i,
        {
            let e = match TimeWallpapper::new(plan[i].time(), plan[i].wallpapper()) {
                Ok(e) => e,
                Err(_) => {
                    proof {
                        reveal(built_from);
                        assert(is_bad_entry(p, i as int));
                    }
                    return Err(ScheduleError::InvalidTime { index: i });
                },
            };
            let ghost old_tw = tw@;
            if !insert_by_time(&mut tw, e) {
                proof {
                    lemma_repeated_time(p, i as int, old_tw, src, pos, e);
                    reveal(built_from);
                }
                return Err(ScheduleError::DuplicateTime { index: i });
            }
            proof {
                let k = choose|k: int| 0 <= k <= old_tw.len() && tw@ == old_tw.insert(k, e);
                lemma_extend_schedule(p, i as int, old_tw, src, pos, k, e);
                src = src.insert(k, i as int);
                pos = pos.map_values(|q: int| shifted(q, k)).push(k);
            }
            i = i + 1;
        }
        proof {
            reveal(built_from);
            assert forall|j: int| 0 <= j < p.len() implies holds_entry(tw@, #[trigger] p[j]) by {
                assert(tw@[pos[j]].time.millis as int == entry_time(p, j)->0);
            };
        }
        let r = ChangeWallpapper::AtTime { tw };
        assert(r.wf());
        Ok(r)
    }
}

/// Inserting an entry at the place that its time takes among the others keeps the
/// times strictly ascending.
proof fn lemma_insert_sorted(tw: Seq<TimeWallpapper>, k: int, e: TimeWallpapper)
    requires
        strictly_sorted(times(tw)),
        0 <= k <= tw.len(),
        forall|m: int| 0 <= m < k ==> (#[trigger] tw[m]).time.millis < e.time.millis,
        k < tw.len() ==> tw[k].time.millis > e.time.millis,
    ensures
        strictly_sorted(times(tw.insert(k, e))),
{
    tw.insert_ensures(k, e);
    let ts = times(tw.insert(k, e));
    let os = times(tw);
    assert forall|a: int, b: int| 0 <= a < b < ts.len() implies ts[a] < ts[b] by {
        if b < k {
            assert(os[a] < os[b]);
        } else if b == k {
            assert(tw[a].time.millis < e.time.millis);
        } else if a < k {
            assert(tw[a].time.millis < e.time.millis);
            assert(os[k] <= os[b - 1]) by {
                if k < b - 1 {
                    assert(os[k] < os[b - 1]);
                }
            };
        } else if a == k {
            assert(os[k] <= os[b - 1]) by {
                if k < b - 1 {
                    assert(os[k] < os[b - 1]);
                }
            };
        } else {
            assert(os[a - 1] < os[b - 1]);
        }
    };
}

/// With strictly ascending times, at most one entry is active at a given time.
pub proof fn lemma_active_index_unique(ts: Seq<int>, now: int, i1: int, i2: int)
    requires
        strictly_sorted(ts),
        is_active_index(ts, now, i1),
        is_active_index(ts, now, i2),
    ensures
        i1 == i2,
{
    if i1 < i2 {
        assert(ts[i1] < ts[i2]);
    } else if i2 < i1 {
        assert(ts[i2] < ts[i1]);
    }
}

/// With strictly ascending times, at most one entry comes next after a given time.
pub proof fn lemma_next_index_unique(ts: Seq<int>, now: int, k1: int, k2: int)
    requires
        strictly_sorted(ts),
        is_next_index(ts, now, k1),
        is_next_index(ts, now, k2),
    ensures
        k1 == k2,
{
    if k1 < k2 {
        assert(ts[k1] < ts[k2]);
    } else if k2 < k1 {
        assert(ts[k2] < ts[k1]);
    }
}

/// A lookup depends on the schedule and the time alone: two lookups at the same time on
/// the same schedule give the same entry and the same wait.
pub proof fn lemma_lookup_repeatable(
    s: ChangeWallpapper,
    now: TimeOfDay,
    r1: Option<(usize, u32)>,
    r2: Option<(usize, u32)>,
)
    requires
        s.wf(),
        now.wf(),
        s.lookup_result(now, r1),
        s.lookup_result(now, r2),
    ensures
        r1 == r2,
{
    match s {
        ChangeWallpapper::EveryMin { .. } => {},
        ChangeWallpapper::AtTime { tw } => {
            if tw@.len() > 0 {
                let ts = times(tw@);
                let t = now.millis as int;
                let k1 = choose|k: int|
                    {
                        &&& r1 matches Some((i, w))
                        &&& is_active_index(ts, t, i as int)
                        &&& #[trigger] is_next_index(ts, t, k)
                        &&& w == wait_ms(ts[k], t)
                    };
                let k2 = choose|k: int|
                    {
                        &&& r2 matches Some((i, w))
                        &&& is_active_index(ts, t, i as int)
                        &&& #[trigger] is_next_index(ts, t, k)
                        &&& w == wait_ms(ts[k], t)
                    };
                lemma_next_index_unique(ts, t, k1, k2);
                let (i1, w1) = r1.unwrap();
                let (i2, w2) = r2.unwrap();
                lemma_active_index_unique(ts, t, i1 as int, i2 as int);
            }
        },
    }
}

} // verus!
