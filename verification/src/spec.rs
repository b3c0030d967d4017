//! Cron schedules given as bit sets of seconds, minutes, hours, days of the
//! month, months and days of the week, and the search for their next
//! activation.
//!
//! The search walks the wall clock of the schedule's zone field by field,
//! from months down to seconds. Every reading of
//! the wall clock, and every wall-clock time turned back into an instant,
//! goes through the zone database (`crate::time`), so the contract of
//! [`SpecSchedule::next`] is the search itself, written as a state machine
//! over those readings ([`search_step`], [`search_run`]).
use vstd::prelude::*;
use crate::civil::valid_date;
use crate::time::{
    civil_at, date_time_at, in_range, lemma_date_time_at, lemma_date_time_view, lemma_location_view,
    local_match, zone_fields, zone_local, DateTime, Location, LocalMatch, MAX_TIMESTAMP, MIN_TIMESTAMP,
};

verus! {

broadcast use {lemma_date_time_at, lemma_date_time_view, lemma_location_view};

/// The bit that marks a field written as `*` or `?`.
pub const STAR_BIT: u64 = 0x8000_0000_0000_0000;

/// The smallest and largest value of a field.
#[derive(Clone, Copy, Debug, PartialEq, Eq)]
pub struct Bounds {
    pub min: u32,
    pub max: u32,
}

/// A schedule: the activation times are those whose wall-clock second,
/// minute, hour, month and day are in the corresponding bit sets (bit `i`
/// for value `i`). `location`, when given, is the zone whose wall clock is
/// read; otherwise the zone of the time asked about.
#[derive(Clone, Copy, Debug, PartialEq, Eq)]
pub struct SpecSchedule {
    pub second: u64,
    pub minute: u64,
    pub hour: u64,
    pub dom: u64,
    pub month: u64,
    pub dow: u64,
    pub location: Option<Location>,
}

/// Value `i` is in the bit set `mask`.
pub open spec fn bit_set(mask: u64, i: u32) -> bool {
    (1u64 << i) & mask != 0
}

/// Whether the day of the month `day` and the day of the week `weekday`
/// (from Sunday) fit the schedule: both must when either field was written
/// `*` or `?`, one of them must otherwise.
pub open spec fn day_fits(s: SpecSchedule, day: u32, weekday: u32) -> bool {
    let dom_match = bit_set(s.dom, day);
    let dow_match = bit_set(s.dow, weekday);
    if s.dom & STAR_BIT != 0 || s.dow & STAR_BIT != 0 {
        dom_match && dow_match
    } else {
        dom_match || dow_match
    }
}

/// The instant that a wall-clock reading names when it names one; the
/// earlier of two when it is repeated.
pub open spec fn pick(m: LocalMatch) -> Option<int> {
    match m {
        LocalMatch::Single(t) => Some(t as int),
        LocalMatch::Ambiguous(a, _) => Some(a as int),
        LocalMatch::Missing => None,
    }
}

/// The first of the readings at hours `hour .. 23` (same date, minute and
/// second) that names an instant.
pub open spec fn first_from_hour(
    zone: u16,
    year: int,
    month: int,
    day: int,
    hour: int,
    minute: int,
    second: int,
) -> Option<int>
    decreases 24 - hour,
{
    if hour >= 24 {
        None
    } else {
        match pick(zone_local(zone, year, month, day, hour, minute, second)) {
            Some(t) => Some(t),
            None => first_from_hour(zone, year, month, day, hour + 1, minute, second),
        }
    }
}

/// The instant for a wall-clock reading: the reading itself when it names
/// an instant (the earlier one when repeated), else the first later hour of
/// the same day that does.
pub open spec fn date_at(
    zone: u16,
    year: int,
    month: int,
    day: int,
    hour: int,
    minute: int,
    second: int,
) -> Option<int> {
    match pick(zone_local(zone, year, month, day, hour, minute, second)) {
        Some(t) => Some(t),
        None => first_from_hour(zone, year, month, day, hour + 1, minute, second),
    }
}

/// `make_date` reads the database at most once more per hour it tries.
pub open spec fn make_date_defined(zone: u16, year: int, month: int, day: int, hour: int, minute: int, second: int) -> bool {
    hour < u32::MAX || pick(zone_local(zone, year, month, day, hour, minute, second)) is Some
}

/// The wall-clock time `year-month-day hour:min:sec` in `loc`, or the first
/// later hour of that day that exists there; `None` when none does.
pub fn make_date(
    loc: Location,
    year: i32,
    month: u32,
    day: u32,
    hour: u32,
    min: u32,
    sec: u32,
) -> (r: Option<DateTime>)
    requires
        make_date_defined(loc@, year as int, month as int, day as int, hour as int, min as int, sec as int),
    ensures
        match date_at(loc@, year as int, month as int, day as int, hour as int, min as int, sec as int) {
            Some(t) => in_range(t) && r == Some(date_time_at(t, 0, loc@)),
            None => r is None,
        },
        !valid_date(year as int, month as int, day as int) ==> r is None,
{
    match local_match(loc, year, month, day, hour, min, sec) {
        LocalMatch::Single(t) => DateTime::from_timestamp(t, 0, loc),
        LocalMatch::Ambiguous(a, _) => DateTime::from_timestamp(a, 0, loc),
        LocalMatch::Missing => {
            let mut h: u32 = hour + 1;
            while h < 24
                invariant
                    hour < h,
                    date_at(loc@, year as int, month as int, day as int, hour as int, min as int, sec as int)
                        == first_from_hour(loc@, year as int, month as int, day as int, hour + 1, min as int, sec as int),
                    first_from_hour(loc@, year as int, month as int, day as int, hour + 1, min as int, sec as int)
                        == first_from_hour(loc@, year as int, month as int, day as int, h as int, min as int, sec as int),
                decreases 24 - h,
            {
                match local_match(loc, year, month, day, h, min, sec) {
                    LocalMatch::Single(t) => {
                        return DateTime::from_timestamp(t, 0, loc);
                    },
                    LocalMatch::Ambiguous(a, _) => {
                        return DateTime::from_timestamp(a, 0, loc);
                    },
                    LocalMatch::Missing => {},
                }
                h = h + 1;
            }
            None
        },
    }
}

/// Where the search stands: which field it is fitting next (`Wrap` checks
/// the year limit and then starts over from the month).
#[derive(Clone, Copy, Debug, PartialEq, Eq)]
pub enum Phase {
    Wrap,
    Month,
    Day,
    Hour,
    Minute,
    Second,
}

/// The state of the search: the candidate second, whether the lower fields
/// have been cleared already, and the phase.
#[derive(Clone, Copy, Debug, PartialEq, Eq)]
pub struct Search {
    pub t: i64,
    pub added: bool,
    pub phase: Phase,
}

/// The outcome of one step of the search.
#[derive(Clone, Copy, Debug, PartialEq, Eq)]
pub enum Step {
    Go(Search),
    Found(i64),
    Gone,
}

/// `t` moved by `by` seconds, when still in range.
pub open spec fn moved(t: int, by: int) -> Option<int> {
    if in_range(t + by) {
        Some(t + by)
    } else {
        None
    }
}

/// Continue at second `t` in phase `p`, the lower fields cleared.
pub open spec fn go(t: int, p: Phase) -> Step {
    Step::Go(Search { t: t as i64, added: true, phase: p })
}

/// The wall-clock reading of zone `zone` at second `t`.
pub open spec fn wall(zone: u16, t: int) -> (int, int, int, int, int, int, int) {
    zone_fields(zone, t)
}

/// The month step: the second to continue from when the current month does
/// not fit: the first second of the next month (`add_months` keeps the day,
/// capped at 28, and the time of day, falling back to thirty days later when
/// that reading names no instant).
pub open spec fn month_step(zone: u16, st: Search) -> Step {
    let c = wall(zone, st.t as int);
    let t1 = if !st.added {
        match date_at(zone, c.0, c.1, 1, 0, 0, 0) {
            Some(d) => d,
            None => st.t as int,
        }
    } else {
        st.t as int
    };
    let c1 = wall(zone, t1);
    let ny = if c1.1 + 1 > 12 { c1.0 + 1 } else { c1.0 };
    let nm = if c1.1 + 1 > 12 { c1.1 + 1 - 12 } else { c1.1 + 1 };
    let nd = if c1.2 < 28 { c1.2 } else { 28 };
    let t2 = match date_at(zone, ny, nm, nd, c1.3, c1.4, c1.5) {
        Some(d) => Some(d),
        None => moved(t1, 30 * 86400int),
    };
    match t2 {
        None => Step::Gone,
        Some(t2) => {
            let c2 = wall(zone, t2);
            let t3 = match date_at(zone, c2.0, c2.1, 1, 0, 0, 0) {
                Some(d) => d,
                None => t2,
            };
            go(t3, if wall(zone, t3).1 == 1 { Phase::Wrap } else { Phase::Month })
        },
    }
}

/// The day step: midnight of the next day (24 hours on, then back or on to
/// the nearest midnight).
pub open spec fn day_step(zone: u16, st: Search) -> Step {
    let c = wall(zone, st.t as int);
    let t1 = if !st.added {
        match date_at(zone, c.0, c.1, c.2, 0, 0, 0) {
            Some(d) => d,
            None => st.t as int,
        }
    } else {
        st.t as int
    };
    match moved(t1, 86400) {
        None => Step::Gone,
        Some(t2) => {
            let h = wall(zone, t2).3;
            let t3 = if h == 0 {
                Some(t2)
            } else if h > 12 {
                moved(t2, (24 - h) * 3600)
            } else {
                moved(t2, -h * 3600)
            };
            match t3 {
                None => Step::Gone,
                Some(t3) => go(t3, if wall(zone, t3).2 == 1 { Phase::Wrap } else { Phase::Day }),
            }
        },
    }
}

/// The hour step: the start of the next hour.
pub open spec fn hour_step(zone: u16, st: Search) -> Step {
    let c = wall(zone, st.t as int);
    let t1 = if !st.added {
        match date_at(zone, c.0, c.1, c.2, c.3, 0, 0) {
            Some(d) => d,
            None => st.t as int,
        }
    } else {
        st.t as int
    };
    match moved(t1, 3600) {
        None => Step::Gone,
        Some(t2) => go(t2, if wall(zone, t2).3 == 0 { Phase::Wrap } else { Phase::Hour }),
    }
}

/// The minute step: the start of the next minute.
pub open spec fn minute_step(zone: u16, st: Search) -> Step {
    let c = wall(zone, st.t as int);
    let t1 = if !st.added {
        moved(st.t as int, -c.5)
    } else {
        Some(st.t as int)
    };
    match t1 {
        None => Step::Gone,
        Some(t1) => match moved(t1, 60) {
            None => Step::Gone,
            Some(t2) => go(t2, if wall(zone, t2).4 == 0 { Phase::Wrap } else { Phase::Minute }),
        },
    }
}

/// The second step: the next second.
pub open spec fn second_step(zone: u16, st: Search) -> Step {
    match moved(st.t as int, 1) {
        None => Step::Gone,
        Some(t2) => go(t2, if wall(zone, t2).5 == 0 { Phase::Wrap } else { Phase::Second }),
    }
}

/// One step of the search for the next activation of `s` on the wall clock
/// of `zone`, giving up past year `limit`.
pub open spec fn search_step(s: SpecSchedule, zone: u16, limit: int, st: Search) -> Step {
    let c = wall(zone, st.t as int);
    match st.phase {
        Phase::Wrap => if c.0 > limit {
            Step::Gone
        } else {
            Step::Go(Search { phase: Phase::Month, ..st })
        },
        Phase::Month => if bit_set(s.month, c.1 as u32) {
            Step::Go(Search { phase: Phase::Day, ..st })
        } else {
            month_step(zone, st)
        },
        Phase::Day => if day_fits(s, c.2 as u32, c.6 as u32) {
            Step::Go(Search { phase: Phase::Hour, ..st })
        } else {
            day_step(zone, st)
        },
        Phase::Hour => if bit_set(s.hour, c.3 as u32) {
            Step::Go(Search { phase: Phase::Minute, ..st })
        } else {
            hour_step(zone, st)
        },
        Phase::Minute => if bit_set(s.minute, c.4 as u32) {
            Step::Go(Search { phase: Phase::Second, ..st })
        } else {
            minute_step(zone, st)
        },
        Phase::Second => if bit_set(s.second, c.5 as u32) {
            Step::Found(st.t)
        } else {
            second_step(zone, st)
        },
    }
}

/// The number of steps the search may take. The search ends by itself once
/// it passes the year limit, long before this many steps.
pub const SEARCH_STEPS: u64 = 0xffff_ffff_ffff_ffff;

/// The search run for at most `fuel` steps.
pub open spec fn search_run(s: SpecSchedule, zone: u16, limit: int, st: Search, fuel: nat) -> Option<int>
    decreases fuel,
{
    if fuel == 0 {
        None
    } else {
        match search_step(s, zone, limit, st) {
            Step::Gone => None,
            Step::Found(t) => Some(t as int),
            Step::Go(next) => search_run(s, zone, limit, next, (fuel - 1) as nat),
        }
    }
}

/// The zone whose wall clock the schedule reads for a time seen from `from`.
pub open spec fn zone_for(s: SpecSchedule, from: u16) -> u16 {
    match s.location {
        Some(l) => l@,
        None => from,
    }
}

/// The next activation of `s` strictly after the instant `after`: the search
/// starts at the next whole second and gives up five years on (`None`); the
/// result is seen from the zone of `after`.
pub open spec fn next_activation(s: SpecSchedule, after: (int, int, u16)) -> Option<DateTime> {
    let zone = zone_for(s, after.2);
    let start = after.0 + 1;
    if !in_range(start) {
        None
    } else {
        let limit = wall(zone, start).0 + 5;
        match search_run(s, zone, limit, Search { t: start as i64, added: false, phase: Phase::Wrap }, SEARCH_STEPS as nat) {
            Some(t) => Some(date_time_at(t, 0, after.2)),
            None => None,
        }
    }
}

/// Whether `(1 << i) & mask` is set.
fn has_bit(mask: u64, i: u32) -> (b: bool)
    requires
        i < 64,
    ensures
        b == bit_set(mask, i),
{
    (1u64 << i) & mask != 0
}

/// The second `t` moved by `by`, when in range.
fn shift(t: i64, by: i64) -> (r: Option<i64>)
    requires
        in_range(t as int),
        -100_000_000 <= by <= 100_000_000,
    ensures
        match moved(t as int, by as int) {
            Some(x) => r == Some(x as i64),
            None => r is None,
        },
{
    let x = t + by;
    if MIN_TIMESTAMP <= x && x <= MAX_TIMESTAMP {
        Some(x)
    } else {
        None
    }
}

/// `make_date` at second precision, as a raw second.
fn date_second(loc: Location, year: i32, month: u32, day: u32, hour: u32, min: u32, sec: u32) -> (r: Option<i64>)
    requires
        hour < 24,
    ensures
        match date_at(loc@, year as int, month as int, day as int, hour as int, min as int, sec as int) {
            Some(t) => r == Some(t as i64) && in_range(t),
            None => r is None,
        },
{
    match make_date(loc, year, month, day, hour, min, sec) {
        Some(d) => {
            let t = d.timestamp();
            proof {
                broadcast use lemma_date_time_at;
            }
            Some(t)
        },
        None => None,
    }
}

impl SpecSchedule {
    /// Whether the day of `t` (on its own zone's wall clock) fits the
    /// schedule.
    pub fn day_matches(&self, t: &DateTime) -> (b: bool)
        ensures
            b == day_fits(*self, wall(t@.2, t@.0).2 as u32, wall(t@.2, t@.0).6 as u32),
    {
        let c = t.civil();
        let dom_match = has_bit(self.dom, c.day);
        let dow_match = has_bit(self.dow, c.weekday);
        if self.dom & STAR_BIT != 0 || self.dow & STAR_BIT != 0 {
            dom_match && dow_match
        } else {
            dom_match || dow_match
        }
    }

    fn month_advance(zone: Location, st: Search) -> (r: Step)
        requires
            in_range(st.t as int),
        ensures
            r == month_step(zone@, st),
            r matches Step::Go(n) ==> in_range(n.t as int),
    {
        let c = civil_at(zone, st.t);
        let t1: i64 = if !st.added {
            match date_second(zone, c.year, c.month, 1, 0, 0, 0) {
                Some(d) => d,
                None => st.t,
            }
        } else {
            st.t
        };
        let c1 = civil_at(zone, t1);
        let mut year = c1.year;
        let mut month = c1.month + 1;
        if month > 12 {
            month = month - 12;
            year = year + 1;
        }
        let day = if c1.day < 28 {
            c1.day
        } else {
            28
        };
        let t2 = match date_second(zone, year, month, day, c1.hour, c1.minute, c1.second) {
            Some(d) => d,
            None => match shift(t1, 30 * 86400) {
                Some(x) => x,
                None => {
                    return Step::Gone;
                },
            },
        };
        let c2 = civil_at(zone, t2);
        let t3 = match date_second(zone, c2.year, c2.month, 1, 0, 0, 0) {
            Some(d) => d,
            None => t2,
        };
        let phase = if civil_at(zone, t3).month == 1 {
            Phase::Wrap
        } else {
            Phase::Month
        };
        Step::Go(Search { t: t3, added: true, phase })
    }

    fn day_advance(zone: Location, st: Search) -> (r: Step)
        requires
            in_range(st.t as int),
        ensures
            r == day_step(zone@, st),
            r matches Step::Go(n) ==> in_range(n.t as int),
    {
        let c = civil_at(zone, st.t);
        let t1: i64 = if !st.added {
            match date_second(zone, c.year, c.month, c.day, 0, 0, 0) {
                Some(d) => d,
                None => st.t,
            }
        } else {
            st.t
        };
        let t2 = match shift(t1, 86400) {
            Some(x) => x,
            None => {
                return Step::Gone;
            },
        };
        let h = civil_at(zone, t2).hour;
        let t3 = if h == 0 {
            t2
        } else if h > 12 {
            match shift(t2, (24 - h as i64) * 3600) {
                Some(x) => x,
                None => {
                    return Step::Gone;
                },
            }
        } else {
            match shift(t2, -(h as i64) * 3600) {
                Some(x) => x,
                None => {
                    return Step::Gone;
                },
            }
        };
        let phase = if civil_at(zone, t3).day == 1 {
            Phase::Wrap
        } else {
            Phase::Day
        };
        Step::Go(Search { t: t3, added: true, phase })
    }

    fn hour_advance(zone: Location, st: Search) -> (r: Step)
        requires
            in_range(st.t as int),
        ensures
            r == hour_step(zone@, st),
            r matches Step::Go(n) ==> in_range(n.t as int),
    {
        let c = civil_at(zone, st.t);
        let t1: i64 = if !st.added {
            match date_second(zone, c.year, c.month, c.day, c.hour, 0, 0) {
                Some(d) => d,
                None => st.t,
            }
        } else {
            st.t
        };
        match shift(t1, 3600) {
            None => Step::Gone,
            Some(t2) => {
                let phase = if civil_at(zone, t2).hour == 0 {
                    Phase::Wrap
                } else {
                    Phase::Hour
                };
                Step::Go(Search { t: t2, added: true, phase })
            },
        }
    }

    fn minute_advance(zone: Location, st: Search) -> (r: Step)
        requires
            in_range(st.t as int),
        ensures
            r == minute_step(zone@, st),
            r matches Step::Go(n) ==> in_range(n.t as int),
    {
        let c = civil_at(zone, st.t);
        let t1: i64 = if !st.added {
            match shift(st.t, -(c.second as i64)) {
                Some(x) => x,
                None => {
                    return Step::Gone;
                },
            }
        } else {
            st.t
        };
        match shift(t1, 60) {
            None => Step::Gone,
            Some(t2) => {
                let phase = if civil_at(zone, t2).minute == 0 {
                    Phase::Wrap
                } else {
                    Phase::Minute
                };
                Step::Go(Search { t: t2, added: true, phase })
            },
        }
    }

    fn second_advance(zone: Location, st: Search) -> (r: Step)
        requires
            in_range(st.t as int),
        ensures
            r == second_step(zone@, st),
            r matches Step::Go(n) ==> in_range(n.t as int),
    {
        match shift(st.t, 1) {
            None => Step::Gone,
            Some(t2) => {
                let phase = if civil_at(zone, t2).second == 0 {
                    Phase::Wrap
                } else {
                    Phase::Second
                };
                Step::Go(Search { t: t2, added: true, phase })
            },
        }
    }

    /// One step of the search (see [`search_step`]).
    fn step(&self, zone: Location, limit: i64, st: Search) -> (r: Step)
        requires
            in_range(st.t as int),
        ensures
            r == search_step(*self, zone@, limit as int, st),
            r matches Step::Go(n) ==> in_range(n.t as int),
    {
        let c = civil_at(zone, st.t);
        match st.phase {
            Phase::Wrap => {
                if c.year as i64 > limit {
                    Step::Gone
                } else {
                    Step::Go(Search { phase: Phase::Month, ..st })
                }
            },
            Phase::Month => {
                if has_bit(self.month, c.month) {
                    Step::Go(Search { phase: Phase::Day, ..st })
                } else {
                    Self::month_advance(zone, st)
                }
            },
            Phase::Day => {
                let dom_match = has_bit(self.dom, c.day);
                let dow_match = has_bit(self.dow, c.weekday);
                let fits = if self.dom & STAR_BIT != 0 || self.dow & STAR_BIT != 0 {
                    dom_match && dow_match
                } else {
                    dom_match || dow_match
                };
                if fits {
                    Step::Go(Search { phase: Phase::Hour, ..st })
                } else {
                    Self::day_advance(zone, st)
                }
            },
            Phase::Hour => {
                if has_bit(self.hour, c.hour) {
                    Step::Go(Search { phase: Phase::Minute, ..st })
                } else {
                    Self::hour_advance(zone, st)
                }
            },
            Phase::Minute => {
                if has_bit(self.minute, c.minute) {
                    Step::Go(Search { phase: Phase::Second, ..st })
                } else {
                    Self::minute_advance(zone, st)
                }
            },
            Phase::Second => {
                if has_bit(self.second, c.second) {
                    Step::Found(st.t)
                } else {
                    Self::second_advance(zone, st)
                }
            },
        }
    }

    /// The next activation strictly after `after`, seen from `after`'s zone:
    /// `None` when there is none within five years of it (or the search
    /// would leave the range of instants that `chrono` represents).
    pub fn next(&self, after: DateTime) -> (r: Option<DateTime>)
        ensures
            r == next_activation(*self, after@),
    {
        let orig = after.zone();
        let zone = match self.location {
            Some(l) => l,
            None => orig,
        };
        let secs = after.timestamp();
        if secs >= MAX_TIMESTAMP {
            return None;
        }
        let start = secs + 1;
        let limit: i64 = civil_at(zone, start).year as i64 + 5;
        let ghost init = Search { t: start, added: false, phase: Phase::Wrap };
        let mut st = Search { t: start, added: false, phase: Phase::Wrap };
        let mut fuel: u64 = SEARCH_STEPS;
        loop
            invariant
                in_range(st.t as int),
                next_activation(*self, after@) == (match search_run(*self, zone@, limit as int, init, SEARCH_STEPS as nat) {
                    Some(t) => Some(date_time_at(t, 0, orig@)),
                    None => None,
                }),
                search_run(*self, zone@, limit as int, init, SEARCH_STEPS as nat)
                    == search_run(*self, zone@, limit as int, st, fuel as nat),
            decreases fuel,
        {
            if fuel == 0 {
                return None;
            }
            match self.step(zone, limit, st) {
                Step::Gone => {
                    return None;
                },
                Step::Found(t) => {
                    let r = DateTime::from_timestamp(t, 0, orig);
                    proof {
                        broadcast use lemma_date_time_at;
                    }
                    return r;
                },
                Step::Go(next) => {
                    st = next;
                    fuel = fuel - 1;
                },
            }
        }
    }
}

} // verus!
