//! What the search for the next activation guarantees in a zone whose wall
//! clock is the calendar at a fixed offset from UTC (such as `UTC` itself):
//! the activation it finds is the first second after the time asked about
//! at which the wall clock reads a time the schedule names. The zones that
//! `chrono-tz` gives a single span (`UTC`, `GMT`, `Etc/GMT+5` and the like)
//! are such zones: `Location::from_name` states it for them.
use vstd::prelude::*;
use crate::civil::{
    day_number, days_before_year, lemma_date_in_year, lemma_date_unique, lemma_next_day,
    lemma_reading_order, lemma_second_parts, lemma_years_apart, lex_before, reading_second,
    second_number, valid_date, valid_reading, valid_time, weekday_of, Reading,
};
use crate::spec::{
    bit_set, date_at, day_fits, day_step, hour_step, minute_step, month_step, moved, next_activation,
    search_run, search_step, second_step, wall, zone_for, Phase, Search, SpecSchedule, Step,
    SEARCH_STEPS,
};
use crate::time::{
    earlier, in_range, lemma_date_time_at, zone_fields, zone_local, LocalMatch,
    MAX_TIMESTAMP, MIN_TIMESTAMP,
};

verus! {

/// The wall clock of `zone` is the calendar `off` seconds ahead of UTC: at
/// every instant it reads the date and time of that instant moved by `off`,
/// and every date and time of day names the one instant it reads at (none
/// when that instant, or the reading itself taken as UTC, is out of range).
pub open spec fn fixed_offset(zone: u16, off: int) -> bool {
    &&& -86400 < off < 86400
    &&& forall|t: int|
        #![trigger zone_fields(zone, t)]
        in_range(t) ==> valid_reading(zone_fields(zone, t)) && reading_second(zone_fields(zone, t))
            == t + off
    &&& forall|y: int, m: int, d: int, h: int, mi: int, s: int|
        #![trigger zone_local(zone, y, m, d, h, mi, s)]
        valid_date(y, m, d) && valid_time(h, mi, s) ==> zone_local(zone, y, m, d, h, mi, s) == (if in_range(
            second_number(y, m, d, h, mi, s),
        ) && in_range(second_number(y, m, d, h, mi, s) - off) {
            LocalMatch::Single((second_number(y, m, d, h, mi, s) - off) as i64)
        } else {
            LocalMatch::Missing
        })
}

/// The wall-clock reading `c` is a time that `s` names: its month, day,
/// hour, minute and second all fit.
pub open spec fn fires(s: SpecSchedule, c: Reading) -> bool {
    &&& bit_set(s.month, c.1 as u32)
    &&& day_fits(s, c.2 as u32, c.6 as u32)
    &&& bit_set(s.hour, c.3 as u32)
    &&& bit_set(s.minute, c.4 as u32)
    &&& bit_set(s.second, c.5 as u32)
}

spec fn month_ok(s: SpecSchedule, c: Reading) -> bool {
    bit_set(s.month, c.1 as u32)
}

spec fn day_ok(s: SpecSchedule, c: Reading) -> bool {
    day_fits(s, c.2 as u32, c.6 as u32)
}

spec fn hour_ok(s: SpecSchedule, c: Reading) -> bool {
    bit_set(s.hour, c.3 as u32)
}

spec fn minute_ok(s: SpecSchedule, c: Reading) -> bool {
    bit_set(s.minute, c.4 as u32)
}

/// The time of day of a reading, in seconds.
spec fn tod(c: Reading) -> int {
    c.3 * 3600 + c.4 * 60 + c.5
}

/// The fields that phase `p` has already found fitting.
spec fn checked(s: SpecSchedule, c: Reading, p: Phase) -> bool {
    match p {
        Phase::Wrap | Phase::Month => true,
        Phase::Day => month_ok(s, c),
        Phase::Hour => month_ok(s, c) && day_ok(s, c),
        Phase::Minute => month_ok(s, c) && day_ok(s, c) && hour_ok(s, c),
        Phase::Second => month_ok(s, c) && day_ok(s, c) && hour_ok(s, c) && minute_ok(s, c),
    }
}

/// Once the search has moved, a field whose lower fields are not all at
/// their start has not moved since it was found fitting.
spec fn settled(s: SpecSchedule, c: Reading, added: bool) -> bool {
    added ==> {
        &&& !(c.2 == 1 && tod(c) == 0) ==> month_ok(s, c)
        &&& tod(c) != 0 ==> day_ok(s, c)
        &&& c.4 * 60 + c.5 != 0 ==> hour_ok(s, c)
        &&& c.5 != 0 ==> minute_ok(s, c)
    }
}

/// No second from `from` up to (not including) `to` is one that `s` names.
pub open spec fn quiet(s: SpecSchedule, zone: u16, from: int, to: int) -> bool {
    forall|u: int| from <= u < to ==> !fires(s, #[trigger] wall(zone, u))
}

/// What holds of every state the search passes through.
spec fn search_inv(s: SpecSchedule, zone: u16, limit: int, start: int, st: Search) -> bool {
    let c = wall(zone, st.t as int);
    &&& quiet(s, zone, start, st.t as int)
    &&& in_range(st.t as int)
    &&& st.t >= start
    &&& c.0 <= limit + 1
    &&& st.phase != Phase::Wrap ==> c.0 <= limit
    &&& checked(s, c, st.phase)
    &&& settled(s, c, st.added)
}

/// The instants of every reading the search looks at are in range.
spec fn room(off: int, limit: int, start: int) -> bool {
    &&& MIN_TIMESTAMP + 40 * 86400 <= start
    &&& days_before_year(limit + 2) * 86400 - off <= MAX_TIMESTAMP + 1
    &&& days_before_year(limit + 2) * 86400 <= MAX_TIMESTAMP + 1
    &&& -86400 < off < 86400
}

/// Phases later in a step rank lower.
spec fn phase_rank(p: Phase) -> int {
    match p {
        Phase::Wrap => 5,
        Phase::Month => 4,
        Phase::Day => 3,
        Phase::Hour => 2,
        Phase::Minute => 1,
        Phase::Second => 0,
    }
}

/// A bound on the steps the search has left.
spec fn search_rank(off: int, limit: int, st: Search) -> int {
    (days_before_year(limit + 2) * 86400 - off - st.t) * 6 + phase_rank(st.phase)
}

/// The wall clock reads a date and time whose second number is the instant
/// moved by the offset.
proof fn lemma_wall(zone: u16, off: int, t: int)
    requires
        fixed_offset(zone, off),
        in_range(t),
    ensures
        valid_reading(wall(zone, t)),
        reading_second(wall(zone, t)) == t + off,
{
    assert(in_range(t) ==> valid_reading(zone_fields(zone, t)) && reading_second(zone_fields(zone, t))
        == t + off);
}

/// Two readings of the same second are the same reading.
proof fn lemma_reading_unique(a: Reading, b: Reading)
    requires
        valid_reading(a),
        valid_reading(b),
        reading_second(a) == reading_second(b),
    ensures
        a == b,
{
    let a6 = (a.0, a.1, a.2, a.3, a.4, a.5);
    let b6 = (b.0, b.1, b.2, b.3, b.4, b.5);
    if lex_before(a6, b6) {
        lemma_reading_order(a6, b6);
    } else if lex_before(b6, a6) {
        lemma_reading_order(b6, a6);
    }
}

/// A reading with an instant in range is found at that instant, and the
/// wall clock reads it there.
proof fn lemma_at(zone: u16, off: int, y: int, m: int, d: int, h: int, mi: int, s: int)
    requires
        fixed_offset(zone, off),
        valid_date(y, m, d),
        valid_time(h, mi, s),
        in_range(second_number(y, m, d, h, mi, s)),
        in_range(second_number(y, m, d, h, mi, s) - off),
    ensures
        date_at(zone, y, m, d, h, mi, s) == Some(second_number(y, m, d, h, mi, s) - off),
        wall(zone, second_number(y, m, d, h, mi, s) - off) == (y, m, d, h, mi, s, weekday_of(
            day_number(y, m, d),
        )),
{
    let t = second_number(y, m, d, h, mi, s) - off;
    assert(zone_local(zone, y, m, d, h, mi, s) == LocalMatch::Single(t as i64));
    lemma_wall(zone, off, t);
    lemma_reading_unique(wall(zone, t), (y, m, d, h, mi, s, weekday_of(day_number(y, m, d))));
}

/// Readings up to year `limit + 1` and not long before `start` are in
/// range.
proof fn lemma_in_room(off: int, limit: int, start: int, y: int, m: int, d: int, h: int, mi: int, s: int)
    requires
        room(off, limit, start),
        valid_date(y, m, d),
        valid_time(h, mi, s),
        y <= limit + 1,
        second_number(y, m, d, h, mi, s) - off >= start - 32 * 86400,
    ensures
        in_range(second_number(y, m, d, h, mi, s) - off),
        in_range(second_number(y, m, d, h, mi, s)),
{
    lemma_date_in_year(y, m, d);
    lemma_years_apart(y + 1, (limit + 1 - y) as nat);
}

/// Moving a reading `c` forward by `delta` seconds (at most a day) to `c2`:
/// within the same day when the time of day allows, else to the next day;
/// the year grows by at most one.
proof fn lemma_forward(c: Reading, c2: Reading, delta: int)
    requires
        valid_reading(c),
        valid_reading(c2),
        1 <= delta <= 86400,
        reading_second(c2) == reading_second(c) + delta,
    ensures
        c2.0 <= c.0 + 1,
        tod(c2) >= delta ==> c2.0 == c.0 && c2.1 == c.1 && c2.2 == c.2 && c2.6 == c.6 && tod(c2)
            == tod(c) + delta,
        tod(c2) < delta ==> tod(c2) == tod(c) + delta - 86400 && (c2.2 == 1 || (c2.0 == c.0 && c2.1
            == c.1)),
{
    let dn = day_number(c.0, c.1, c.2);
    let dn2 = day_number(c2.0, c2.1, c2.2);
    lemma_second_parts(c.0, c.1, c.2, c.3, c.4, c.5);
    lemma_second_parts(c2.0, c2.1, c2.2, c2.3, c2.4, c2.5);
    if tod(c2) >= delta {
        vstd::arithmetic::div_mod::lemma_fundamental_div_mod_converse(
            reading_second(c),
            86400,
            dn2,
            tod(c2) - delta,
        );
        lemma_date_unique(c.0, c.1, c.2, c2.0, c2.1, c2.2);
    } else {
        vstd::arithmetic::div_mod::lemma_fundamental_div_mod_converse(
            reading_second(c),
            86400,
            dn2 - 1,
            tod(c2) - delta + 86400,
        );
        lemma_next_day(c.0, c.1, c.2, c2.0, c2.1, c2.2);
        lemma_date_in_year(c.0, c.1, c.2);
        lemma_date_in_year(c2.0, c2.1, c2.2);
        if c2.0 > c.0 + 1 {
            lemma_years_apart(c.0 + 1, (c2.0 - c.0 - 1) as nat);
        }
    }
}

/// From a time in a year up to `limit`, the next midnight is in range.
proof fn lemma_headroom(zone: u16, off: int, limit: int, start: int, t: int)
    requires
        fixed_offset(zone, off),
        room(off, limit, start),
        in_range(t),
        wall(zone, t).0 <= limit,
    ensures
        t + 86400 - tod(wall(zone, t)) <= MAX_TIMESTAMP,
{
    lemma_wall(zone, off, t);
    let c = wall(zone, t);
    lemma_date_in_year(c.0, c.1, c.2);
    lemma_years_apart(c.0 + 1, (limit - c.0) as nat);
    lemma_years_apart(limit + 1, 1);
}

/// The second step moves on and keeps the invariant.
proof fn lemma_second_step(s: SpecSchedule, zone: u16, off: int, limit: int, start: int, st: Search)
    requires
        fixed_offset(zone, off),
        room(off, limit, start),
        search_inv(s, zone, limit, start, st),
        st.phase == Phase::Second,
        !bit_set(s.second, wall(zone, st.t as int).5 as u32),
    ensures
        second_step(zone, st) matches Step::Go(n) ==> search_inv(s, zone, limit, start, n) && n.t > st.t,
        !(second_step(zone, st) is Gone),
{
    let t = st.t as int;
    let c = wall(zone, t);
    lemma_wall(zone, off, t);
    lemma_headroom(zone, off, limit, start, t);
    if let Some(t2) = moved(t, 1) {
        let c2 = wall(zone, t2);
        lemma_wall(zone, off, t2);
        lemma_forward(c, c2, 1);
        assert(quiet(s, zone, start, t2)) by {
            assert(!fires(s, wall(zone, t)));
        }
    }
}

/// The minute step moves to the next minute and keeps the invariant.
proof fn lemma_minute_step(s: SpecSchedule, zone: u16, off: int, limit: int, start: int, st: Search)
    requires
        fixed_offset(zone, off),
        room(off, limit, start),
        search_inv(s, zone, limit, start, st),
        st.phase == Phase::Minute,
        !bit_set(s.minute, wall(zone, st.t as int).4 as u32),
    ensures
        minute_step(zone, st) matches Step::Go(n) ==> search_inv(s, zone, limit, start, n) && n.t > st.t,
        !(minute_step(zone, st) is Gone),
{
    let t = st.t as int;
    let c = wall(zone, t);
    lemma_wall(zone, off, t);
    lemma_headroom(zone, off, limit, start, t);
    if let Some(t1) = (if !st.added { moved(t, -c.5) } else { Some(t) }) {
        assert(t1 == t - c.5);
        if let Some(t2) = moved(t1, 60) {
            let c2 = wall(zone, t2);
            lemma_wall(zone, off, t2);
            lemma_forward(c, c2, 60 - c.5);
            assert forall|u: int| t <= u < t2 implies !fires(s, #[trigger] wall(zone, u)) by {
                lemma_same_minute(zone, off, t, u);
            }
        }
    }
}

/// The seconds up to the end of a minute read the same minute.
proof fn lemma_same_minute(zone: u16, off: int, t: int, u: int)
    requires
        fixed_offset(zone, off),
        in_range(t),
        in_range(u),
        t <= u < t - wall(zone, t).5 + 60,
    ensures
        wall(zone, u).0 == wall(zone, t).0,
        wall(zone, u).1 == wall(zone, t).1,
        wall(zone, u).2 == wall(zone, t).2,
        wall(zone, u).3 == wall(zone, t).3,
        wall(zone, u).4 == wall(zone, t).4,
        wall(zone, u).6 == wall(zone, t).6,
{
    lemma_wall(zone, off, t);
    if u > t {
        lemma_wall(zone, off, u);
        lemma_forward(wall(zone, t), wall(zone, u), u - t);
    }
}

/// The hour step moves to the next hour and keeps the invariant.
proof fn lemma_hour_step(s: SpecSchedule, zone: u16, off: int, limit: int, start: int, st: Search)
    requires
        fixed_offset(zone, off),
        room(off, limit, start),
        search_inv(s, zone, limit, start, st),
        st.phase == Phase::Hour,
        !bit_set(s.hour, wall(zone, st.t as int).3 as u32),
    ensures
        hour_step(zone, st) matches Step::Go(n) ==> search_inv(s, zone, limit, start, n) && n.t > st.t,
        !(hour_step(zone, st) is Gone),
{
    let t = st.t as int;
    let c = wall(zone, t);
    lemma_wall(zone, off, t);
    lemma_headroom(zone, off, limit, start, t);
    if !st.added {
        lemma_in_room(off, limit, start, c.0, c.1, c.2, c.3, 0, 0);
        lemma_at(zone, off, c.0, c.1, c.2, c.3, 0, 0);
    }
    let t1 = t - c.4 * 60 - c.5;
    if let Some(t2) = moved(t1, 3600) {
        let c2 = wall(zone, t2);
        lemma_wall(zone, off, t2);
        lemma_forward(c, c2, 3600 - c.4 * 60 - c.5);
        assert forall|u: int| t <= u < t2 implies !fires(s, #[trigger] wall(zone, u)) by {
            if u > t {
                lemma_wall(zone, off, u);
                lemma_forward(c, wall(zone, u), u - t);
            }
        }
    }
}

/// The day step moves to the next midnight and keeps the invariant.
proof fn lemma_day_step(s: SpecSchedule, zone: u16, off: int, limit: int, start: int, st: Search)
    requires
        fixed_offset(zone, off),
        room(off, limit, start),
        search_inv(s, zone, limit, start, st),
        st.phase == Phase::Day,
        !day_fits(s, wall(zone, st.t as int).2 as u32, wall(zone, st.t as int).6 as u32),
    ensures
        day_step(zone, st) matches Step::Go(n) ==> search_inv(s, zone, limit, start, n) && n.t > st.t,
        !(day_step(zone, st) is Gone),
{
    let t = st.t as int;
    let c = wall(zone, t);
    lemma_wall(zone, off, t);
    lemma_headroom(zone, off, limit, start, t);
    if !st.added {
        lemma_in_room(off, limit, start, c.0, c.1, c.2, 0, 0, 0);
        lemma_at(zone, off, c.0, c.1, c.2, 0, 0, 0);
    }
    let t1 = t - tod(c);
    if let Some(t2) = moved(t1, 86400) {
        let c2 = wall(zone, t2);
        lemma_wall(zone, off, t2);
        lemma_forward(c, c2, 86400 - tod(c));
        assert(c2.3 == 0);
        assert forall|u: int| t <= u < t2 implies !fires(s, #[trigger] wall(zone, u)) by {
            if u > t {
                lemma_wall(zone, off, u);
                lemma_forward(c, wall(zone, u), u - t);
            }
        }
    }
}

/// The month step moves to the first of the next month and keeps the
/// invariant.
proof fn lemma_month_step(s: SpecSchedule, zone: u16, off: int, limit: int, start: int, st: Search)
    requires
        fixed_offset(zone, off),
        room(off, limit, start),
        search_inv(s, zone, limit, start, st),
        st.phase == Phase::Month,
        !bit_set(s.month, wall(zone, st.t as int).1 as u32),
    ensures
        month_step(zone, st) matches Step::Go(n) ==> search_inv(s, zone, limit, start, n) && n.t > st.t,
        !(month_step(zone, st) is Gone),
{
    let t = st.t as int;
    let c = wall(zone, t);
    lemma_wall(zone, off, t);
    crate::civil::lemma_month_next(c.0, c.1);
    lemma_in_room(off, limit, start, c.0, c.1, 1, 0, 0, 0);
    lemma_at(zone, off, c.0, c.1, 1, 0, 0, 0);
    let t1 = second_number(c.0, c.1, 1, 0, 0, 0) - off;
    assert(month_step(zone, st) == month_step(zone, Search { t: t1 as i64, added: true, ..st }));
    let ny = if c.1 + 1 > 12 { c.0 + 1 } else { c.0 };
    let nm = if c.1 + 1 > 12 { c.1 + 1 - 12 } else { c.1 + 1 };
    lemma_reading_order((c.0, c.1, c.2, c.3, c.4, c.5), (ny, nm, 1, 0, 0, 0));
    lemma_in_room(off, limit, start, ny, nm, 1, 0, 0, 0);
    lemma_at(zone, off, ny, nm, 1, 0, 0, 0);
    let t3 = second_number(ny, nm, 1, 0, 0, 0) - off;
    assert forall|u: int| t <= u < t3 implies !fires(s, #[trigger] wall(zone, u)) by {
        lemma_wall(zone, off, u);
        let cu = wall(zone, u);
        let cu6 = (cu.0, cu.1, cu.2, cu.3, cu.4, cu.5);
        if cu.0 < c.0 || (cu.0 == c.0 && cu.1 < c.1) {
            lemma_reading_order(cu6, (c.0, c.1, c.2, c.3, c.4, c.5));
        } else if cu.0 > c.0 || (cu.0 == c.0 && cu.1 > c.1) {
            if lex_before((ny, nm, 1, 0, 0, 0), cu6) {
                lemma_reading_order((ny, nm, 1, 0, 0, 0), cu6);
            }
        }
    }
}

/// One step of the search keeps the invariant, and finds only times that
/// the schedule names.
proof fn lemma_step(s: SpecSchedule, zone: u16, off: int, limit: int, start: int, st: Search)
    requires
        fixed_offset(zone, off),
        room(off, limit, start),
        search_inv(s, zone, limit, start, st),
    ensures
        match search_step(s, zone, limit, st) {
            Step::Found(t) => t >= start && in_range(t as int) && fires(s, wall(zone, t as int))
                && quiet(s, zone, start, t as int) && wall(zone, t as int).0 <= limit,
            Step::Go(n) => search_inv(s, zone, limit, start, n) && search_rank(off, limit, n)
                < search_rank(off, limit, st),
            Step::Gone => st.phase == Phase::Wrap && wall(zone, st.t as int).0 > limit,
        },
{
    let c = wall(zone, st.t as int);
    match st.phase {
        Phase::Wrap => {},
        Phase::Month => {
            if !bit_set(s.month, c.1 as u32) {
                lemma_month_step(s, zone, off, limit, start, st);
            }
        },
        Phase::Day => {
            if !day_fits(s, c.2 as u32, c.6 as u32) {
                lemma_day_step(s, zone, off, limit, start, st);
            }
        },
        Phase::Hour => {
            if !bit_set(s.hour, c.3 as u32) {
                lemma_hour_step(s, zone, off, limit, start, st);
            }
        },
        Phase::Minute => {
            if !bit_set(s.minute, c.4 as u32) {
                lemma_minute_step(s, zone, off, limit, start, st);
            }
        },
        Phase::Second => {
            if !bit_set(s.second, c.5 as u32) {
                lemma_second_step(s, zone, off, limit, start, st);
            }
        },
    }
}

/// A search that keeps the invariant finds only first activations.
proof fn lemma_run(s: SpecSchedule, zone: u16, off: int, limit: int, start: int, st: Search, fuel: nat)
    requires
        fixed_offset(zone, off),
        room(off, limit, start),
        search_inv(s, zone, limit, start, st),
    ensures
        search_run(s, zone, limit, st, fuel) matches Some(t) ==> t >= start && in_range(t) && fires(
            s,
            wall(zone, t),
        ) && quiet(s, zone, start, t) && wall(zone, t).0 <= limit,
    decreases fuel,
{
    if fuel > 0 {
        lemma_step(s, zone, off, limit, start, st);
        if let Step::Go(n) = search_step(s, zone, limit, st) {
            lemma_run(s, zone, off, limit, start, n, (fuel - 1) as nat);
        }
    }
}

/// A state of the search lies before the first second of year `limit + 2`,
/// and one in a year past `limit` lies after the first second of year
/// `limit + 1`.
proof fn lemma_rank_bounds(s: SpecSchedule, zone: u16, off: int, limit: int, start: int, st: Search)
    requires
        fixed_offset(zone, off),
        search_inv(s, zone, limit, start, st),
    ensures
        search_rank(off, limit, st) >= 0,
        wall(zone, st.t as int).0 > limit ==> st.t >= second_number(limit + 1, 1, 1, 0, 0, 0) - off,
{
    let t = st.t as int;
    let c = wall(zone, t);
    lemma_wall(zone, off, t);
    lemma_date_in_year(c.0, c.1, c.2);
    lemma_years_apart(c.0 + 1, (limit + 1 - c.0) as nat);
}

/// Run long enough, the search ends by finding an activation or by passing
/// the year limit, having found no activation up to the year after it.
proof fn lemma_run_ends(s: SpecSchedule, zone: u16, off: int, limit: int, start: int, st: Search, fuel: nat)
    requires
        fixed_offset(zone, off),
        room(off, limit, start),
        search_inv(s, zone, limit, start, st),
        fuel > search_rank(off, limit, st),
    ensures
        search_run(s, zone, limit, st, fuel) is None ==> quiet(
            s,
            zone,
            start,
            second_number(limit + 1, 1, 1, 0, 0, 0) - off,
        ),
    decreases fuel,
{
    lemma_rank_bounds(s, zone, off, limit, start, st);
    lemma_step(s, zone, off, limit, start, st);
    let step = search_step(s, zone, limit, st);
    if let Step::Go(n) = step {
        lemma_run_ends(s, zone, off, limit, start, n, (fuel - 1) as nat);
    } else if step is Gone {
        let end = second_number(limit + 1, 1, 1, 0, 0, 0) - off;
        assert forall|u: int| start <= u < end implies !fires(s, #[trigger] wall(zone, u)) by {
            assert(u < st.t);
        }
    }
}

/// In a zone whose wall clock is the calendar at a fixed offset from UTC,
/// the next activation that a schedule finds is the first whole second after
/// the time asked about at which the zone's wall clock reads a time that the
/// schedule names, and it lies before the end of the fifth year after the one
/// the search starts in (on that wall clock); when it finds none, no second
/// names one from then to the end of that year.
/// Times within 40 days of the start of the representable range, or within
/// eight years of its end, are left out: the search reads the wall clock
/// that far around them, past the range near its ends.
pub proof fn lemma_next_activation_fires(s: SpecSchedule, after: (int, int, u16), off: int)
    requires
        fixed_offset(zone_for(s, after.2), off),
        0 <= after.1 < 1_000_000_000,
        MIN_TIMESTAMP + 40 * 86400 <= after.0,
        after.0 + 8 * 366 * 86400 <= MAX_TIMESTAMP,
    ensures
        next_activation(s, after) matches Some(t) ==> {
            &&& earlier(after, t@)
            &&& t@.1 == 0
            &&& t@.2 == after.2
            &&& fires(s, wall(zone_for(s, after.2), t@.0))
            &&& quiet(s, zone_for(s, after.2), after.0 + 1, t@.0)
            &&& t@.0 < second_number(wall(zone_for(s, after.2), after.0 + 1).0 + 6, 1, 1, 0, 0, 0) - off
        },
        next_activation(s, after) is None ==> quiet(
            s,
            zone_for(s, after.2),
            after.0 + 1,
            second_number(wall(zone_for(s, after.2), after.0 + 1).0 + 6, 1, 1, 0, 0, 0) - off,
        ),
{
    let zone = zone_for(s, after.2);
    let start = after.0 + 1;
    lemma_wall(zone, off, start);
    let c = wall(zone, start);
    let limit = c.0 + 5;
    lemma_date_in_year(c.0, c.1, c.2);
    lemma_years_apart(c.0, 7);
    let init = Search { t: start as i64, added: false, phase: Phase::Wrap };
    lemma_run(s, zone, off, limit, start, init, SEARCH_STEPS as nat);
    lemma_run_ends(s, zone, off, limit, start, init, SEARCH_STEPS as nat);
    if let Some(t) = search_run(s, zone, limit, init, SEARCH_STEPS as nat) {
        lemma_date_time_at(t, 0, after.2);
        lemma_wall(zone, off, t);
        let ct = wall(zone, t);
        lemma_date_in_year(ct.0, ct.1, ct.2);
        lemma_years_apart(ct.0 + 1, (limit - ct.0) as nat);
    }
}

} // verus!
