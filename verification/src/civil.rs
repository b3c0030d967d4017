//! The proleptic Gregorian calendar, counted in days and seconds from
//! 1970-01-01T00:00:00, and the facts about it that the laws of the
//! schedules rest on: a later reading is a later second, and a second has
//! one reading.
use vstd::prelude::*;
use vstd::arithmetic::div_mod::{lemma_fundamental_div_mod, lemma_fundamental_div_mod_converse};

verus! {

/// `y` is a leap year.
pub open spec fn is_leap(y: int) -> bool {
    (y % 4 == 0 && y % 100 != 0) || y % 400 == 0
}

/// The number of days of month `m` (1 to 12) of year `y`.
pub open spec fn month_len(y: int, m: int) -> int {
    if m == 2 {
        if is_leap(y) { 29 } else { 28 }
    } else if m == 4 || m == 6 || m == 9 || m == 11 {
        30
    } else {
        31
    }
}

/// `y-m-d` is a date.
pub open spec fn valid_date(y: int, m: int, d: int) -> bool {
    1 <= m <= 12 && 1 <= d <= month_len(y, m)
}

/// `h:mi:s` is a time of day.
pub open spec fn valid_time(h: int, mi: int, s: int) -> bool {
    0 <= h < 24 && 0 <= mi < 60 && 0 <= s < 60
}

/// The days of year `y` before the first of month `m`.
pub open spec fn days_before_month(y: int, m: int) -> int {
    let base: int = if m <= 1 {
        0
    } else if m == 2 {
        31
    } else if m == 3 {
        59
    } else if m == 4 {
        90
    } else if m == 5 {
        120
    } else if m == 6 {
        151
    } else if m == 7 {
        181
    } else if m == 8 {
        212
    } else if m == 9 {
        243
    } else if m == 10 {
        273
    } else if m == 11 {
        304
    } else {
        334
    };
    if m > 2 && is_leap(y) { base + 1 } else { base }
}

/// The leap years before year `y`, counted from an era far back.
pub open spec fn leaps_before(y: int) -> int {
    (y - 1) / 4 - (y - 1) / 100 + (y - 1) / 400
}

/// The day number of the first of January of year `y`.
pub open spec fn days_before_year(y: int) -> int {
    365 * (y - 1970) + leaps_before(y) - leaps_before(1970)
}

/// The day number of `y-m-d`: days since 1970-01-01.
pub open spec fn day_number(y: int, m: int, d: int) -> int {
    days_before_year(y) + days_before_month(y, m) + d - 1
}

/// The second number of `y-m-d h:mi:s`: seconds since 1970-01-01T00:00:00.
pub open spec fn second_number(y: int, m: int, d: int, h: int, mi: int, s: int) -> int {
    day_number(y, m, d) * 86400 + h * 3600 + mi * 60 + s
}

/// The day of the week of day number `n`, from Sunday (1970-01-01 was a
/// Thursday).
pub open spec fn weekday_of(n: int) -> int {
    (n + 4) % 7
}

/// A wall-clock reading: year, month, day, hour, minute, second, and day of
/// the week.
pub type Reading = (int, int, int, int, int, int, int);

/// The reading is a date and a time of day, with the right day of the week.
pub open spec fn valid_reading(c: Reading) -> bool {
    &&& valid_date(c.0, c.1, c.2)
    &&& valid_time(c.3, c.4, c.5)
    &&& c.6 == weekday_of(day_number(c.0, c.1, c.2))
}

/// The second number of a reading.
pub open spec fn reading_second(c: Reading) -> int {
    second_number(c.0, c.1, c.2, c.3, c.4, c.5)
}

/// `a` comes before `b`, field by field from the year down to the second.
pub open spec fn lex_before(a: (int, int, int, int, int, int), b: (int, int, int, int, int, int)) -> bool {
    ||| a.0 < b.0
    ||| a.0 == b.0 && a.1 < b.1
    ||| a.0 == b.0 && a.1 == b.1 && a.2 < b.2
    ||| a.0 == b.0 && a.1 == b.1 && a.2 == b.2 && a.3 < b.3
    ||| a.0 == b.0 && a.1 == b.1 && a.2 == b.2 && a.3 == b.3 && a.4 < b.4
    ||| a.0 == b.0 && a.1 == b.1 && a.2 == b.2 && a.3 == b.3 && a.4 == b.4 && a.5 < b.5
}

proof fn lemma_div_step(y: int, k: int)
    requires
        k > 0,
    ensures
        y / k - (y - 1) / k == (if y % k == 0 { 1int } else { 0int }),
{
    lemma_fundamental_div_mod(y, k);
    let q = y / k;
    let r = y % k;
    if r == 0 {
        assert((q - 1) * k + (k - 1) == y - 1) by (nonlinear_arith)
            requires
                y == k * q + r,
                r == 0,
        ;
        lemma_fundamental_div_mod_converse(y - 1, k, q - 1, k - 1);
    } else {
        assert(q * k + (r - 1) == y - 1) by (nonlinear_arith)
            requires
                y == k * q + r,
        ;
        lemma_fundamental_div_mod_converse(y - 1, k, q, r - 1);
    }
}

proof fn lemma_divides(y: int)
    ensures
        y % 400 == 0 ==> y % 100 == 0,
        y % 100 == 0 ==> y % 4 == 0,
{
    lemma_fundamental_div_mod(y, 400);
    lemma_fundamental_div_mod(y, 100);
    if y % 400 == 0 {
        lemma_fundamental_div_mod_converse(y, 100, 4 * (y / 400), 0);
    }
    if y % 100 == 0 {
        lemma_fundamental_div_mod_converse(y, 4, 25 * (y / 100), 0);
    }
}

/// A year has 365 days, 366 in a leap year.
pub proof fn lemma_year_len(y: int)
    ensures
        days_before_year(y + 1) == days_before_year(y) + 365 + (if is_leap(y) { 1int } else { 0int }),
{
    lemma_div_step(y, 4);
    lemma_div_step(y, 100);
    lemma_div_step(y, 400);
    lemma_divides(y);
}

/// Years later by `k` start between `365 k` and `366 k` days later.
pub proof fn lemma_years_apart(y: int, k: nat)
    ensures
        days_before_year(y) + 365 * k <= days_before_year(y + k) <= days_before_year(y) + 366 * k,
    decreases k,
{
    if k > 0 {
        lemma_years_apart(y, (k - 1) as nat);
        lemma_year_len(y + k - 1);
    }
}

/// Months follow each other without gaps.
pub proof fn lemma_month_next(y: int, m: int)
    requires
        1 <= m <= 12,
    ensures
        m < 12 ==> days_before_month(y, m + 1) == days_before_month(y, m) + month_len(y, m),
        m == 12 ==> days_before_year(y) + days_before_month(y, m) + month_len(y, m) == days_before_year(y + 1),
        28 <= month_len(y, m) <= 31,
{
    lemma_year_len(y);
}

/// A later month of the same year starts at least as late as the day after
/// the end of an earlier one.
proof fn lemma_month_order(y: int, m1: int, m2: int)
    requires
        1 <= m1 < m2 <= 12,
    ensures
        days_before_month(y, m1) + month_len(y, m1) <= days_before_month(y, m2),
    decreases m2 - m1,
{
    lemma_month_next(y, m1);
    if m1 + 1 < m2 {
        lemma_month_order(y, m1 + 1, m2);
        lemma_month_next(y, m1 + 1);
    }
}

/// A date's day number lies within its year.
pub proof fn lemma_date_in_year(y: int, m: int, d: int)
    requires
        valid_date(y, m, d),
    ensures
        days_before_year(y) <= day_number(y, m, d) < days_before_year(y + 1),
{
    lemma_month_next(y, 12);
    if m < 12 {
        lemma_month_order(y, m, 12);
    }
}

/// A later date has a larger day number.
pub proof fn lemma_date_order(y1: int, m1: int, d1: int, y2: int, m2: int, d2: int)
    requires
        valid_date(y1, m1, d1),
        valid_date(y2, m2, d2),
        y1 < y2 || (y1 == y2 && m1 < m2) || (y1 == y2 && m1 == m2 && d1 < d2),
    ensures
        day_number(y1, m1, d1) < day_number(y2, m2, d2),
{
    if y1 < y2 {
        lemma_date_in_year(y1, m1, d1);
        lemma_date_in_year(y2, m2, d2);
        lemma_years_apart(y1 + 1, (y2 - y1 - 1) as nat);
    } else if m1 < m2 {
        lemma_month_order(y1, m1, m2);
    }
}

/// A later reading is a later second.
pub proof fn lemma_reading_order(a: (int, int, int, int, int, int), b: (int, int, int, int, int, int))
    requires
        valid_date(a.0, a.1, a.2) && valid_time(a.3, a.4, a.5),
        valid_date(b.0, b.1, b.2) && valid_time(b.3, b.4, b.5),
        lex_before(a, b),
    ensures
        second_number(a.0, a.1, a.2, a.3, a.4, a.5) < second_number(b.0, b.1, b.2, b.3, b.4, b.5),
{
    let da = day_number(a.0, a.1, a.2);
    let db = day_number(b.0, b.1, b.2);
    if a.0 < b.0 || (a.0 == b.0 && a.1 < b.1) || (a.0 == b.0 && a.1 == b.1 && a.2 < b.2) {
        lemma_date_order(a.0, a.1, a.2, b.0, b.1, b.2);
        assert(da * 86400 + 86400 <= db * 86400) by (nonlinear_arith)
            requires
                da < db,
        ;
    }
}

/// The day number and the time of day of a second number.
pub proof fn lemma_second_parts(y: int, m: int, d: int, h: int, mi: int, s: int)
    requires
        valid_time(h, mi, s),
    ensures
        second_number(y, m, d, h, mi, s) / 86400 == day_number(y, m, d),
        second_number(y, m, d, h, mi, s) % 86400 == h * 3600 + mi * 60 + s,
{
    lemma_fundamental_div_mod_converse(
        second_number(y, m, d, h, mi, s),
        86400,
        day_number(y, m, d),
        h * 3600 + mi * 60 + s,
    );
}

/// Two dates with the same day number are the same date.
pub proof fn lemma_date_unique(y1: int, m1: int, d1: int, y2: int, m2: int, d2: int)
    requires
        valid_date(y1, m1, d1),
        valid_date(y2, m2, d2),
        day_number(y1, m1, d1) == day_number(y2, m2, d2),
    ensures
        y1 == y2 && m1 == m2 && d1 == d2,
{
    if y1 < y2 || (y1 == y2 && m1 < m2) || (y1 == y2 && m1 == m2 && d1 < d2) {
        lemma_date_order(y1, m1, d1, y2, m2, d2);
    } else if y2 < y1 || (y1 == y2 && m2 < m1) || (y1 == y2 && m1 == m2 && d2 < d1) {
        lemma_date_order(y2, m2, d2, y1, m1, d1);
    }
}

/// The day after a date is the next day of the same month, or the first of
/// a month.
pub proof fn lemma_next_day(y1: int, m1: int, d1: int, y2: int, m2: int, d2: int)
    requires
        valid_date(y1, m1, d1),
        valid_date(y2, m2, d2),
        day_number(y2, m2, d2) == day_number(y1, m1, d1) + 1,
    ensures
        d2 == 1 || (y2 == y1 && m2 == m1 && d2 == d1 + 1),
{
    if d1 < month_len(y1, m1) {
        lemma_date_unique(y1, m1, d1 + 1, y2, m2, d2);
    } else if m1 < 12 {
        lemma_month_next(y1, m1);
        lemma_date_unique(y1, m1 + 1, 1, y2, m2, d2);
    } else {
        lemma_month_next(y1, m1);
        lemma_date_unique(y1 + 1, 1, 1, y2, m2, d2);
    }
}

} // verus!
