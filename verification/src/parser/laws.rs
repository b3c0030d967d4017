//! Laws of parsing, stated with the fixed values the syntax documents: the
//! defaults of left-out fields, the day numbers of weekday names, what the
//! named descriptors spell out, that `@every` schedules move on by whole
//! seconds, and that a zone prefix sets the zone of the schedule.
use vstd::prelude::*;
use crate::constant_delay::{delay_next, every_delay, lemma_delay_next_later, lemma_every_delay};
use crate::duration::{duration_of, lemma_duration_of_view, max_total};
use crate::parser::{
    ascii_lower, body_value, calendar, descriptor_value, duration_scan, duration_value, field_acc,
    field_value, fields_schedule, first_named, has_zone_prefix, int_or_name, int_value,
    is_ascii_text, key_end, lemma_find_from_skip, lemma_unit_end, lower_text, month_names,
    normalize_text, parse_value, place_bit, range_value, star_mask, unit_end, unit_nanos,
    weekday_names, DurationScan, Outcome,
};
use crate::schedule::ParsedSchedule;
use crate::spec::SpecSchedule;
use crate::text::{
    digit_value, find_text, is_digit, is_space, scan_up, split_text, trim_end_text,
    trim_start_text, trim_text, IntError,
};
use crate::time::{earlier, in_range, zone_named, Location};

verus! {

/// The option bit that names field `i` (second, minute, hour, day of month,
/// month, day of week).
pub open spec fn field_bit(i: int) -> u32 {
    if i == 0 {
        1
    } else if i == 1 {
        4
    } else if i == 2 {
        8
    } else if i == 3 {
        16
    } else if i == 4 {
        32
    } else {
        64
    }
}

/// A field that the options leave out (neither named nor optional) reads as
/// `0` for the second, minute and hour, and as `*` for the day of the month,
/// the month and the day of the week.
pub proof fn lemma_left_out_field(fields: Seq<Seq<char>>, options: u32, i: int)
    requires
        0 <= i < 6,
        options & field_bit(i) == 0,
        i == 0 ==> options & 2 == 0,
        i == 5 ==> options & 128 == 0,
    ensures
        normalize_text(fields, options) matches Ok(f) ==> f.len() == 6 && f[i] == (if i < 3 {
            "0"@
        } else {
            "*"@
        }),
{
    let o1 = if options & 2 != 0 { options | 1 } else { options };
    let o2 = if o1 & 128 != 0 { o1 | 64 } else { o1 };
    let b = field_bit(i);
    assert(place_bit(i) == b);
    assert(o2 & b == 0) by (bit_vector)
        requires
            options & b == 0,
            b == 1 ==> options & 2 == 0,
            b == 64 ==> options & 128 == 0,
            b == 1 || b == 4 || b == 8 || b == 16 || b == 32 || b == 64,
            o1 == (if options & 2 != 0 { options | 1 } else { options }),
            o2 == (if o1 & 128 != 0 { o1 | 64 } else { o1 }),
    ;
}

/// A duration that reads without overflow is between zero and `i64::MAX`
/// nanoseconds.
proof fn lemma_scan_bound(s: Seq<char>, i: int, total: int, cur: int, has_digit: bool)
    requires
        0 <= total <= i64::MAX,
        0 <= cur <= i64::MAX,
    ensures
        duration_scan(s, i, total, cur, has_digit) matches DurationScan::Total(t) ==> 0 <= t <= i64::MAX,
    decreases s.len() - i,
{
    if i < 0 || i >= s.len() {
    } else if is_digit(s[i]) {
        let c2 = cur * 10 + digit_value(s[i]);
        if c2 <= i64::MAX {
            lemma_scan_bound(s, i + 1, total, c2, true);
        }
    } else if has_digit {
        lemma_unit_end(s, i);
        let j = unit_end(s, i);
        if let Some(m) = unit_nanos(s.subrange(i, j)) {
            if !(cur * m > i64::MAX || total + cur * m > i64::MAX) {
                assert(cur * m >= 0) by (nonlinear_arith)
                    requires
                        cur >= 0,
                        m >= 1,
                ;
                lemma_scan_bound(s, j, total + cur * m, 0, false);
            }
        }
    }
}

/// An `@every` descriptor waits at least a second, in whole seconds.
proof fn lemma_descriptor_every(d: Seq<char>, loc: Option<Location>)
    ensures
        descriptor_value(d, loc) matches Ok(ParsedSchedule::Every(c)) ==> c.delay@ >= 1_000_000_000
            && c.delay@ % 1_000_000_000 == 0,
{
    if let Ok(ParsedSchedule::Every(c)) = descriptor_value(d, loc) {
        let rest = d.subrange("@every "@.len() as int, d.len() as int);
        lemma_scan_bound(rest, 0, 0, 0, false);
        if let Ok(n) = duration_value(rest) {
            assert(0 <= n <= i64::MAX);
            lemma_every_delay(n);
            assert(every_delay(n) <= i64::MAX);
            assert(max_total() == i64::MAX as int * 1_000_000);
            lemma_duration_of_view(every_delay(n));
        }
    }
}

/// An expression's `@every` schedule comes from its descriptor.
proof fn lemma_body_every_at(options: u32, b: Seq<char>, loc: Option<Location>)
    ensures
        body_value(options, b, loc) matches Ok(ParsedSchedule::Every(c)) ==> c.delay@ >= 1_000_000_000
            && c.delay@ % 1_000_000_000 == 0,
{
    lemma_descriptor_every(b, loc);
}

proof fn lemma_body_every(options: u32, text: Seq<char>)
    ensures
        parse_value(options, text) matches Ok(ParsedSchedule::Every(c)) ==> c.delay@ >= 1_000_000_000
            && c.delay@ % 1_000_000_000 == 0,
{
    let s = trim_text(text);
    if s.len() > 0 && has_zone_prefix(s) {
        if let Some(sp) = find_text(s, ' ') {
            let name = s.subrange(key_end(s) + 1, sp);
            if let Some(l) = zone_named(name) {
                lemma_body_every_at(options, trim_text(s.subrange(sp, s.len() as int)), Some(l));
            }
        }
    } else {
        lemma_body_every_at(options, s, None);
    }
}

/// The schedule an expression stands for, when it is an `@every` schedule,
/// waits at least a second and a whole number of seconds; so from any time
/// its next activation comes strictly later, on a whole second.
pub proof fn lemma_every_moves_on(options: u32, text: Seq<char>, after: (int, int, u16))
    requires
        in_range(after.0),
        0 <= after.1 < 1_000_000_000,
    ensures
        parse_value(options, text) matches Ok(ParsedSchedule::Every(c)) ==> {
            &&& c.delay@ >= 1_000_000_000
            &&& c.delay@ % 1_000_000_000 == 0
            &&& delay_next(c.delay@, after) matches Some(t) ==> earlier(after, t@) && t@.1 == 0
        },
{
    if let Ok(ParsedSchedule::Every(c)) = parse_value(options, text) {
        lemma_body_every(options, text);
        lemma_delay_next_later(c.delay@, after);
    }
}


/// `r` with the zone of a calendar schedule set to `loc`; other outcomes
/// unchanged.
pub open spec fn with_location(r: Outcome<ParsedSchedule>, loc: Option<Location>) -> Outcome<ParsedSchedule> {
    match r {
        Ok(ParsedSchedule::Spec(s)) => Ok(ParsedSchedule::Spec(SpecSchedule { location: loc, ..s })),
        _ => r,
    }
}

/// The body of an expression, read in a zone, is the schedule it gives
/// without one, placed in that zone: descriptors and fields alike.
pub proof fn lemma_body_location(options: u32, b: Seq<char>, loc: Option<Location>)
    ensures
        body_value(options, b, loc) == with_location(body_value(options, b, None), loc),
{
}

/// A `TZ=<zone> ` prefix on an expression (a zone name without white space,
/// and a body that starts and ends with other characters and has no prefix
/// of its own) gives the schedule of the body, placed in that zone; an
/// unknown zone is refused.
pub proof fn lemma_zone_prefix_sets_zone(options: u32, zone: Seq<char>, b: Seq<char>)
    requires
        forall|i: int| 0 <= i < zone.len() ==> !is_space(#[trigger] zone[i]),
        b.len() > 0,
        !is_space(b[0]),
        !is_space(b.last()),
        !has_zone_prefix(b),
    ensures
        parse_value(options, "TZ="@ + zone + " "@ + b) == match zone_named(zone) {
            None => Err(Some("provided bad location "@ + zone)),
            Some(l) => with_location(parse_value(options, b), Some(l)),
        },
{
    reveal_strlit("TZ=");
    reveal_strlit(" ");
    let raw = "TZ="@ + zone + " "@ + b;
    let n = zone.len() as int;
    assert(raw[0] == 'T' && raw[1] == 'Z' && raw[2] == '=');
    assert(raw.last() == b.last());
    assert(trim_start_text(raw) == raw);
    assert(trim_end_text(raw) == raw);
    assert(trim_text(raw) == raw);
    assert(raw.subrange(0, 3) == "TZ="@);
    assert(has_zone_prefix(raw));
    lemma_find_from_skip(raw, '=', 0, 2);
    assert(key_end(raw) == 2);
    assert forall|j: int| 0 <= j < 3 + n implies raw[j] != ' ' by {
        if j >= 3 {
            assert(raw[j] == zone[j - 3]);
            assert(!is_space(zone[j - 3]));
        }
    }
    lemma_find_from_skip(raw, ' ', 0, 3 + n);
    assert(raw[3 + n] == ' ');
    assert(find_text(raw, ' ') == Some(3 + n));
    assert(raw.subrange(3, 3 + n) == zone);
    let rest = raw.subrange(3 + n, raw.len() as int);
    assert(rest == " "@ + b);
    assert(rest.drop_first() == b);
    assert(trim_start_text(b) == b);
    assert(trim_start_text(rest) == b);
    assert(trim_end_text(b) == b);
    assert(trim_text(rest) == b);
    assert(trim_text(b) == b);
    lemma_body_location(options, b, None);
    if let Some(l) = zone_named(zone) {
        lemma_body_location(options, b, Some(l));
    }
}

/// Splitting a text without the separator gives the text itself.
proof fn lemma_plain_split(x: Seq<char>, c: char)
    requires
        forall|i: int| 0 <= i < x.len() ==> #[trigger] x[i] != c,
    ensures
        split_text(x, c) == seq![x],
    decreases x.len(),
{
    if x.len() > 0 {
        lemma_plain_split(x.drop_last(), c);
        assert(x.last() == x[x.len() - 1]);
        assert(x.last() != c);
        assert(x.drop_last().push(x.last()) =~= x);
        assert(seq![x.drop_last()].update(0, x.drop_last().push(x.last())) =~= seq![x]);
        assert(split_text(x, c) == seq![x.drop_last()].update(0, x.drop_last().push(x.last())));
    } else {
        assert(x =~= Seq::<char>::empty());
    }
}

/// A field written as one value (a number or a name) sets exactly that
/// value's bit.
proof fn lemma_single_field(x: Seq<char>, min: u32, max: u32, names: Option<Seq<(Seq<char>, u32)>>, v: u32)
    requires
        forall|i: int| 0 <= i < x.len() ==> #[trigger] x[i] != ',' && x[i] != '/' && x[i] != '-',
        x != "*"@,
        x != "?"@,
        int_or_name(x, names) == Ok::<u32, Option<Seq<char>>>(v),
        min <= v <= max < 64,
    ensures
        field_value(x, min, max, names) == Ok::<u64, Option<Seq<char>>>(1u64 << v),
{
    lemma_plain_split(x, ',');
    lemma_plain_split(x, '/');
    lemma_plain_split(x, '-');
    let vv = v as u64;
    assert((0u64 | (1u64 << vv)) | 0u64 == 1u64 << vv && 0u64 | (1u64 << vv) == 1u64 << vv) by (bit_vector)
        requires
            vv < 64,
    ;
    assert(range_value(x, min, max, names) == Ok::<u64, Option<Seq<char>>>(1u64 << v));
    assert(field_acc(seq![x], 1, 0u64 | (1u64 << v), min, max, names) == Ok::<u64, Option<Seq<char>>>(
        1u64 << v,
    ));
}

/// The number of a day of the week, from Sunday, written in lower case.
pub open spec fn weekday_word(k: int) -> Seq<char> {
    if k == 0 {
        "sun"@
    } else if k == 1 {
        "mon"@
    } else if k == 2 {
        "tue"@
    } else if k == 3 {
        "wed"@
    } else if k == 4 {
        "thu"@
    } else if k == 5 {
        "fri"@
    } else {
        "sat"@
    }
}

proof fn lemma_weekday_lookup(k: int)
    requires
        0 <= k < 7,
    ensures
        first_named(weekday_names(), weekday_word(k), 0) == Some(k as u32),
{
    reveal_strlit("sun");
    reveal_strlit("mon");
    reveal_strlit("tue");
    reveal_strlit("wed");
    reveal_strlit("thu");
    reveal_strlit("fri");
    reveal_strlit("sat");
    let l = weekday_names();
    let w = weekday_word(k);
    assert forall|j: int| 0 <= j < k implies #[trigger] l[j].0 != w by {
        if j == 0 {
            assert(l[j].0[0] != w[0] || l[j].0[1] != w[1]);
        } else if j == 1 {
            assert(l[j].0[0] != w[0]);
        } else if j == 2 {
            assert(l[j].0[0] != w[0] || l[j].0[1] != w[1]);
        } else if j == 3 {
            assert(l[j].0[0] != w[0]);
        } else if j == 4 {
            assert(l[j].0[0] != w[0]);
        } else {
            assert(l[j].0[0] != w[0]);
        }
    }
    assert(l[k].0 == w && l[k].1 == k as u32);
    lemma_first_named_at(l, w, 0, k);
}

/// A lookup from `j` finds the entry at `k` when no entry before it, from
/// `j` on, has the name.
proof fn lemma_first_named_at(l: Seq<(Seq<char>, u32)>, w: Seq<char>, j: int, k: int)
    requires
        0 <= j <= k < l.len(),
        forall|i: int| j <= i < k ==> #[trigger] l[i].0 != w,
        l[k].0 == w,
    ensures
        first_named(l, w, j) == Some(l[k].1),
    decreases k - j,
{
    if j < k {
        lemma_first_named_at(l, w, j + 1, k);
    }
}

/// Each day-of-week name, in any case, stands for its day's number from
/// Sunday (`sun` 0, `mon` 1, `tue` 2, `wed` 3, `thu` 4, `fri` 5, `sat` 6): a
/// weekday field written as a name selects exactly that day.
pub proof fn lemma_weekday_names(f: Seq<Seq<char>>, loc: Option<Location>, k: int)
    requires
        f.len() == 6,
        0 <= k < 7,
        is_ascii_text(f[5]),
        lower_text(f[5]) == weekday_word(k),
    ensures
        field_value(f[5], 0, 6, Some(weekday_names())) == Ok::<u64, Option<Seq<char>>>(1u64 << (k as u64)),
        fields_schedule(f, loc) matches Ok(ParsedSchedule::Spec(s)) ==> s.dow == 1u64 << (k as u64),
{
    reveal_strlit("sun");
    reveal_strlit("mon");
    reveal_strlit("tue");
    reveal_strlit("wed");
    reveal_strlit("thu");
    reveal_strlit("fri");
    reveal_strlit("sat");
    let x = f[5];
    let w = weekday_word(k);
    assert(w.len() == 3);
    assert(lower_text(x) == x.map_values(|c: char| ascii_lower(c)));
    assert(x.len() == 3);
    assert forall|i: int| 0 <= i < x.len() implies #[trigger] x[i] != ',' && x[i] != '/' && x[i] != '-' by {
        assert(lower_text(x)[i] == ascii_lower(x[i]));
        assert(97 <= (w[i] as u32) <= 122);
    }
    assert(x != "*"@ && x != "?"@) by {
        reveal_strlit("*");
        reveal_strlit("?");
    }
    lemma_weekday_lookup(k);
    assert(int_or_name(x, Some(weekday_names())) == Ok::<u32, Option<Seq<char>>>(k as u32));
    lemma_single_field(x, 0, 6, Some(weekday_names()), k as u32);
}

/// A lookup finds nothing when every name differs in length from the key.
proof fn lemma_no_name_of_length(l: Seq<(Seq<char>, u32)>, key: Seq<char>, i: int)
    requires
        forall|j: int| 0 <= j < l.len() ==> (#[trigger] l[j]).0.len() != key.len(),
    ensures
        first_named(l, key, i) is None,
    decreases l.len() - i,
{
    if 0 <= i < l.len() {
        lemma_no_name_of_length(l, key, i + 1);
    }
}

/// The month and weekday names are three letters long.
proof fn lemma_name_lengths()
    ensures
        forall|j: int| 0 <= j < month_names().len() ==> (#[trigger] month_names()[j]).0.len() == 3,
        forall|j: int| 0 <= j < weekday_names().len() ==> (#[trigger] weekday_names()[j]).0.len() == 3,
{
    reveal_strlit("jan");
    reveal_strlit("feb");
    reveal_strlit("mar");
    reveal_strlit("apr");
    reveal_strlit("may");
    reveal_strlit("jun");
    reveal_strlit("jul");
    reveal_strlit("aug");
    reveal_strlit("sep");
    reveal_strlit("oct");
    reveal_strlit("nov");
    reveal_strlit("dec");
    reveal_strlit("sun");
    reveal_strlit("mon");
    reveal_strlit("tue");
    reveal_strlit("wed");
    reveal_strlit("thu");
    reveal_strlit("fri");
    reveal_strlit("sat");
}

/// A field written as the digit `0` or `1` sets exactly that value's bit.
proof fn lemma_digit_field(x: Seq<char>, v: u32, min: u32, max: u32, names: Option<Seq<(Seq<char>, u32)>>)
    requires
        (x == "0"@ && v == 0) || (x == "1"@ && v == 1),
        min <= v <= max < 64,
        names matches Some(l) ==> forall|j: int| 0 <= j < l.len() ==> (#[trigger] l[j]).0.len() == 3,
    ensures
        field_value(x, min, max, names) == Ok::<u64, Option<Seq<char>>>(1u64 << v),
{
    reveal_strlit("0");
    reveal_strlit("1");
    reveal_strlit("*");
    reveal_strlit("?");
    assert(x.len() == 1);
    assert(is_digit(x[0]) && digit_value(x[0]) == v as int);
    assert(scan_up(x, 1, v as int) == Ok::<int, IntError>(v as int));
    assert(scan_up(x, 0, 0) == Ok::<int, IntError>(v as int));
    assert(int_value(x) == Ok::<u32, Option<Seq<char>>>(v));
    assert(is_ascii_text(x));
    assert(lower_text(x).len() == 1);
    if let Some(l) = names {
        lemma_no_name_of_length(l, lower_text(x), 0);
    }
    assert(int_or_name(x, names) == Ok::<u32, Option<Seq<char>>>(v));
    assert(x != "*"@ && x != "?"@) by {
        assert(x[0] != "*"@[0]);
        assert(x[0] != "?"@[0]);
    }
    lemma_single_field(x, min, max, names, v);
}

/// The field `*` sets every value of the range, with the star bit.
proof fn lemma_star_field(min: u32, max: u32, names: Option<Seq<(Seq<char>, u32)>>)
    requires
        min <= max,
    ensures
        field_value("*"@, min, max, names) == Ok::<u64, Option<Seq<char>>>(
            star_mask(min as int, max as int),
        ),
{
    reveal_strlit("*");
    let x = "*"@;
    assert(x.len() == 1);
    lemma_plain_split(x, ',');
    lemma_plain_split(x, '/');
    lemma_plain_split(x, '-');
    let m = star_mask(min as int, max as int);
    assert(0u64 | m == m) by (bit_vector);
    assert(range_value(x, min, max, names) == Ok::<u64, Option<Seq<char>>>(m));
    assert(field_acc(seq![x], 1, 0u64 | m, min, max, names) == Ok::<u64, Option<Seq<char>>>(m));
}

/// Each named descriptor is the six-field expression that it abbreviates:
/// `@yearly` and `@annually` are `0 0 0 1 1 *`, `@monthly` is `0 0 0 1 * *`,
/// `@weekly` is `0 0 0 * * 0`, `@daily` and `@midnight` are `0 0 0 * * *`,
/// and `@hourly` is `0 0 * * * *`, each read in the same location.
pub proof fn lemma_descriptors_spelled_out(loc: Option<Location>)
    ensures
        descriptor_value("@yearly"@, loc) == fields_schedule(
            seq!["0"@, "0"@, "0"@, "1"@, "1"@, "*"@],
            loc,
        ),
        descriptor_value("@annually"@, loc) == fields_schedule(
            seq!["0"@, "0"@, "0"@, "1"@, "1"@, "*"@],
            loc,
        ),
        descriptor_value("@monthly"@, loc) == fields_schedule(
            seq!["0"@, "0"@, "0"@, "1"@, "*"@, "*"@],
            loc,
        ),
        descriptor_value("@weekly"@, loc) == fields_schedule(
            seq!["0"@, "0"@, "0"@, "*"@, "*"@, "0"@],
            loc,
        ),
        descriptor_value("@daily"@, loc) == fields_schedule(
            seq!["0"@, "0"@, "0"@, "*"@, "*"@, "*"@],
            loc,
        ),
        descriptor_value("@midnight"@, loc) == fields_schedule(
            seq!["0"@, "0"@, "0"@, "*"@, "*"@, "*"@],
            loc,
        ),
        descriptor_value("@hourly"@, loc) == fields_schedule(
            seq!["0"@, "0"@, "*"@, "*"@, "*"@, "*"@],
            loc,
        ),
{
    lemma_descriptor_calendars(loc);
    lemma_yearly_fields(loc);
    lemma_monthly_fields(loc);
    lemma_weekly_fields(loc);
    lemma_daily_fields(loc);
    lemma_hourly_fields(loc);
}

/// The calendar schedules the named descriptors stand for.
proof fn lemma_descriptor_calendars(loc: Option<Location>)
    ensures
        descriptor_value("@yearly"@, loc) == Ok::<ParsedSchedule, Option<Seq<char>>>(
            calendar(1, 1, 1, 2, 2, star_mask(0, 6), loc),
        ),
        descriptor_value("@annually"@, loc) == Ok::<ParsedSchedule, Option<Seq<char>>>(
            calendar(1, 1, 1, 2, 2, star_mask(0, 6), loc),
        ),
        descriptor_value("@monthly"@, loc) == Ok::<ParsedSchedule, Option<Seq<char>>>(
            calendar(1, 1, 1, 2, star_mask(1, 12), star_mask(0, 6), loc),
        ),
        descriptor_value("@weekly"@, loc) == Ok::<ParsedSchedule, Option<Seq<char>>>(
            calendar(1, 1, 1, star_mask(1, 31), star_mask(1, 12), 1, loc),
        ),
        descriptor_value("@daily"@, loc) == Ok::<ParsedSchedule, Option<Seq<char>>>(
            calendar(1, 1, 1, star_mask(1, 31), star_mask(1, 12), star_mask(0, 6), loc),
        ),
        descriptor_value("@midnight"@, loc) == Ok::<ParsedSchedule, Option<Seq<char>>>(
            calendar(1, 1, 1, star_mask(1, 31), star_mask(1, 12), star_mask(0, 6), loc),
        ),
        descriptor_value("@hourly"@, loc) == Ok::<ParsedSchedule, Option<Seq<char>>>(
            calendar(1, 1, star_mask(0, 23), star_mask(1, 31), star_mask(1, 12), star_mask(0, 6), loc),
        ),
{
    lemma_descriptor_words();
}

/// The calendar schedule of the fields `0 0 0 1 1 *`.
proof fn lemma_yearly_fields(loc: Option<Location>)
    ensures
        fields_schedule(seq!["0"@, "0"@, "0"@, "1"@, "1"@, "*"@], loc)
            == Ok::<ParsedSchedule, Option<Seq<char>>>(
            calendar(1, 1, 1, 2, 2, star_mask(0, 6), loc),
        ),
{
    let z = "0"@;
    let o = "1"@;
    let st = "*"@;
    let wd = star_mask(0, 6);
    lemma_name_lengths();
    assert(1u64 << 0u64 == 1u64 && 1u64 << 1u64 == 2u64) by (bit_vector);
    lemma_digit_field(z, 0, 0, 59, None);
    lemma_digit_field(z, 0, 0, 23, None);
    lemma_digit_field(o, 1, 1, 31, None);
    lemma_digit_field(o, 1, 1, 12, Some(month_names()));
    lemma_star_field(0, 6, Some(weekday_names()));
    lemma_six_fields(seq![z, z, z, o, o, st], loc, 1, 1, 1, 2, 2, wd);
}

/// The calendar schedule of the fields `0 0 0 1 * *`.
proof fn lemma_monthly_fields(loc: Option<Location>)
    ensures
        fields_schedule(seq!["0"@, "0"@, "0"@, "1"@, "*"@, "*"@], loc)
            == Ok::<ParsedSchedule, Option<Seq<char>>>(
            calendar(1, 1, 1, 2, star_mask(1, 12), star_mask(0, 6), loc),
        ),
{
    let z = "0"@;
    let o = "1"@;
    let st = "*"@;
    let mon = star_mask(1, 12);
    let wd = star_mask(0, 6);
    assert(1u64 << 0u64 == 1u64 && 1u64 << 1u64 == 2u64) by (bit_vector);
    lemma_digit_field(z, 0, 0, 59, None);
    lemma_digit_field(z, 0, 0, 23, None);
    lemma_digit_field(o, 1, 1, 31, None);
    lemma_star_field(1, 12, Some(month_names()));
    lemma_star_field(0, 6, Some(weekday_names()));
    lemma_six_fields(seq![z, z, z, o, st, st], loc, 1, 1, 1, 2, mon, wd);
}

/// The calendar schedule of the fields `0 0 0 * * 0`.
proof fn lemma_weekly_fields(loc: Option<Location>)
    ensures
        fields_schedule(seq!["0"@, "0"@, "0"@, "*"@, "*"@, "0"@], loc)
            == Ok::<ParsedSchedule, Option<Seq<char>>>(
            calendar(1, 1, 1, star_mask(1, 31), star_mask(1, 12), 1, loc),
        ),
{
    let z = "0"@;
    let st = "*"@;
    let day = star_mask(1, 31);
    let mon = star_mask(1, 12);
    lemma_name_lengths();
    assert(1u64 << 0u64 == 1u64 && 1u64 << 1u64 == 2u64) by (bit_vector);
    lemma_digit_field(z, 0, 0, 59, None);
    lemma_digit_field(z, 0, 0, 23, None);
    lemma_star_field(1, 31, None);
    lemma_star_field(1, 12, Some(month_names()));
    lemma_digit_field(z, 0, 0, 6, Some(weekday_names()));
    lemma_six_fields(seq![z, z, z, st, st, z], loc, 1, 1, 1, day, mon, 1);
}

/// The calendar schedule of the fields `0 0 0 * * *`.
proof fn lemma_daily_fields(loc: Option<Location>)
    ensures
        fields_schedule(seq!["0"@, "0"@, "0"@, "*"@, "*"@, "*"@], loc)
            == Ok::<ParsedSchedule, Option<Seq<char>>>(
            calendar(1, 1, 1, star_mask(1, 31), star_mask(1, 12), star_mask(0, 6), loc),
        ),
{
    let z = "0"@;
    let st = "*"@;
    let day = star_mask(1, 31);
    let mon = star_mask(1, 12);
    let wd = star_mask(0, 6);
    assert(1u64 << 0u64 == 1u64 && 1u64 << 1u64 == 2u64) by (bit_vector);
    lemma_digit_field(z, 0, 0, 59, None);
    lemma_digit_field(z, 0, 0, 23, None);
    lemma_star_field(1, 31, None);
    lemma_star_field(1, 12, Some(month_names()));
    lemma_star_field(0, 6, Some(weekday_names()));
    lemma_six_fields(seq![z, z, z, st, st, st], loc, 1, 1, 1, day, mon, wd);
}

/// The calendar schedule of the fields `0 0 * * * *`.
proof fn lemma_hourly_fields(loc: Option<Location>)
    ensures
        fields_schedule(seq!["0"@, "0"@, "*"@, "*"@, "*"@, "*"@], loc)
            == Ok::<ParsedSchedule, Option<Seq<char>>>(
            calendar(1, 1, star_mask(0, 23), star_mask(1, 31), star_mask(1, 12), star_mask(0, 6), loc),
        ),
{
    let z = "0"@;
    let st = "*"@;
    let day = star_mask(1, 31);
    let mon = star_mask(1, 12);
    let wd = star_mask(0, 6);
    let hr = star_mask(0, 23);
    assert(1u64 << 0u64 == 1u64 && 1u64 << 1u64 == 2u64) by (bit_vector);
    lemma_digit_field(z, 0, 0, 59, None);
    lemma_star_field(0, 23, None);
    lemma_star_field(1, 31, None);
    lemma_star_field(1, 12, Some(month_names()));
    lemma_star_field(0, 6, Some(weekday_names()));
    lemma_six_fields(seq![z, z, st, st, st, st], loc, 1, 1, hr, day, mon, wd);
}

/// The descriptor words differ from one another.
proof fn lemma_descriptor_words()
    ensures
        "@monthly"@ != "@yearly"@ && "@monthly"@ != "@annually"@,
        "@weekly"@ != "@yearly"@ && "@weekly"@ != "@annually"@ && "@weekly"@ != "@monthly"@,
        "@daily"@ != "@yearly"@ && "@daily"@ != "@annually"@ && "@daily"@ != "@monthly"@ && "@daily"@
            != "@weekly"@,
        "@midnight"@ != "@yearly"@ && "@midnight"@ != "@annually"@ && "@midnight"@ != "@monthly"@
            && "@midnight"@ != "@weekly"@,
        "@hourly"@ != "@yearly"@ && "@hourly"@ != "@annually"@ && "@hourly"@ != "@monthly"@
            && "@hourly"@ != "@weekly"@ && "@hourly"@ != "@daily"@ && "@hourly"@ != "@midnight"@,
{
    reveal_strlit("@yearly");
    reveal_strlit("@annually");
    reveal_strlit("@monthly");
    reveal_strlit("@weekly");
    reveal_strlit("@daily");
    reveal_strlit("@midnight");
    reveal_strlit("@hourly");
    assert("@weekly"@[1] != "@yearly"@[1]);
    assert("@daily"@[1] != "@annually"@[1]);
    assert("@midnight"@[1] != "@annually"@[1]);
    assert("@midnight"@.len() == 9 && "@yearly"@.len() == 7 && "@monthly"@.len() == 8);
    assert("@weekly"@.len() == 7 && "@daily"@.len() == 6 && "@hourly"@.len() == 7);
    assert("@hourly"@[1] != "@yearly"@[1] && "@hourly"@[1] != "@weekly"@[1]);
}

/// Six fields with the given bits make the calendar schedule of those bits.
proof fn lemma_six_fields(
    f: Seq<Seq<char>>,
    loc: Option<Location>,
    second: u64,
    minute: u64,
    hour: u64,
    dom: u64,
    month: u64,
    dow: u64,
)
    requires
        f.len() == 6,
        field_value(f[0], 0, 59, None) == Ok::<u64, Option<Seq<char>>>(second),
        field_value(f[1], 0, 59, None) == Ok::<u64, Option<Seq<char>>>(minute),
        field_value(f[2], 0, 23, None) == Ok::<u64, Option<Seq<char>>>(hour),
        field_value(f[3], 1, 31, None) == Ok::<u64, Option<Seq<char>>>(dom),
        field_value(f[4], 1, 12, Some(month_names())) == Ok::<u64, Option<Seq<char>>>(month),
        field_value(f[5], 0, 6, Some(weekday_names())) == Ok::<u64, Option<Seq<char>>>(dow),
    ensures
        fields_schedule(f, loc) == Ok::<ParsedSchedule, Option<Seq<char>>>(
            calendar(second, minute, hour, dom, month, dow, loc),
        ),
{
}

} // verus!
