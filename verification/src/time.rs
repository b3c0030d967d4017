//! Instants in time zones of the IANA database.
//!
//! An instant is counted in whole seconds since 1970-01-01T00:00:00Z plus
//! nanoseconds, over the range of years that `chrono` supports. What the
//! wall clock reads at an instant, and which instants a wall-clock reading
//! names, come from the `chrono-tz` database through the trusted functions
//! at the end of this file.
use vstd::prelude::*;
#[allow(unused_imports)]
use chrono::{Datelike, TimeZone, Timelike};
use crate::duration::{Duration, NANOS_PER_SEC};
use crate::civil::{day_number, reading_second, valid_date, valid_reading, valid_time, weekday_of};
use crate::fixed_zone::fixed_offset;

verus! {

/// The number of time zones in the `chrono-tz` database.
pub const ZONE_COUNT: u16 = 597;

/// The first second that `chrono` can represent: -262143-01-01T00:00:00Z.
pub const MIN_TIMESTAMP: i64 = -8334601228800;

/// The last second that `chrono` can represent: +262142-12-31T23:59:59Z.
pub const MAX_TIMESTAMP: i64 = 8210266876799;

/// A time zone of the IANA database, identified by its position in
/// `chrono_tz::TZ_VARIANTS`.
#[derive(Clone, Copy, Debug, PartialEq, Eq, Hash)]
pub struct Location {
    id: u16,
}

impl View for Location {
    type V = u16;

    closed spec fn view(&self) -> u16 {
        self.id
    }
}

/// The location with position `id`.
pub closed spec fn location_at(id: u16) -> Location {
    Location { id }
}

/// A location is determined by its position.
pub broadcast proof fn lemma_location_view(l: Location)
    ensures
        #[trigger] location_at(l@) == l,
{
}

/// The position of a location built from a position.
pub broadcast proof fn lemma_location_at(id: u16)
    ensures
        #[trigger] location_at(id)@ == id,
{
}

/// The location that the database finds for `name`, if any.
pub open spec fn zone_named(name: Seq<char>) -> Option<Location> {
    match zone_by_name(name) {
        Some(i) => Some(location_at(i)),
        None => None,
    }
}

impl Location {
    #[verifier::type_invariant]
    spec fn inv(self) -> bool {
        self.id < ZONE_COUNT
    }

    /// The time zone named `name` in the IANA database.
    pub fn from_name(name: &str) -> (r: Option<Location>)
        ensures
            r == zone_named(name@),
            r is None ==> name@ != "UTC"@,
            r matches Some(l) ==> (name@ == "UTC"@ ==> l@ == 592),
            r matches Some(l) ==> (single_span_offset(l@) matches Some(off) ==> fixed_offset(l@, off)),
    {
        lookup_zone(name)
    }

    /// The position of this zone in the database.
    pub fn index(&self) -> (i: u16)
        ensures
            i == self@,
            i < ZONE_COUNT,
    {
        proof {
            use_type_invariant(self);
        }
        self.id
    }
}

/// What a wall clock in some zone reads at some instant.
#[derive(Clone, Copy, Debug, PartialEq, Eq)]
pub struct CivilTime {
    pub year: i32,
    /// 1 to 12.
    pub month: u32,
    /// 1 to 31.
    pub day: u32,
    /// 0 to 23.
    pub hour: u32,
    /// 0 to 59.
    pub minute: u32,
    /// 0 to 59.
    pub second: u32,
    /// Days since Sunday, 0 to 6.
    pub weekday: u32,
}

impl CivilTime {
    /// The fields as integers, in declaration order.
    pub open spec fn fields(self) -> (int, int, int, int, int, int, int) {
        (
            self.year as int,
            self.month as int,
            self.day as int,
            self.hour as int,
            self.minute as int,
            self.second as int,
            self.weekday as int,
        )
    }
}

/// The instants that a wall-clock reading names in a zone: none (the reading
/// is skipped, or is not a date), one, or two (the reading is repeated; the
/// earlier one first).
#[derive(Clone, Copy, Debug, PartialEq, Eq)]
pub enum LocalMatch {
    Missing,
    Single(i64),
    Ambiguous(i64, i64),
}

/// An instant, seen from a time zone.
#[derive(Clone, Copy, Debug, PartialEq, Eq)]
pub struct DateTime {
    secs: i64,
    nanos: u32,
    zone: Location,
}

impl View for DateTime {
    /// Seconds since the epoch, nanoseconds, and the zone's position.
    type V = (int, int, u16);

    closed spec fn view(&self) -> (int, int, u16) {
        (self.secs as int, self.nanos as int, self.zone@)
    }
}

/// An instant is in range when `chrono` can represent it.
pub open spec fn in_range(secs: int) -> bool {
    MIN_TIMESTAMP <= secs <= MAX_TIMESTAMP
}

/// The instant at `secs` seconds and `nanos` nanoseconds, seen from `zone`.
pub closed spec fn date_time_at(secs: int, nanos: int, zone: u16) -> DateTime {
    DateTime { secs: secs as i64, nanos: nanos as u32, zone: location_at(zone) }
}

/// Building an instant from its parts gives those parts back.
pub broadcast proof fn lemma_date_time_at(secs: int, nanos: int, zone: u16)
    requires
        in_range(secs),
        0 <= nanos < NANOS_PER_SEC,
    ensures
        #[trigger] date_time_at(secs, nanos, zone)@ == (secs, nanos, zone),
{
}

/// An instant is determined by its parts.
pub broadcast proof fn lemma_date_time_view(t: DateTime)
    ensures
        #[trigger] date_time_at(t@.0, t@.1, t@.2) == t,
{
}

/// The instant `d` nanoseconds after `v`, when `chrono` can represent it.
pub open spec fn shifted(v: (int, int, u16), d: int) -> Option<DateTime> {
    let total = v.0 * NANOS_PER_SEC + v.1 + d;
    let s = total / NANOS_PER_SEC as int;
    if in_range(s) {
        Some(date_time_at(s, total % NANOS_PER_SEC as int, v.2))
    } else {
        None
    }
}

/// An instant is `a` earlier than `b`.
pub open spec fn earlier(a: (int, int, u16), b: (int, int, u16)) -> bool {
    a.0 < b.0 || (a.0 == b.0 && a.1 < b.1)
}

impl DateTime {
    #[verifier::type_invariant]
    spec fn inv(self) -> bool {
        &&& in_range(self.secs as int)
        &&& self.nanos < NANOS_PER_SEC
    }

    /// The instant `secs` seconds and `nanos` nanoseconds after the epoch,
    /// seen from `zone`, when `chrono` can represent it.
    pub fn from_timestamp(secs: i64, nanos: u32, zone: Location) -> (r: Option<DateTime>)
        ensures
            r is Some <==> (in_range(secs as int) && nanos < NANOS_PER_SEC),
            r matches Some(t) ==> t@ == (secs as int, nanos as int, zone@) && t == date_time_at(
                secs as int,
                nanos as int,
                zone@,
            ),
    {
        proof {
            broadcast use lemma_location_view;
        }
        if MIN_TIMESTAMP <= secs && secs <= MAX_TIMESTAMP && (nanos as i64) < NANOS_PER_SEC {
            Some(DateTime { secs, nanos, zone })
        } else {
            None
        }
    }

    /// Seconds since the epoch (rounded down).
    pub fn timestamp(&self) -> (s: i64)
        ensures
            s == self@.0,
            in_range(s as int),
    {
        proof {
            use_type_invariant(self);
        }
        self.secs
    }

    /// Nanoseconds past the second.
    pub fn subsec_nanos(&self) -> (n: u32)
        ensures
            n == self@.1,
            n < NANOS_PER_SEC,
    {
        proof {
            use_type_invariant(self);
        }
        self.nanos
    }

    /// The zone this instant is seen from.
    pub fn zone(&self) -> (z: Location)
        ensures
            z@ == self@.2,
    {
        self.zone
    }

    /// The same instant, seen from `zone`.
    pub fn with_zone(&self, zone: Location) -> (t: DateTime)
        ensures
            t@ == (self@.0, self@.1, zone@),
    {
        proof {
            use_type_invariant(self);
        }
        DateTime { secs: self.secs, nanos: self.nanos, zone }
    }

    /// What the wall clock of this instant's zone reads.
    pub fn civil(&self) -> (c: CivilTime)
        ensures
            c.fields() == zone_fields(self@.2, self@.0),
            valid_reading(c.fields()),
            -86400 < reading_second(c.fields()) - self@.0 < 86400,
            -262144 <= c.year <= 262143,
            1 <= c.month <= 12,
            1 <= c.day <= 31,
            c.hour < 24,
            c.minute < 60,
            c.second < 60,
            c.weekday < 7,
    {
        proof {
            use_type_invariant(self);
            use_type_invariant(self.zone);
        }
        fields_at(self.zone, self.secs)
    }

    /// Whether `self` is strictly earlier than `other`.
    pub fn is_before(&self, other: &DateTime) -> (b: bool)
        ensures
            b == earlier(self@, other@),
    {
        self.secs < other.secs || (self.secs == other.secs && self.nanos < other.nanos)
    }

    /// This instant moved by `d`, when the result is in range (`chrono`
    /// panics otherwise).
    pub fn add_duration(&self, d: Duration) -> (r: Option<DateTime>)
        ensures
            r == shifted(self@, d@),
    {
        proof {
            use_type_invariant(self);
        }
        let (ds, dn) = d.parts();
        let mut nanos: i64 = self.nanos as i64 + dn as i64;
        let mut carry: i64 = 0;
        if nanos >= NANOS_PER_SEC {
            nanos = nanos - NANOS_PER_SEC;
            carry = 1;
        }
        let ghost total = self@.0 * NANOS_PER_SEC + self@.1 + d@;
        proof {
            assert(total == (self.secs as int + ds as int + carry as int) * NANOS_PER_SEC as int
                + nanos as int);
            vstd::arithmetic::div_mod::lemma_fundamental_div_mod_converse(
                total,
                NANOS_PER_SEC as int,
                self.secs as int + ds as int + carry as int,
                nanos as int,
            );
        }
        if ds > MAX_TIMESTAMP - self.secs - carry || ds < MIN_TIMESTAMP - self.secs - carry {
            return None;
        }
        let secs = self.secs + ds + carry;
        Some(DateTime { secs, nanos: nanos as u32, zone: self.zone })
    }
}

// ---------------------------------------------------------------------------
// The time-zone database (chrono-tz).
/// The position in `chrono_tz::TZ_VARIANTS` of the zone that `Tz::from_str`
/// finds for `name`, if any.
pub uninterp spec fn zone_by_name(name: Seq<char>) -> Option<u16>;

/// What `chrono` reads on the wall clock of zone `zone` at second `secs`:
/// year, month, day, hour, minute, second and days since Sunday.
pub uninterp spec fn zone_fields(zone: u16, secs: int) -> (int, int, int, int, int, int, int);

/// The instants that `chrono` finds for a wall-clock reading in zone `zone`
/// (`TimeZone::with_ymd_and_hms`).
pub uninterp spec fn zone_local(
    zone: u16,
    year: int,
    month: int,
    day: int,
    hour: int,
    minute: int,
    second: int,
) -> LocalMatch;

/// The offset from UTC, in seconds, of the zones that `chrono-tz` gives a
/// single span (`UTC`, `GMT`, `Etc/GMT+5` and the like), by position;
/// `None` for the zones whose offset changes.
pub open spec fn single_span_offset(z: u16) -> Option<int> {
    if z == 392 || z == 393 || z == 406 || z == 421 || z == 422 || z == 423 || z == 424 || z == 425 || z == 426 || z == 493 || z == 494 || z == 495 || z == 496 || z == 497 || z == 579 || z == 592 || z == 593 || z == 596 {
        Some(0)
    } else if z == 394 {
        Some(-3600)
    } else if z == 395 {
        Some(-36000)
    } else if z == 396 {
        Some(-39600)
    } else if z == 397 {
        Some(-43200)
    } else if z == 398 {
        Some(-7200)
    } else if z == 399 {
        Some(-10800)
    } else if z == 400 {
        Some(-14400)
    } else if z == 401 {
        Some(-18000)
    } else if z == 402 {
        Some(-21600)
    } else if z == 403 {
        Some(-25200)
    } else if z == 404 {
        Some(-28800)
    } else if z == 405 {
        Some(-32400)
    } else if z == 407 {
        Some(3600)
    } else if z == 408 {
        Some(36000)
    } else if z == 409 {
        Some(39600)
    } else if z == 410 {
        Some(43200)
    } else if z == 411 {
        Some(46800)
    } else if z == 412 {
        Some(50400)
    } else if z == 413 {
        Some(7200)
    } else if z == 414 {
        Some(10800)
    } else if z == 415 {
        Some(14400)
    } else if z == 416 {
        Some(18000)
    } else if z == 417 {
        Some(21600)
    } else if z == 418 {
        Some(25200)
    } else if z == 419 {
        Some(28800)
    } else if z == 420 {
        Some(32400)
    } else {
        None
    }
}

/// Looks a zone up by its IANA name with `chrono_tz::Tz::from_str` (an exact,
/// case-sensitive match against the database's names and aliases). The
/// contract names the outcome and claims that a found zone has a valid
/// position, that `UTC` is found (at its position in `TZ_VARIANTS`), and
/// that a zone that `chrono-tz` gives a single span reads the proleptic
/// Gregorian calendar at that span's offset (`chrono`'s dates are that
/// calendar, year 0 being 1 BCE). Of the zones whose offset changes it
/// claims nothing more.
#[verifier::external_body]
fn lookup_zone(name: &str) -> (r: Option<Location>)
    ensures
        r == (match zone_by_name(name@) {
            Some(i) => Some(location_at(i)),
            None => None,
        }),
        r matches Some(l) ==> l@ < ZONE_COUNT,
        r is None ==> name@ != "UTC"@,
        r matches Some(l) ==> (name@ == "UTC"@ ==> l@ == 592),
        r matches Some(l) ==> (single_span_offset(l@) matches Some(off) ==> fixed_offset(l@, off)),
{
    name.parse::<chrono_tz::Tz>().ok().map(|tz| Location { id: tz as u16 })
}

/// Reads the wall clock of `zone` at second `secs` with
/// `TimeZone::timestamp_opt` and `chrono`'s field accessors. The contract
/// names the reading and claims the range of each field: `chrono` documents
/// those of month to weekday (`second` stays below 60: leap seconds live in
/// the nanoseconds), and computes the year as an `i32` shifted right by 13.
/// It also claims that the reading is a date of the proleptic Gregorian
/// calendar with its day of the week, and is the instant moved by the zone's
/// offset at that instant, which `chrono` keeps strictly within a day.
#[verifier::external_body]
fn fields_at(zone: Location, secs: i64) -> (c: CivilTime)
    requires
        zone@ < ZONE_COUNT,
        in_range(secs as int),
    ensures
        c.fields() == zone_fields(zone@, secs as int),
        valid_reading(c.fields()),
        -86400 < reading_second(c.fields()) - secs < 86400,
        -262144 <= c.year <= 262143,
        1 <= c.month <= 12,
        1 <= c.day <= 31,
        c.hour < 24,
        c.minute < 60,
        c.second < 60,
        c.weekday < 7,
{
    let dt = chrono_tz::TZ_VARIANTS[zone.id as usize].timestamp_opt(secs, 0).unwrap();
    CivilTime {
        year: dt.year(),
        month: dt.month(),
        day: dt.day(),
        hour: dt.hour(),
        minute: dt.minute(),
        second: dt.second(),
        weekday: dt.weekday().num_days_from_sunday(),
    }
}

/// Finds the instants that a wall-clock reading names in `zone`, with
/// `TimeZone::with_ymd_and_hms` (which gives none for a reading that is not
/// a valid date and time). The contract names the outcome, claims that
/// every instant found is one that `chrono` can represent, that a reading
/// that is not a date of the Gregorian calendar and a time of day names none,
/// and that the wall clock reads back, at every instant found, the reading
/// asked about (`from_local_datetime` subtracts the offset of a span that
/// holds the reading, and that instant lies in the same span).
#[verifier::external_body]
fn local_match_at(
    zone: Location,
    year: i32,
    month: u32,
    day: u32,
    hour: u32,
    minute: u32,
    second: u32,
) -> (r: LocalMatch)
    requires
        zone@ < ZONE_COUNT,
    ensures
        r == zone_local(
            zone@,
            year as int,
            month as int,
            day as int,
            hour as int,
            minute as int,
            second as int,
        ),
        r matches LocalMatch::Single(t) ==> in_range(t as int),
        r matches LocalMatch::Ambiguous(a, b) ==> in_range(a as int) && in_range(b as int),
        !(valid_date(year as int, month as int, day as int) && valid_time(
            hour as int,
            minute as int,
            second as int,
        )) ==> r is Missing,
        r matches LocalMatch::Single(t) ==> zone_fields(zone@, t as int) == (
            year as int,
            month as int,
            day as int,
            hour as int,
            minute as int,
            second as int,
            weekday_of(day_number(year as int, month as int, day as int)),
        ),
        r matches LocalMatch::Ambiguous(a, b) ==> zone_fields(zone@, a as int) == (
            year as int,
            month as int,
            day as int,
            hour as int,
            minute as int,
            second as int,
            weekday_of(day_number(year as int, month as int, day as int)),
        ) && zone_fields(zone@, b as int) == zone_fields(zone@, a as int),
{
    match chrono_tz::TZ_VARIANTS[zone.id as usize].with_ymd_and_hms(
        year,
        month,
        day,
        hour,
        minute,
        second,
    ) {
        chrono::LocalResult::Single(dt) => LocalMatch::Single(dt.timestamp()),
        chrono::LocalResult::Ambiguous(a, b) => LocalMatch::Ambiguous(a.timestamp(), b.timestamp()),
        chrono::LocalResult::None => LocalMatch::Missing,
    }
}

/// The instants that a wall-clock reading names in `zone`.
pub fn local_match(
    zone: Location,
    year: i32,
    month: u32,
    day: u32,
    hour: u32,
    minute: u32,
    second: u32,
) -> (r: LocalMatch)
    ensures
        r == zone_local(
            zone@,
            year as int,
            month as int,
            day as int,
            hour as int,
            minute as int,
            second as int,
        ),
        r matches LocalMatch::Single(t) ==> in_range(t as int),
        r matches LocalMatch::Ambiguous(a, b) ==> in_range(a as int) && in_range(b as int),
        !(valid_date(year as int, month as int, day as int) && valid_time(
            hour as int,
            minute as int,
            second as int,
        )) ==> r is Missing,
        r matches LocalMatch::Single(t) ==> zone_fields(zone@, t as int) == (
            year as int,
            month as int,
            day as int,
            hour as int,
            minute as int,
            second as int,
            weekday_of(day_number(year as int, month as int, day as int)),
        ),
        r matches LocalMatch::Ambiguous(a, b) ==> zone_fields(zone@, a as int) == (
            year as int,
            month as int,
            day as int,
            hour as int,
            minute as int,
            second as int,
            weekday_of(day_number(year as int, month as int, day as int)),
        ) && zone_fields(zone@, b as int) == zone_fields(zone@, a as int),
{
    proof {
        use_type_invariant(zone);
    }
    local_match_at(zone, year, month, day, hour, minute, second)
}

/// The wall clock of `zone` at second `secs`.
pub fn civil_at(zone: Location, secs: i64) -> (c: CivilTime)
    requires
        in_range(secs as int),
    ensures
        c.fields() == zone_fields(zone@, secs as int),
        valid_reading(c.fields()),
        -86400 < reading_second(c.fields()) - secs < 86400,
        -262144 <= c.year <= 262143,
        1 <= c.month <= 12,
        1 <= c.day <= 31,
        c.hour < 24,
        c.minute < 60,
        c.second < 60,
        c.weekday < 7,
{
    proof {
        use_type_invariant(zone);
    }
    fields_at(zone, secs)
}

} // verus!
