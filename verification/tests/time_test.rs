use cron_rs::duration::Duration;
use cron_rs::parser::parse_standard;
use cron_rs::schedule::Schedule;
use cron_rs::spec::make_date;
use cron_rs::time::{local_match, DateTime, LocalMatch, Location, MAX_TIMESTAMP, MIN_TIMESTAMP};

fn zone(name: &str) -> Location {
    Location::from_name(name).expect("known zone")
}

#[test]
fn zones_are_found_by_exact_name() {
    assert!(Location::from_name("Asia/Tokyo").is_some());
    assert!(Location::from_name("UTC").is_some());
    assert!(Location::from_name("asia/tokyo").is_none());
    assert!(Location::from_name("Nowhere/Land").is_none());
    assert_ne!(zone("Asia/Tokyo"), zone("UTC"));
}

#[test]
fn wall_clock_readings() {
    let epoch = DateTime::from_timestamp(0, 0, zone("UTC")).unwrap();
    let c = epoch.civil();
    assert_eq!((c.year, c.month, c.day, c.hour, c.minute, c.second, c.weekday), (1970, 1, 1, 0, 0, 0, 4));
    let c = epoch.with_zone(zone("Asia/Kolkata")).civil();
    assert_eq!((c.year, c.month, c.day, c.hour, c.minute, c.second), (1970, 1, 1, 5, 30, 0));
    let c = DateTime::from_timestamp(1709164800, 0, zone("UTC")).unwrap().civil();
    assert_eq!((c.year, c.month, c.day, c.weekday), (2024, 2, 29, 4));
}

#[test]
fn wall_clock_times_name_zero_one_or_two_instants() {
    let ny = zone("America/New_York");
    assert_eq!(local_match(ny, 2021, 3, 14, 2, 30, 0), LocalMatch::Missing);
    assert_eq!(local_match(ny, 2021, 11, 7, 1, 30, 0), LocalMatch::Ambiguous(1636263000, 1636266600));
    assert_eq!(local_match(ny, 2021, 7, 1, 12, 0, 0), LocalMatch::Single(1625155200));
    assert_eq!(local_match(ny, 2021, 2, 30, 12, 0, 0), LocalMatch::Missing);
}

#[test]
fn make_date_moves_past_a_skipped_hour() {
    let ny = zone("America/New_York");
    assert_eq!(make_date(ny, 2021, 3, 14, 2, 30, 0).unwrap().timestamp(), 1615707000);
    assert_eq!(make_date(ny, 2021, 11, 7, 1, 30, 0).unwrap().timestamp(), 1636263000);
    assert!(make_date(ny, 2021, 2, 30, 0, 0, 0).is_none());
}

#[test]
fn instants_stay_in_range() {
    let utc = zone("UTC");
    assert!(DateTime::from_timestamp(MAX_TIMESTAMP, 0, utc).is_some());
    assert!(DateTime::from_timestamp(MAX_TIMESTAMP + 1, 0, utc).is_none());
    assert!(DateTime::from_timestamp(MIN_TIMESTAMP - 1, 0, utc).is_none());
    assert!(DateTime::from_timestamp(0, 1_000_000_000, utc).is_none());
    let last = DateTime::from_timestamp(MAX_TIMESTAMP, 0, utc).unwrap();
    assert!(last.add_duration(Duration::seconds(1)).is_none());
    let t = DateTime::from_timestamp(100, 999_999_999, utc).unwrap();
    let u = t.add_duration(Duration::nanoseconds(1)).unwrap();
    assert_eq!((u.timestamp(), u.subsec_nanos()), (101, 0));
    assert!(t.is_before(&u));
    assert!(!u.is_before(&t));
    assert!(!t.is_before(&t));
}

#[test]
fn day_matches_follows_the_star_rule() {
    let utc = zone("UTC");
    // Sunday 2012-07-15.
    let sunday = DateTime::from_timestamp(1342310400, 0, utc).unwrap();
    let s = match parse_standard("* * 1,15 * Sun").unwrap() {
        cron_rs::schedule::ParsedSchedule::Spec(s) => s,
        _ => panic!("calendar schedule expected"),
    };
    assert!(s.day_matches(&sunday));
    let monday = DateTime::from_timestamp(1342310400 + 86400, 0, utc).unwrap();
    assert!(!s.day_matches(&monday));
    let s = match parse_standard("* * * * Mon").unwrap() {
        cron_rs::schedule::ParsedSchedule::Spec(s) => s,
        _ => panic!("calendar schedule expected"),
    };
    assert!(!s.day_matches(&sunday));
    assert!(s.day_matches(&monday));
}

#[test]
fn next_reads_the_schedule_zone() {
    // 15:00 UTC is 00:00 the next day in Tokyo.
    let after = DateTime::from_timestamp(1341845100, 0, zone("UTC")).unwrap();
    let next = parse_standard("TZ=Asia/Tokyo 0 0 * * *").unwrap().next(after).unwrap();
    assert_eq!(next.timestamp(), 1341846000);
    assert_eq!(next.zone(), zone("UTC"));
    // A schedule that never fires (30 February) gives nothing.
    assert!(parse_standard("0 0 30 Feb *").unwrap().next(after).is_none());
}

#[test]
fn a_passed_date_rolls_over_to_next_year() {
    let parser = cron_rs::parser::Parser::new(
        cron_rs::parser::parse_option::SECOND
            | cron_rs::parser::parse_option::MINUTE
            | cron_rs::parser::parse_option::HOUR
            | cron_rs::parser::parse_option::DOM
            | cron_rs::parser::parse_option::MONTH
            | cron_rs::parser::parse_option::DOW,
    );
    let s = parser.parse("0 30 15 2 8 *").unwrap();
    // 2026-08-03T00:00:00Z
    let after = DateTime::from_timestamp(1785715200, 0, zone("UTC")).unwrap();
    // 2027-08-02T15:30:00Z
    assert_eq!(s.next(after).unwrap().timestamp(), 1817220600);
}

#[test]
fn the_ends_of_the_range_read_as_dates() {
    let utc = zone("UTC");
    let c = DateTime::from_timestamp(MIN_TIMESTAMP, 0, utc).unwrap().civil();
    assert_eq!((c.year, c.month, c.day, c.hour, c.minute, c.second), (-262143, 1, 1, 0, 0, 0));
    let c = DateTime::from_timestamp(MAX_TIMESTAMP, 0, utc).unwrap().civil();
    assert_eq!((c.year, c.month, c.day, c.hour, c.minute, c.second), (262142, 12, 31, 23, 59, 59));
    // West of UTC the first instant still falls on the day before.
    let c = DateTime::from_timestamp(MIN_TIMESTAMP, 0, zone("America/New_York")).unwrap().civil();
    assert_eq!((c.year, c.month, c.day), (-262144, 12, 31));
}

#[test]
fn next_in_a_zone_at_a_fixed_offset() {
    // 2012-07-09T14:45:00Z is 09:45 in Etc/GMT+5 (five hours west).
    let after = DateTime::from_timestamp(1341845100, 0, zone("UTC")).unwrap();
    let next = parse_standard("TZ=Etc/GMT+5 0 0 * * *").unwrap().next(after).unwrap();
    assert_eq!(next.timestamp(), 1341896400);
}
