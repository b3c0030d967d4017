use cron_rs::constant_delay::every;
use cron_rs::duration::Duration;
use cron_rs::parser::parse_duration;

fn message_of(s: &str) -> String {
    parse_duration(s).expect_err("expected an error").message()
}

#[test]
fn durations_add_up_their_units() {
    assert_eq!(parse_duration("1h30m").unwrap(), Duration::minutes(90));
    assert_eq!(parse_duration("1500ms").unwrap(), Duration::milliseconds(1500));
    assert_eq!(parse_duration("2h3m4s5ms6us7ns").unwrap().num_nanoseconds(), Some(7_384_005_006_007));
    assert_eq!(parse_duration("1us").unwrap(), Duration::nanoseconds(1000));
    assert_eq!(parse_duration("1\u{b5}s").unwrap(), Duration::nanoseconds(1000));
    assert_eq!(parse_duration("10s").unwrap(), Duration::seconds(10));
}

#[test]
fn duration_errors_name_the_text() {
    assert_eq!(message_of(""), "failed to parse duration : empty");
    assert_eq!(message_of("h"), "failed to parse duration h: invalid format");
    assert_eq!(message_of("5x"), "failed to parse duration 5x: unknown unit x");
    assert_eq!(message_of("5"), "failed to parse duration 5: missing unit");
    assert_eq!(message_of("1h5"), "failed to parse duration 1h5: missing unit");
}

#[test]
fn duration_arithmetic() {
    let a = Duration::seconds(3);
    let b = Duration::milliseconds(1500);
    assert_eq!(a.plus(b), Duration::milliseconds(4500));
    assert_eq!(a.minus(b), Duration::milliseconds(1500));
    assert_eq!(b.minus(a), Duration::milliseconds(-1500));
    assert!(b.is_shorter_than(a));
    assert!(!a.is_shorter_than(a));
    assert_eq!(Duration::nanoseconds(-1).parts(), (-1, 999_999_999));
    assert_eq!(Duration::milliseconds(-1500).parts(), (-2, 500_000_000));
    assert_eq!(Duration::hours(2), Duration::minutes(120));
    assert_eq!(Duration::days(1), Duration::hours(24));
    assert_eq!(Duration::days(200_000).num_nanoseconds(), None);
    assert_eq!(Duration::seconds(-2).num_nanoseconds(), Some(-2_000_000_000));
}

#[test]
fn every_rounds_to_whole_seconds_of_at_least_one() {
    assert_eq!(every(Duration::milliseconds(1500)).delay, Duration::seconds(1));
    assert_eq!(every(Duration::milliseconds(200)).delay, Duration::seconds(1));
    assert_eq!(every(Duration::nanoseconds(-5)).delay, Duration::seconds(1));
    assert_eq!(every(Duration::milliseconds(61_999)).delay, Duration::seconds(61));
    // Too long to count in i64 nanoseconds: kept as it is.
    assert_eq!(every(Duration::days(200_000).plus(Duration::nanoseconds(5))).delay,
        Duration::days(200_000).plus(Duration::nanoseconds(5)));
}

#[test]
fn durations_of_equal_length_are_equal() {
    assert_eq!(parse_duration("5m").unwrap(), Duration::minutes(5));
    assert_eq!(parse_duration("90s").unwrap(), Duration::seconds(60).plus(Duration::seconds(30)));
}
