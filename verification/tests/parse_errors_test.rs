use cron_rs::parser::{
    get_field, get_range, normalize_fields, parse_descriptor, parse_option, parse_standard,
    standard_parser, Bounds, ParseError, Parser,
};
use cron_rs::schedule::ParsedSchedule;

const SMALL: Bounds<'static> = Bounds { min: 3, max: 5, names: None };
const WIDE: Bounds<'static> = Bounds { min: 0, max: 7, names: None };
const MONTHS: Bounds<'static> = Bounds {
    min: 1,
    max: 12,
    names: Some(&[
        ("jan", 1), ("feb", 2), ("mar", 3), ("apr", 4),
        ("may", 5), ("jun", 6), ("jul", 7), ("aug", 8),
        ("sep", 9), ("oct", 10), ("nov", 11), ("dec", 12),
    ]),
};

fn range_error(expr: &str, b: Bounds) -> String {
    get_range(expr, b).expect_err("expected an error").message()
}

fn parse_error(spec: &str) -> String {
    parse_standard(spec).expect_err("expected an error").message()
}

#[test]
fn range_errors_say_what_is_wrong() {
    assert_eq!(range_error("5--5", WIDE), "too many hyphens: 5--5");
    assert_eq!(range_error("*//2", WIDE), "too many slashes: *//2");
    assert_eq!(range_error("1", SMALL), "beginning of range (1) below minimum (3): 1");
    assert_eq!(range_error("6", SMALL), "end of range (6) above maximum (5): 6");
    assert_eq!(range_error("5-3", WIDE), "beginning of range (5) beyond end of range (3): 5-3");
    assert_eq!(range_error("*/0", WIDE), "step of range should be a positive number: */0");
    assert_eq!(range_error("*/-12", WIDE), "negative number (-12) not allowed: -12");
}

#[test]
fn integer_errors_carry_the_reason() {
    assert_eq!(range_error("jan-x", WIDE), "failed to parse int from jan: invalid digit found in string");
    assert_eq!(
        range_error("99999999999", WIDE),
        "failed to parse int from 99999999999: number too large to fit in target type"
    );
    assert_eq!(
        range_error("*/-99999999999", WIDE),
        "failed to parse int from -99999999999: number too small to fit in target type"
    );
    assert_eq!(range_error("", WIDE), "failed to parse int from : cannot parse integer from empty string");
    assert_eq!(range_error("-3", WIDE), "failed to parse int from : cannot parse integer from empty string");
}

#[test]
fn names_are_read_in_any_case() {
    assert_eq!(get_field("JAN-MAR", MONTHS).unwrap(), (1 << 1) | (1 << 2) | (1 << 3));
    assert_eq!(get_field("Dec", MONTHS).unwrap(), 1 << 12);
    assert_eq!(get_field("+5", MONTHS).unwrap(), 1 << 5);
}

#[test]
fn field_count_errors_list_the_fields() {
    let standard = parse_option::MINUTE
        | parse_option::HOUR
        | parse_option::DOM
        | parse_option::MONTH
        | parse_option::DOW;
    let e = normalize_fields(&["*"], standard).unwrap_err();
    assert_eq!(e.message(), "expected exactly 5 fields, found 1: [\"*\"]");
    let e = normalize_fields(&["1", "2", "3"], standard | parse_option::DOW_OPTIONAL).unwrap_err();
    assert_eq!(e.message(), "expected 4 to 5 fields, found 3: [\"1\", \"2\", \"3\"]");
    let e = normalize_fields(&["*"], parse_option::SECOND_OPTIONAL | parse_option::DOW_OPTIONAL).unwrap_err();
    assert_eq!(e.message(), "multiple optionals may not be configured");
}

#[test]
fn expression_errors() {
    assert_eq!(parse_standard("   ").unwrap_err(), ParseError::EmptySpec);
    assert_eq!(parse_error(""), "empty spec string");
    assert_eq!(parse_error("TZ=UTC"), "provided bad location UTC");
    assert_eq!(parse_error("TZ=Nowhere/Land * * * * *"), "provided bad location Nowhere/Land");
    assert_eq!(parse_error("@unknown"), "unrecognized descriptor: @unknown");
    let no_descriptors = Parser::new(parse_option::MINUTE | parse_option::HOUR);
    assert_eq!(
        no_descriptors.parse("@daily").unwrap_err().message(),
        "parser does not accept descriptors: @daily"
    );
    assert_eq!(
        parse_descriptor("@every 5", None).unwrap_err().message(),
        "failed to parse duration 5: missing unit"
    );
}

#[test]
fn overflowing_durations_are_reported_apart() {
    assert!(standard_parser().checked_parse("@every 99999999999h").is_none());
    assert!(standard_parser().checked_parse("@every 99999999999999999999s").is_none());
    assert!(standard_parser().checked_parse("TZ=UTC @every 99999999999h").is_none());
    // An unknown zone is refused before the duration is read.
    assert!(matches!(
        standard_parser().checked_parse("TZ=Nowhere/Land @every 99999999999h"),
        Some(Err(_))
    ));
    assert!(matches!(
        standard_parser().checked_parse("@every 2h"),
        Some(Ok(ParsedSchedule::Every(_)))
    ));
}

#[test]
fn a_field_joined_by_a_comma_is_the_union() {
    let hours = Bounds { min: 0, max: 23, names: None };
    let a = get_field("1-3", hours).unwrap();
    let b = get_field("*/10", hours).unwrap();
    assert_eq!(get_field("1-3,*/10", hours).unwrap(), a | b);
    // The first refusal wins.
    assert_eq!(
        get_field("x,25", hours).unwrap_err().message(),
        get_field("x", hours).unwrap_err().message()
    );
    assert_eq!(
        get_field("1,25", hours).unwrap_err().message(),
        "end of range (25) above maximum (23): 25"
    );
}
