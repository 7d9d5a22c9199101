use time_parser::{Duration, Error, parse_duration, parse_duration_hms, parse_duration_shorthand};
use time_parser::{SECONDS_PER_DAY, SECONDS_PER_HOUR, SECONDS_PER_MINUTE, SECONDS_PER_WEEK};
use time_parser::{NANOSECONDS_PER_MICROSECOND, NANOSECONDS_PER_MILLISECOND};

fn secs(n: u64) -> Duration {
    Duration::new(n, 0)
}

#[test]
fn parse_duration_valid_shorthand_2d3h4m() {
    let expected = secs(SECONDS_PER_DAY * 2 + SECONDS_PER_HOUR * 3 + SECONDS_PER_MINUTE * 4);
    assert_eq!(parse_duration("2d3h4m").unwrap(), expected);
}

#[test]
fn parse_duration_valid_shorthand_full_spread() {
    let expected = Duration::new(
        SECONDS_PER_WEEK + 2 * SECONDS_PER_DAY + 3 * SECONDS_PER_HOUR + 4 * SECONDS_PER_MINUTE + 5,
        (6 * NANOSECONDS_PER_MILLISECOND + 7 * NANOSECONDS_PER_MICROSECOND + 8) as u32,
    );
    assert_eq!(parse_duration("1w2d3h4m5s6ms7us8ns").unwrap(), expected);
    // the sub-second part is exactly 6_007_008 nanoseconds
    assert_eq!(parse_duration("1w2d3h4m5s6ms7us8ns").unwrap().subsec_nanos(), 6_007_008);
}

#[test]
fn parse_duration_valid_shorthand_600ms() {
    let expected = Duration::new(0, (600 * NANOSECONDS_PER_MILLISECOND) as u32);
    assert_eq!(parse_duration("600ms").unwrap(), expected);
}

#[test]
fn parse_duration_valid_hms_02_03_04() {
    assert_eq!(parse_duration("02:03:04").unwrap(), secs(SECONDS_PER_HOUR * 2 + SECONDS_PER_MINUTE * 3 + 4));
    assert_eq!(parse_duration("02:03:04").unwrap(), Duration::new(7384, 0));
}

#[test]
fn parse_duration_invalid_version_string() {
    match parse_duration("1.2.3") {
        Err(Error::InvalidDuration(t)) => assert_eq!(t, "1.2.3"),
        other => panic!("expected invalid duration, got {:?}", other),
    }
    assert_eq!(parse_duration("1.2.3").unwrap_err().message(), "invalid duration");
}

#[test]
fn parse_hms_zero() {
    assert_eq!(parse_duration_hms("00:00:00").unwrap(), secs(0));
}

#[test]
fn parse_hms_02_03_04() {
    assert_eq!(parse_duration_hms("02:03:04").unwrap(), secs(SECONDS_PER_HOUR * 2 + SECONDS_PER_MINUTE * 3 + 4));
}

#[test]
fn parse_hms_rejects_shorthand() {
    assert!(parse_duration_hms("2d3h4m").is_err());
    assert!(parse_duration_hms("230m").is_err());
    assert!(parse_duration_hms("1.2.3").is_err());
}

#[test]
fn parse_hms_minute_bound() {
    // minute 60 is out of range, minute 59 is the largest accepted
    assert!(parse_duration_hms("00:60:00").is_err());
    assert_eq!(parse_duration_hms("00:59:00").unwrap(), secs(59 * SECONDS_PER_MINUTE));
}

#[test]
fn parse_hms_second_bound() {
    assert!(parse_duration_hms("00:00:60").is_err());
    assert_eq!(parse_duration_hms("00:00:59").unwrap(), secs(59));
}

#[test]
fn parse_hms_single_digit_fields() {
    assert_eq!(parse_duration_hms("5:4:3").unwrap(), secs(5 * SECONDS_PER_HOUR + 4 * SECONDS_PER_MINUTE + 3));
}

#[test]
fn parse_hms_hour_unbounded() {
    assert_eq!(parse_duration_hms("100:00:00").unwrap(), secs(100 * SECONDS_PER_HOUR));
}

#[test]
fn parse_hms_overflow_fails() {
    assert!(parse_duration_hms("99999999999999999999:00:00").is_err());
}

#[test]
fn parse_shorthand_basic_pairs() {
    assert_eq!(parse_duration_shorthand("2d3h4m").unwrap(), secs(SECONDS_PER_DAY * 2 + SECONDS_PER_HOUR * 3 + SECONDS_PER_MINUTE * 4));
    assert_eq!(parse_duration_shorthand("2h30m").unwrap(), secs(SECONDS_PER_HOUR * 2 + SECONDS_PER_MINUTE * 30));
    assert_eq!(parse_duration_shorthand("230m").unwrap(), secs(230 * SECONDS_PER_MINUTE));
    assert_eq!(parse_duration_shorthand("1d230m").unwrap(), secs(SECONDS_PER_DAY + 230 * SECONDS_PER_MINUTE));
    assert_eq!(parse_duration_shorthand("1d230h").unwrap(), secs(SECONDS_PER_DAY + 230 * SECONDS_PER_HOUR));
    assert_eq!(parse_duration_shorthand("1w7d").unwrap(), secs(SECONDS_PER_WEEK + 7 * SECONDS_PER_DAY));
    assert_eq!(parse_duration_shorthand("1w1d").unwrap(), secs(SECONDS_PER_WEEK + SECONDS_PER_DAY));
    assert_eq!(parse_duration_shorthand("8d").unwrap(), secs(8 * SECONDS_PER_DAY));
}

#[test]
fn parse_shorthand_grouping_separators() {
    assert_eq!(parse_duration_shorthand("1800000s").unwrap(), secs(1800000));
    assert_eq!(parse_duration_shorthand("1_800_000s").unwrap(), secs(1800000));
    // grouping separators are transparent
    assert_eq!(parse_duration_shorthand("1_800_000s").unwrap(), parse_duration_shorthand("1800000s").unwrap());
}

#[test]
fn parse_shorthand_malformed_grouping_fails() {
    assert!(parse_duration_shorthand("1_80s").is_err());
    assert!(parse_duration_shorthand("1_8000s").is_err());
    assert!(parse_duration_shorthand("1234_567s").is_err());
    assert!(parse_duration_shorthand("1_s").is_err());
}

#[test]
fn parse_shorthand_long_names() {
    assert_eq!(parse_duration_shorthand("1nanosecond").unwrap(), Duration::new(0, 1));
    assert_eq!(parse_duration_shorthand("1microsecond").unwrap(), Duration::new(0, 1_000));
    assert_eq!(parse_duration_shorthand("1millisecond").unwrap(), Duration::new(0, 1_000_000));
    assert_eq!(parse_duration_shorthand("1second").unwrap(), secs(1));
    assert_eq!(parse_duration_shorthand("1minute").unwrap(), secs(SECONDS_PER_MINUTE));
    assert_eq!(parse_duration_shorthand("1hour").unwrap(), secs(SECONDS_PER_HOUR));
    assert_eq!(parse_duration_shorthand("1day").unwrap(), secs(SECONDS_PER_DAY));
    assert_eq!(parse_duration_shorthand("1week").unwrap(), secs(SECONDS_PER_WEEK));
}

#[test]
fn parse_shorthand_long_names_with_space() {
    assert_eq!(parse_duration_shorthand("1 nanosecond").unwrap(), Duration::new(0, 1));
    assert_eq!(parse_duration_shorthand("1 microsecond").unwrap(), Duration::new(0, 1_000));
    assert_eq!(parse_duration_shorthand("1 millisecond").unwrap(), Duration::new(0, 1_000_000));
    assert_eq!(parse_duration_shorthand("1 second").unwrap(), secs(1));
    assert_eq!(parse_duration_shorthand("1 minute").unwrap(), secs(SECONDS_PER_MINUTE));
    assert_eq!(parse_duration_shorthand("1 hour").unwrap(), secs(SECONDS_PER_HOUR));
    assert_eq!(parse_duration_shorthand("1 day").unwrap(), secs(SECONDS_PER_DAY));
    assert_eq!(parse_duration_shorthand("1 week").unwrap(), secs(SECONDS_PER_WEEK));
}

#[test]
fn parse_shorthand_plural_long_names() {
    assert_eq!(parse_duration_shorthand("2weeks").unwrap(), secs(2 * SECONDS_PER_WEEK));
    assert_eq!(parse_duration_shorthand("3 days").unwrap(), secs(3 * SECONDS_PER_DAY));
}

#[test]
fn parse_shorthand_uppercase_long_name_rejected() {
    // long names are matched exactly; short suffixes are case-insensitive
    assert!(parse_duration_shorthand("1 DAY").is_err());
    assert_eq!(parse_duration_shorthand("1 day").unwrap(), secs(SECONDS_PER_DAY));
}

#[test]
fn parse_shorthand_short_suffix_case_insensitive() {
    assert_eq!(parse_duration_shorthand("1H").unwrap(), secs(SECONDS_PER_HOUR));
    assert_eq!(parse_duration_shorthand("600MS").unwrap(), Duration::new(0, 600_000_000));
    assert_eq!(parse_duration_shorthand("2D").unwrap(), secs(2 * SECONDS_PER_DAY));
}

#[test]
fn parse_shorthand_micro_sign_suffix() {
    assert_eq!(parse_duration_shorthand("7µs").unwrap(), Duration::new(0, 7_000));
    assert_eq!(parse_duration_shorthand("7us").unwrap(), Duration::new(0, 7_000));
}

#[test]
fn parse_shorthand_rejects_clock_form() {
    assert!(parse_duration_shorthand("02:03:04").is_err());
    assert!(parse_duration_shorthand("1.2.3").is_err());
}

#[test]
fn parse_shorthand_rejects_stray_text() {
    assert!(parse_duration_shorthand("").is_err());
    assert!(parse_duration_shorthand("1h ").is_err());
    assert!(parse_duration_shorthand(" 1h").is_err());
    assert!(parse_duration_shorthand("1").is_err());
    assert!(parse_duration_shorthand("h").is_err());
    assert!(parse_duration_shorthand("1x").is_err());
    assert!(parse_duration_shorthand("1 w").is_err());
}

#[test]
fn parse_shorthand_repeated_units_accumulate() {
    assert_eq!(parse_duration_shorthand("1h1h").unwrap(), parse_duration_shorthand("2h").unwrap());
    assert_eq!(parse_duration_shorthand("1h1h").unwrap(), secs(2 * SECONDS_PER_HOUR));
}

#[test]
fn parse_shorthand_subsecond_carry() {
    // 1500 milliseconds carry a whole second out of the nanosecond total
    assert_eq!(parse_duration_shorthand("1500ms").unwrap(), Duration::new(1, 500_000_000));
    assert_eq!(parse_duration_shorthand("2500000000ns").unwrap(), Duration::new(2, 500_000_000));
}

#[test]
fn parse_shorthand_quantity_overflow_fails() {
    assert!(parse_duration_shorthand("18446744073709551616s").is_err());
    assert_eq!(parse_duration_shorthand("18446744073709551615s").unwrap(), secs(u64::MAX));
}

#[test]
fn parse_shorthand_total_overflow_fails() {
    assert!(parse_duration_shorthand("18446744073709551615s1s").is_err());
    assert!(parse_duration_shorthand("100000000000000000000w").is_err());
}

#[test]
fn error_constructors_and_messages() {
    assert_eq!(Error::invalid_duration("x").message(), "invalid duration");
    assert_eq!(Error::invalid_time("x").message(), "invalid time");
    assert_eq!(Error::invalid_unit("lightyear").message(), "invalid unit: lightyear");
    assert_eq!(Error::error("boom").message(), "boom");
    assert!(matches!(Error::invalid_unit("q"), Error::InvalidUnit(t) if t == "q"));
    assert!(matches!(Error::invalid_time("q"), Error::InvalidTime(t) if t == "q"));
    assert!(matches!(Error::error("q"), Error::Error(t) if t == "q"));
}
