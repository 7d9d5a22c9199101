use time_parser::{Duration, DurationFormatter, duration_as_string, parse_duration, parse_durations};
use time_parser::{SECONDS_PER_DAY, SECONDS_PER_HOUR, SECONDS_PER_MINUTE};

fn reformatted(text: &str) -> String {
    duration_as_string(&parse_duration(text).expect("interval must be valid for this test"))
}

#[test]
fn as_string_identity_on_canonical_input() {
    assert_eq!(reformatted("2d3h4m"), "2d3h4m");
    assert_eq!(reformatted("2h30m"), "2h30m");
    assert_eq!(reformatted("1w1d"), "1w1d");
}

#[test]
fn as_string_normalizes_to_largest_units() {
    assert_eq!(reformatted("230m"), "3h50m");
    assert_eq!(reformatted("1d230m"), "1d3h50m");
    assert_eq!(reformatted("1d230h"), "1w3d14h");
    assert_eq!(reformatted("1800000s"), "2w6d20h");
    assert_eq!(reformatted("1_800_000s"), "2w6d20h");
    assert_eq!(reformatted("1w7d"), "2w");
    assert_eq!(reformatted("8d"), "1w1d");
}

#[test]
fn as_string_zero_duration_is_empty() {
    assert_eq!(duration_as_string(&Duration::new(0, 0)), "");
}

#[test]
fn as_string_subsecond_components() {
    assert_eq!(duration_as_string(&Duration::new(0, 6_007_008)), "6ms7µs8ns");
    assert_eq!(duration_as_string(&Duration::new(0, 7_008)), "7µs8ns");
    assert_eq!(duration_as_string(&Duration::new(0, 999)), "999ns");
    assert_eq!(duration_as_string(&Duration::new(0, 600_000_000)), "600ms");
}

#[test]
fn round_trip_through_canonical_form() {
    // parsing the canonical rendering gives back the exact value
    let samples: &[(u64, u32)] = &[
        (1, 0),
        (59, 0),
        (60, 0),
        (3_599, 999_999_999),
        (1_234_567, 6_007_008),
        (u64::MAX, 999_999_999),
        (0, 1),
        (604_800, 0),
    ];
    for &(s, n) in samples {
        let d = Duration::new(s, n);
        let text = duration_as_string(&d);
        assert!(!text.is_empty());
        assert_eq!(parse_duration(&text).unwrap(), d);
    }
}

#[test]
fn duration_formatter_parse_and_to_string() {
    let d = <Duration as DurationFormatter>::parse("2d3h4m").unwrap();
    assert_eq!(d, Duration::new(SECONDS_PER_DAY * 2 + SECONDS_PER_HOUR * 3 + SECONDS_PER_MINUTE * 4, 0));
    assert_eq!(DurationFormatter::to_string(&d), "2d3h4m");
    assert!(<Duration as DurationFormatter>::parse("1.2.3").is_err());
}

#[test]
fn durations_list_extraction() {
    assert_eq!(
        parse_durations("2d and 3h").unwrap(),
        vec![Duration::new(SECONDS_PER_DAY * 2, 0), Duration::new(SECONDS_PER_HOUR * 3, 0)]
    );
    assert_eq!(
        parse_durations("2d and 3h and 4m").unwrap(),
        vec![
            Duration::new(SECONDS_PER_DAY * 2, 0),
            Duration::new(SECONDS_PER_HOUR * 3, 0),
            Duration::new(SECONDS_PER_MINUTE * 4, 0),
        ]
    );
    assert_eq!(
        parse_durations("5d and 01:02:03").unwrap(),
        vec![
            Duration::new(SECONDS_PER_DAY * 5, 0),
            Duration::new(SECONDS_PER_HOUR + SECONDS_PER_MINUTE * 2 + 3, 0),
        ]
    );
}

#[test]
fn durations_list_without_match_fails() {
    assert!(parse_durations("no durations here").is_err());
    assert!(parse_durations("").is_err());
}

#[test]
fn durations_list_single_run_is_one_duration() {
    assert_eq!(
        parse_durations("2d3h").unwrap(),
        vec![Duration::new(SECONDS_PER_DAY * 2 + SECONDS_PER_HOUR * 3, 0)]
    );
}

#[test]
fn durations_list_bad_embedded_clock_fails() {
    // a matched clock occurrence whose minute is out of range fails the
    // whole extraction
    assert!(parse_durations("99:99:99 and 2d").is_err());
}

#[test]
fn duration_accessors() {
    let d = Duration::new(7, 42);
    assert_eq!(d.as_secs(), 7);
    assert_eq!(d.subsec_nanos(), 42);
}
