use memstats::error::FailureCause;
use memstats::error::ParseError;
use memstats::sample::Sample;
use memstats::timestamp::Timestamp;
use memstats::timestamp::parse_timestamp;

#[test]
fn scenario_line_parses_to_literal_values() {
    let line = "2018-02-27 16:32:13.802940 UTC,1000,200,300,50,50,500,100";
    let m = Sample::from_str(line).unwrap();
    assert_eq!(
        m.timestamp,
        Timestamp { year: 2018, month: 2, day: 27, hour: 16, minute: 32, second: 13, micros: 802940 }
    );
    assert_eq!(m.total, 1000);
    assert_eq!(m.free, 200);
    assert_eq!(m.available, 300);
    assert_eq!(m.buffers, 50);
    assert_eq!(m.cached, 50);
    assert_eq!(m.swap_total, 500);
    assert_eq!(m.swap_free, 100);
}

#[test]
fn round_trip_with_largest_values() {
    let line = "9999-12-31 23:59:59.999999 UTC,18446744073709551615,0,1,2,3,4,5";
    let m = Sample::from_str(line).unwrap();
    assert_eq!(m.timestamp.year, 9999);
    assert_eq!(m.timestamp.micros, 999999);
    assert_eq!(m.total, u64::MAX);
    assert_eq!(m.swap_free, 5);
}

#[test]
fn extra_columns_are_ignored() {
    let line = "2018-02-27 16:32:13.802940 UTC,1,2,3,4,5,6,7,99,100";
    let m = Sample::from_str(line).unwrap();
    assert_eq!(m.swap_free, 7);
}

#[test]
fn missing_column_at_each_position() {
    let ts = "2018-02-27 16:32:13.802940 UTC";
    for n in 1..8 {
        let mut line = String::from(ts);
        for k in 1..n {
            line.push_str(",");
            line.push_str(&k.to_string());
        }
        let err = Sample::from_str(&line).unwrap_err();
        assert_eq!(err, ParseError::MissingColumn);
    }
}

#[test]
fn full_line_has_no_missing_column() {
    let line = "2018-02-27 16:32:13.802940 UTC,1,2,3,4,5,6,7";
    assert!(Sample::from_str(line).is_ok());
}

#[test]
fn malformed_field_reports_its_exact_text() {
    let line = "2018-02-27 16:32:13.802940 UTC,12x,300,1,2,3,4,5";
    let err = Sample::from_str(line).unwrap_err();
    assert_eq!(
        err,
        ParseError::Failure(FailureCause::InvalidDigit, String::from("12x"))
    );
}

#[test]
fn first_failing_column_wins() {
    // Both the second and the third column are malformed; the error names
    // the second, evaluated first.
    let line = "2018-02-27 16:32:13.802940 UTC,bad,worse,1,2,3,4,5";
    let err = Sample::from_str(line).unwrap_err();
    assert_eq!(err, ParseError::Failure(FailureCause::InvalidDigit, String::from("bad")));
}

#[test]
fn bad_timestamp_beats_missing_columns() {
    // The timestamp column fails before any later column is even looked at.
    let err = Sample::from_str("nonsense").unwrap_err();
    assert_eq!(
        err,
        ParseError::Failure(FailureCause::TimestampLayout, String::from("nonsense"))
    );
}

#[test]
fn empty_numeric_field_is_reported_empty() {
    let line = "2018-02-27 16:32:13.802940 UTC,,300,1,2,3,4,5";
    let err = Sample::from_str(line).unwrap_err();
    assert_eq!(err, ParseError::Failure(FailureCause::EmptyNumber, String::from("")));
}

#[test]
fn numeric_overflow_is_reported() {
    let line = "2018-02-27 16:32:13.802940 UTC,18446744073709551616,1,1,2,3,4,5";
    let err = Sample::from_str(line).unwrap_err();
    assert_eq!(
        err,
        ParseError::Failure(
            FailureCause::NumberOverflow,
            String::from("18446744073709551616")
        )
    );
}

#[test]
fn leading_plus_is_rejected() {
    let line = "2018-02-27 16:32:13.802940 UTC,+5,300,1,2,3,4,5";
    let err = Sample::from_str(line).unwrap_err();
    assert_eq!(err, ParseError::Failure(FailureCause::InvalidDigit, String::from("+5")));
}

#[test]
fn timestamp_happy_path() {
    let t = parse_timestamp("2018-02-27 16:32:13.802940 UTC").unwrap();
    assert_eq!(
        t,
        Timestamp { year: 2018, month: 2, day: 27, hour: 16, minute: 32, second: 13, micros: 802940 }
    );
}

#[test]
fn timestamp_layout_mismatches_fail() {
    let cases = [
        "",
        "2018-02-27 16:32:13.802940",       // missing literal suffix
        "2018-02-27 16:32:13.802940 utc",   // wrong case in suffix
        "2018-02-27 16:32:13.802940 UTC ",  // trailing character
        "2018-02-27T16:32:13.802940 UTC",   // wrong separator
        "2018/02/27 16:32:13.802940 UTC",   // wrong separators
        "18-02-27 16:32:13.802940 UTC",     // two-digit year
        "2018-2-27 16:32:13.802940 UTC",    // month not zero-padded
        "2018-02-27 16:32:13.80294 UTC",    // five fractional digits
        "2018-02-27 16:32:13.8029400 UTC",  // seven fractional digits
        "2018-02-27 16:32:13 UTC",          // no fractional seconds
        "2018-02-27  16:32:13.802940 UTC",  // double space
        "2018-02-27 16:32:1x.802940 UTC",   // non-digit in a digit run
    ];
    for s in cases {
        let err = parse_timestamp(s).unwrap_err();
        assert_eq!(
            err,
            ParseError::Failure(FailureCause::TimestampLayout, String::from(s)),
            "case: {s:?}"
        );
    }
}

#[test]
fn timestamp_out_of_range_values_fail() {
    let cases = [
        "2018-00-27 16:32:13.802940 UTC",  // month zero
        "2018-13-27 16:32:13.802940 UTC",  // month thirteen
        "2018-02-00 16:32:13.802940 UTC",  // day zero
        "2018-02-29 16:32:13.802940 UTC",  // Feb 29 of a common year
        "2018-04-31 16:32:13.802940 UTC",  // April has 30 days
        "1900-02-29 16:32:13.802940 UTC",  // 1900 is not a leap year
        "2018-02-27 24:00:00.000000 UTC",  // hour out of range
        "2018-02-27 16:60:13.802940 UTC",  // minute out of range
        "2018-02-27 16:32:60.802940 UTC",  // second out of range
    ];
    for s in cases {
        let err = parse_timestamp(s).unwrap_err();
        assert_eq!(
            err,
            ParseError::Failure(FailureCause::TimestampRange, String::from(s)),
            "case: {s:?}"
        );
    }
}

#[test]
fn timestamp_leap_days_are_accepted() {
    assert!(parse_timestamp("2016-02-29 00:00:00.000000 UTC").is_ok());
    assert!(parse_timestamp("2000-02-29 00:00:00.000000 UTC").is_ok());
    assert!(parse_timestamp("2018-12-31 23:59:59.999999 UTC").is_ok());
}
