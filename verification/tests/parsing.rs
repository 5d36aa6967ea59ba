use tz_service::parse::{parse_rfc3339, ParseError};
use tz_service::render::render_rfc3339;
use tz_service::service::offset_string;

#[test]
fn parses_the_documented_example() {
    let p = parse_rfc3339("2023-05-17T17:50:34+02:00").unwrap();
    assert_eq!(p.offset_secs, 7200);
    assert_eq!(p.instant.nanos, 0);
    // The same wall clock written directly in UTC.
    let q = parse_rfc3339("2023-05-17T15:50:34Z").unwrap();
    assert_eq!(p.instant, q.instant);
    assert_eq!(q.offset_secs, 0);
}

#[test]
fn parses_the_unix_epoch() {
    let p = parse_rfc3339("1970-01-01T00:00:00Z").unwrap();
    assert_eq!(p.instant.secs, 0);
    let q = parse_rfc3339("1969-12-31T23:59:59Z").unwrap();
    assert_eq!(q.instant.secs, -1);
}

#[test]
fn accepts_lowercase_separators_and_space() {
    let a = parse_rfc3339("2023-05-17t17:50:34z").unwrap();
    let b = parse_rfc3339("2023-05-17 17:50:34Z").unwrap();
    assert_eq!(a.instant, b.instant);
}

#[test]
fn keeps_fractional_seconds() {
    let p = parse_rfc3339("2023-05-17T17:50:34.5+02:00").unwrap();
    assert_eq!(p.instant.nanos, 500_000_000);
    let q = parse_rfc3339("2023-05-17T17:50:34.123456789+02:00").unwrap();
    assert_eq!(q.instant.nanos, 123_456_789);
    // Digits past nanoseconds are ignored.
    let r = parse_rfc3339("2023-05-17T17:50:34.1234567891111+02:00").unwrap();
    assert_eq!(r.instant.nanos, 123_456_789);
}

#[test]
fn rejects_missing_offset() {
    assert_eq!(parse_rfc3339("2023-05-17T17:50:34"), Err(ParseError::TooShort));
    assert_eq!(
        parse_rfc3339("2023-05-17T17:50:34.123"),
        Err(ParseError::InvalidSyntax)
    );
}

#[test]
fn rejects_bad_calendar_fields() {
    assert_eq!(
        parse_rfc3339("2023-13-01T00:00:00Z"),
        Err(ParseError::FieldOutOfRange)
    );
    assert_eq!(
        parse_rfc3339("2023-02-29T00:00:00Z"),
        Err(ParseError::FieldOutOfRange)
    );
    assert_eq!(
        parse_rfc3339("2023-05-17T24:00:00Z"),
        Err(ParseError::FieldOutOfRange)
    );
    assert_eq!(
        parse_rfc3339("2023-05-17T17:50:34+24:00"),
        Err(ParseError::FieldOutOfRange)
    );
    // A leap day of a leap year is fine.
    assert!(parse_rfc3339("2024-02-29T00:00:00Z").is_ok());
}

#[test]
fn rejects_garbled_text() {
    assert_eq!(
        parse_rfc3339("2023/05/17T17:50:34+02:00"),
        Err(ParseError::InvalidSyntax)
    );
    assert_eq!(
        parse_rfc3339("2023-05-17T17:50:34+02:00extra"),
        Err(ParseError::InvalidSyntax)
    );
    assert_eq!(parse_rfc3339(""), Err(ParseError::TooShort));
}

#[test]
fn error_messages_describe_the_failure() {
    assert_eq!(
        ParseError::TooShort.message().as_str(),
        "premature end of input"
    );
    assert_eq!(
        ParseError::InvalidSyntax.message().as_str(),
        "input contains invalid characters"
    );
    assert_eq!(
        ParseError::FieldOutOfRange.message().as_str(),
        "input is out of range"
    );
}

#[test]
fn utc_round_trip_recovers_the_instant() {
    for s in [
        "2023-05-17T17:50:34+02:00",
        "2023-05-17T17:50:34.25-07:30",
        "0001-01-01T00:00:00Z",
        "9999-12-31T23:59:59+23:59",
        "2024-02-29T12:00:00.000000001Z",
    ] {
        let p = parse_rfc3339(s).unwrap();
        let rendered = render_rfc3339(p.instant.secs, p.instant.nanos, 0);
        let q = parse_rfc3339(rendered.as_str()).unwrap();
        assert_eq!(p.instant, q.instant);
        assert_eq!(q.offset_secs, 0);
    }
}

#[test]
fn renders_expected_text() {
    let p = parse_rfc3339("2023-05-17T17:50:34+02:00").unwrap();
    assert_eq!(
        render_rfc3339(p.instant.secs, p.instant.nanos, 0).as_str(),
        "2023-05-17T15:50:34+00:00"
    );
    assert_eq!(
        render_rfc3339(p.instant.secs, p.instant.nanos, 7200).as_str(),
        "2023-05-17T17:50:34+02:00"
    );
    let f = parse_rfc3339("2023-05-17T17:50:34.5+02:00").unwrap();
    assert_eq!(
        render_rfc3339(f.instant.secs, f.instant.nanos, 0).as_str(),
        "2023-05-17T15:50:34.500+00:00"
    );
}

#[test]
fn offset_text_matches_chrono_style() {
    assert_eq!(offset_string(7200).as_str(), "+02:00");
    assert_eq!(offset_string(0).as_str(), "+00:00");
    assert_eq!(offset_string(-27000).as_str(), "-07:30");
}
