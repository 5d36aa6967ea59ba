//! The library's own parser and renderer against chrono's, on the wire
//! formats both sides accept.

use chrono::{Offset, TimeZone};
use tz_service::parse::parse_rfc3339;
use tz_service::zone::{render_in_zone, validate_zone};

#[test]
fn parser_agrees_with_chrono() {
    for s in [
        "2023-05-17T17:50:34+02:00",
        "2023-05-17T15:50:34Z",
        "2023-05-17t17:50:34z",
        "2023-05-17 17:50:34+00:30",
        "2023-05-17T17:50:34.5+02:00",
        "2023-05-17T17:50:34.123456789-11:30",
        "2023-05-17T17:50:34.12345678999+02:00",
        "0001-01-01T00:00:00Z",
        "9999-12-31T23:59:59+23:59",
        "2024-02-29T00:00:00Z",
        "1969-12-31T23:59:59-00:01",
        "2023-13-01T00:00:00Z",
        "2023-02-29T00:00:00Z",
        "2023-00-10T00:00:00Z",
        "2023-05-17T24:00:00Z",
        "2023-05-17T17:50:34",
        "2023-05-17T17:50:34.Z",
        "2023-05-17T17:50:34+24:00",
        "2023-05-17T17:50:34+02:60",
        "2023-05-17X17:50:34Z",
        "2023-05-17T17:50:34Ztrailing",
        "not a datetime",
    ] {
        let ours = parse_rfc3339(s);
        let theirs = chrono::DateTime::parse_from_rfc3339(s);
        match (&ours, &theirs) {
            (Ok(p), Ok(d)) => {
                assert_eq!(p.instant.secs, d.timestamp(), "seconds of {s}");
                assert_eq!(p.instant.nanos, d.timestamp_subsec_nanos(), "nanos of {s}");
                assert_eq!(p.offset_secs, d.offset().local_minus_utc(), "offset of {s}");
            }
            (Err(_), Err(_)) => {}
            _ => panic!("disagreement on {s}: ours {ours:?}, chrono {theirs:?}"),
        }
    }
}

#[test]
fn renderer_agrees_with_chrono() {
    for (s, zone_name) in [
        ("2023-05-17T17:50:34+02:00", "UTC"),
        ("2023-05-17T17:50:34+02:00", "Europe/Madrid"),
        ("2023-05-17T17:50:34.5+02:00", "Australia/Eucla"),
        ("2023-01-17T12:00:00Z", "Europe/Madrid"),
        ("2023-01-17T12:00:00.123456789Z", "America/New_York"),
        ("1969-12-31T23:59:59-00:01", "Pacific/Kiritimati"),
        ("2024-02-29T12:00:00+13:45", "Pacific/Chatham"),
        ("0001-01-01T12:00:00Z", "UTC"),
        ("9999-12-31T00:00:00Z", "UTC"),
    ] {
        let parsed = parse_rfc3339(s).unwrap();
        let zone = validate_zone(zone_name).unwrap();
        let ours = render_in_zone(&parsed.instant, &zone);

        let tz: chrono_tz::Tz = zone_name.parse().unwrap();
        let instant = chrono::DateTime::<chrono::Utc>::from_timestamp(
            parsed.instant.secs,
            parsed.instant.nanos,
        )
        .unwrap();
        let theirs = instant.with_timezone(&tz).to_rfc3339();
        assert_eq!(ours.as_str(), theirs.as_str(), "rendering {s} in {zone_name}");
    }
}
