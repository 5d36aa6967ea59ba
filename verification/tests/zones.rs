use tz_service::parse::parse_rfc3339;
use tz_service::zone::{decode_zone, validate_zone, render_in_zone, render_all, fetch_in_zone};

#[test]
fn decodes_percent_encoded_separator() {
    assert_eq!(decode_zone("Africa%2FAlgiers").as_str(), "Africa/Algiers");
    assert_eq!(decode_zone("UTC").as_str(), "UTC");
    assert_eq!(decode_zone("A%2FB%2FC").as_str(), "A/B/C");
    assert_eq!(decode_zone("%2F").as_str(), "/");
    // Only the exact upper-case escape is decoded.
    assert_eq!(decode_zone("Africa%2fAlgiers").as_str(), "Africa%2fAlgiers");
}

#[test]
fn encoded_and_plain_separator_resolve_identically() {
    let a = validate_zone("Africa%2FAlgiers").unwrap();
    let b = validate_zone("Africa/Algiers").unwrap();
    assert_eq!(a.name(), b.name());
    let p = parse_rfc3339("2023-05-17T17:50:34+02:00").unwrap();
    assert_eq!(
        render_in_zone(&p.instant, &a).as_str(),
        render_in_zone(&p.instant, &b).as_str()
    );
}

#[test]
fn unknown_zone_fails() {
    let e = validate_zone("Not/AZone").unwrap_err();
    assert_eq!(e.identifier.as_str(), "Not/AZone");
    assert_eq!(e.message().as_str(), "failed to parse timezone");
}

#[test]
fn renders_in_utc_and_madrid() {
    let p = parse_rfc3339("2023-05-17T17:50:34+02:00").unwrap();
    let instants = vec![p.instant];
    let utc = fetch_in_zone(&instants, "UTC").unwrap();
    assert_eq!(utc.len(), 1);
    assert_eq!(utc[0].as_str(), "2023-05-17T15:50:34+00:00");
    let madrid = fetch_in_zone(&instants, "Europe%2FMadrid").unwrap();
    assert_eq!(madrid[0].as_str(), "2023-05-17T17:50:34+02:00");
}

#[test]
fn zone_rule_is_evaluated_at_the_instant() {
    // Madrid is +01:00 in winter and +02:00 in summer.
    let winter = parse_rfc3339("2023-01-17T12:00:00Z").unwrap();
    let summer = parse_rfc3339("2023-07-17T12:00:00Z").unwrap();
    let zone = validate_zone("Europe/Madrid").unwrap();
    assert_eq!(
        render_in_zone(&winter.instant, &zone).as_str(),
        "2023-01-17T13:00:00+01:00"
    );
    assert_eq!(
        render_in_zone(&summer.instant, &zone).as_str(),
        "2023-07-17T14:00:00+02:00"
    );
}

#[test]
fn fetch_in_unknown_zone_renders_nothing() {
    let p = parse_rfc3339("2023-05-17T17:50:34+02:00").unwrap();
    let instants = vec![p.instant];
    let e = fetch_in_zone(&instants, "Not%2FAZone").unwrap_err();
    assert_eq!(e.identifier.as_str(), "Not/AZone");
}

#[test]
fn render_all_keeps_insertion_order() {
    let a = parse_rfc3339("2023-05-17T17:50:34+02:00").unwrap();
    let b = parse_rfc3339("1999-12-31T23:59:59-05:00").unwrap();
    let zone = validate_zone("UTC").unwrap();
    let rendered = render_all(&vec![a.instant, b.instant], &zone);
    assert_eq!(rendered.len(), 2);
    assert_eq!(rendered[0].as_str(), "2023-05-17T15:50:34+00:00");
    assert_eq!(rendered[1].as_str(), "2000-01-01T04:59:59+00:00");
}
