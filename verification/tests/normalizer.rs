use mailsync::datetime::fuzzy_datetime_parser;

const JUL4_NOON_UTC: i64 = 994248000;

#[test]
fn weekday_comma_and_named_zone() {
    let ts = fuzzy_datetime_parser("Wed, 4 Jul 2001 12:00:00 GMT").unwrap();
    assert_eq!(ts.offset_seconds, 0);
    assert_eq!(ts.utc_seconds, JUL4_NOON_UTC);
}

#[test]
fn cet_without_seconds() {
    let ts = fuzzy_datetime_parser("4 Jul 2001 12:00 CET").unwrap();
    assert_eq!(ts.offset_seconds, 3600);
    assert_eq!(ts.utc_seconds, JUL4_NOON_UTC - 3600);
}

#[test]
fn garbage_is_absent_not_fatal() {
    assert!(fuzzy_datetime_parser("garbage").is_none());
}

#[test]
fn empty_and_short_strings_do_not_panic() {
    assert!(fuzzy_datetime_parser("").is_none());
    assert!(fuzzy_datetime_parser("hi").is_none());
    assert!(fuzzy_datetime_parser("Wed ").is_none());
}

#[test]
fn bare_weekday_names() {
    let ts = fuzzy_datetime_parser("Sun 4 Jul 2001 12:00:00 +0000").unwrap();
    assert_eq!(ts.utc_seconds, JUL4_NOON_UTC);
    let ts = fuzzy_datetime_parser("Sat 4 Jul 2001 12:00:00 +0000").unwrap();
    assert_eq!(ts.utc_seconds, JUL4_NOON_UTC);
}

#[test]
fn stray_leading_comma() {
    let ts = fuzzy_datetime_parser(", 4 Jul 2001 12:00:00 +0000").unwrap();
    assert_eq!(ts.utc_seconds, JUL4_NOON_UTC);
}

#[test]
fn malformed_gmt_offset_spelling() {
    let ts = fuzzy_datetime_parser("Wed, 4 Jul 2001 12:00:00 GMT+00:00").unwrap();
    assert_eq!(ts.offset_seconds, 0);
    assert_eq!(ts.utc_seconds, JUL4_NOON_UTC);
}

#[test]
fn invalid_offset_magnitude() {
    let ts = fuzzy_datetime_parser("4 Jul 2001 12:00:00 -0060").unwrap();
    assert_eq!(ts.offset_seconds, -3600);
    assert_eq!(ts.utc_seconds, JUL4_NOON_UTC + 3600);
}

#[test]
fn malformed_offset_separator() {
    let ts = fuzzy_datetime_parser("4 Jul 2001 12:00:00 -05-30").unwrap();
    assert_eq!(ts.offset_seconds, -(5 * 3600 + 30 * 60));
}

#[test]
fn lowercase_zone_artifact() {
    let ts = fuzzy_datetime_parser("4 Jul 2001 12:00:00 t0100").unwrap();
    assert_eq!(ts.offset_seconds, 3600);
}

#[test]
fn dots_in_time_token() {
    let ts = fuzzy_datetime_parser("4 Jul 2001 12.00.00 +0000").unwrap();
    assert_eq!(ts.utc_seconds, JUL4_NOON_UTC);
}

#[test]
fn named_zone_table() {
    let cases: Vec<(&str, i32)> = vec![
        ("4 Jul 2001 12:00:00 UT", 0),
        ("4 Jul 2001 12:00:00 UTC", 0),
        ("4 Jul 2001 12:00:00 CEST", 7200),
        ("4 Jul 2001 12:00:00 CST", -21600),
        ("4 Jul 2001 12:00:00 PDT", -25200),
        ("4 Jul 2001 12:00:00 PST", -28800),
        ("4 Jul 2001 12:00:00 EST", -18000),
    ];
    for (input, offset) in cases {
        let ts = fuzzy_datetime_parser(input).unwrap();
        assert_eq!(ts.offset_seconds, offset, "for {:?}", input);
        assert_eq!(ts.utc_seconds, JUL4_NOON_UTC - offset as i64, "for {:?}", input);
    }
}

#[test]
fn pacific_standard_time_marker() {
    let ts = fuzzy_datetime_parser("4 Jul 2001 12:00:00 Pacific Standard Time").unwrap();
    assert_eq!(ts.offset_seconds, -28800);
}

#[test]
fn placeholder_zone_with_pdt_marker() {
    let ts = fuzzy_datetime_parser("4 Jul 2001 12:00:00 %z (PDT)").unwrap();
    assert_eq!(ts.offset_seconds, -25200);
}

#[test]
fn missing_zone_defaults_to_utc() {
    let ts = fuzzy_datetime_parser("4 Jul 2001 12:00").unwrap();
    assert_eq!(ts.offset_seconds, 0);
    assert_eq!(ts.utc_seconds, JUL4_NOON_UTC);
}

#[test]
fn four_tokens_ending_in_utc_still_lack_a_time() {
    // the trailing UTC becomes a zone token, but with no time token left
    // no pattern can parse the rest
    assert!(fuzzy_datetime_parser("4 Jul 2001 UTC").is_none());
}

#[test]
fn repeated_spaces_collapse() {
    let ts = fuzzy_datetime_parser("4  Jul   2001  12:00:00  +0000").unwrap();
    assert_eq!(ts.utc_seconds, JUL4_NOON_UTC);
}

#[test]
fn log_style_year_last() {
    let ts = fuzzy_datetime_parser("Jul 04 12:00:00 +0000 2001").unwrap();
    assert_eq!(ts.utc_seconds, JUL4_NOON_UTC);
}
