use rtb_aggregator::time::{
    split_underscore, TimeParseError, TimeParseErrorKind, TimeRange, WrappedDateTimeUtc,
    MAX_TIMESTAMP, MIN_TIMESTAMP,
};

fn at(secs: i64, nanos: u32) -> WrappedDateTimeUtc {
    WrappedDateTimeUtc::from_parts(secs, nanos).unwrap()
}

#[test]
fn parse_millis_with_z() {
    let t = WrappedDateTimeUtc::parse("2022-03-22T12:15:00.123Z").unwrap();
    assert_eq!(t, at(1647951300, 123_000_000));
    assert_eq!(t.timestamp(), 1647951300);
}

#[test]
fn parse_millis_without_z() {
    let t = WrappedDateTimeUtc::parse("2022-03-22T12:15:00.500").unwrap();
    assert_eq!(t, at(1647951300, 500_000_000));
}

#[test]
fn parse_whole_seconds() {
    let t = WrappedDateTimeUtc::parse("1970-01-01T00:00:01").unwrap();
    assert_eq!(t, at(1, 0));
}

#[test]
fn parse_rejects_other_text() {
    assert!(WrappedDateTimeUtc::parse("yesterday").is_err());
    assert!(WrappedDateTimeUtc::parse("").is_err());
    assert!(WrappedDateTimeUtc::parse("2022-03-22 12:15:00").is_err());
}

#[test]
fn from_parts_bounds_nanos() {
    assert!(WrappedDateTimeUtc::from_parts(0, 1_999_999_999).is_some());
    assert!(WrappedDateTimeUtc::from_parts(0, 2_000_000_000).is_none());
}

#[test]
fn from_timestamp_round_trips() {
    let t = WrappedDateTimeUtc::from_timestamp(1647951300).unwrap();
    assert_eq!(t, at(1647951300, 0));
    assert_eq!(t.timestamp(), 1647951300);
    let parsed = WrappedDateTimeUtc::parse("2022-03-22T12:15:00").unwrap();
    assert_eq!(parsed, t);
}

#[test]
fn from_timestamp_out_of_range() {
    assert!(WrappedDateTimeUtc::from_timestamp(i64::MAX).is_none());
    assert!(WrappedDateTimeUtc::from_timestamp(i64::MIN).is_none());
}

#[test]
fn instants_order_by_seconds_then_nanos() {
    assert!(at(1, 999) < at(2, 0));
    assert!(at(2, 1) > at(2, 0));
    assert!(at(-5, 0) < at(0, 0));
    assert!(at(3, 3) <= at(3, 3));
}

#[test]
fn split_underscore_pieces() {
    assert_eq!(split_underscore("ab_cd"), Some(("ab", "cd")));
    assert_eq!(split_underscore("_"), Some(("", "")));
    assert_eq!(split_underscore("abcd"), None);
    assert_eq!(split_underscore("a_b_c"), None);
    assert_eq!(split_underscore("żó_łć"), Some(("żó", "łć")));
}

#[test]
fn time_range_parse_and_contains() {
    let r = TimeRange::parse("2022-03-01T00:00:00.000_2022-03-01T00:00:10.000");
    assert_eq!(r.start, at(1646092800, 0));
    assert_eq!(r.end, at(1646092810, 0));
    assert!(r.contains(&at(1646092800, 0)));
    assert!(r.contains(&at(1646092809, 999_999_999)));
    assert!(!r.contains(&at(1646092810, 0)));
    assert!(!r.contains(&at(1646092799, 999_999_999)));
}

#[test]
fn time_range_is_half_open() {
    let empty = TimeRange::parse("2022-03-01T00:00:05_2022-03-01T00:00:05");
    assert!(!empty.contains(&at(1646092805, 0)));
    let r = TimeRange::parse("2022-03-01T00:00:05_2022-03-01T00:00:06");
    assert!(r.contains(&at(1646092805, 0)));
    assert!(!r.contains(&at(1646092806, 0)));
}

#[test]
fn time_range_try_parse_rejects() {
    assert!(TimeRange::try_parse("2022-03-01T00:00:00").is_none());
    assert!(TimeRange::try_parse("2022-03-01T00:00:00_nope").is_none());
    assert!(TimeRange::try_parse("a_b_c").is_none());
    assert!(TimeRange::try_parse("2022-03-01T00:00:00_2022-03-01T00:00:01").is_some());
}

#[test]
fn from_timestamp_range_edges() {
    assert_eq!(MIN_TIMESTAMP, -8334601228800);
    assert_eq!(MAX_TIMESTAMP, 8210266876799);
    assert_eq!(WrappedDateTimeUtc::from_timestamp(MIN_TIMESTAMP).unwrap().timestamp(), MIN_TIMESTAMP);
    assert_eq!(WrappedDateTimeUtc::from_timestamp(MAX_TIMESTAMP).unwrap().timestamp(), MAX_TIMESTAMP);
    assert!(WrappedDateTimeUtc::from_timestamp(MIN_TIMESTAMP - 1).is_none());
    assert!(WrappedDateTimeUtc::from_timestamp(MAX_TIMESTAMP + 1).is_none());
}

#[test]
fn parse_reports_the_last_format_error() {
    assert_eq!(WrappedDateTimeUtc::parse(""), Err(TimeParseError(TimeParseErrorKind::TooShort)));
    assert_eq!(
        WrappedDateTimeUtc::parse("2022-03-22 12:15:00"),
        Err(TimeParseError(TimeParseErrorKind::Invalid))
    );
    assert_eq!(
        WrappedDateTimeUtc::parse("2022-03-22T12:15:00x"),
        Err(TimeParseError(TimeParseErrorKind::TooLong))
    );
}

#[test]
fn from_parts_bounds_seconds_to_chrono_range() {
    assert!(WrappedDateTimeUtc::from_parts(MAX_TIMESTAMP, 0).is_some());
    assert!(WrappedDateTimeUtc::from_parts(MAX_TIMESTAMP + 1, 0).is_none());
    assert!(WrappedDateTimeUtc::from_parts(MIN_TIMESTAMP, 0).is_some());
    assert!(WrappedDateTimeUtc::from_parts(MIN_TIMESTAMP - 1, 0).is_none());
    let w = WrappedDateTimeUtc::from_parts(MAX_TIMESTAMP, 5).unwrap();
    assert_eq!(
        WrappedDateTimeUtc::from_timestamp(w.timestamp()).unwrap(),
        WrappedDateTimeUtc::from_parts(MAX_TIMESTAMP, 0).unwrap()
    );
}
