use rhymr_rs::timestamp::{absolute_time, relative_time};

#[test]
fn absolute_time_is_the_utc_date_and_minute() {
    assert_eq!(absolute_time(0), "1970-01-01 00:00 UTC");
    assert_eq!(absolute_time(86399), "1970-01-01 23:59 UTC");
    assert_eq!(absolute_time(-1), "1969-12-31 23:59 UTC");
    assert_eq!(absolute_time(951782400), "2000-02-29 00:00 UTC");
    assert_eq!(absolute_time(1700000000), "2023-11-14 22:13 UTC");
    assert_eq!(absolute_time(253402300799), "9999-12-31 23:59 UTC");
}

#[test]
fn absolute_time_pads_years_like_format_does() {
    assert_eq!(absolute_time(-62167219200), "0000-01-01 00:00 UTC");
    assert_eq!(absolute_time(-62167219260), "-001-12-31 23:59 UTC");
    assert_eq!(absolute_time(253402300800), "10000-01-01 00:00 UTC");
    // The extremes do not overflow.
    assert!(absolute_time(i64::MIN).ends_with(" UTC"));
    assert!(absolute_time(i64::MAX).ends_with(" UTC"));
}

#[test]
fn relative_time_picks_the_largest_whole_unit() {
    assert_eq!(relative_time(100, 100), "just now");
    assert_eq!(relative_time(0, 59), "just now");
    assert_eq!(relative_time(200, 100), "just now");
    assert_eq!(relative_time(0, 60), "1m");
    assert_eq!(relative_time(0, 3599), "59m");
    assert_eq!(relative_time(0, 3600), "1h");
    assert_eq!(relative_time(0, 86399), "23h");
    assert_eq!(relative_time(0, 86400), "1d");
    assert_eq!(relative_time(0, 2591999), "29d");
    assert_eq!(relative_time(0, 2592000), "1mo");
    assert_eq!(relative_time(0, 31535999), "12mo");
    assert_eq!(relative_time(0, 31536000), "1y");
    assert_eq!(relative_time(1000, 95001000), "3y");
}
