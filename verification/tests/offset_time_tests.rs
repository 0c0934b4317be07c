use ext_time::OffsetDateTime;
use ext_time::OffsetDateTimeError;
use ext_time::Weekday;

fn create_test_datetime() -> OffsetDateTime {
    OffsetDateTime::new(2024, 3, 15, 14, 30, 45, 0, 8).unwrap()
}

#[test]
fn test_to_display_string_with_offset() {
    // A fixed time with UTC+8 offset
    let time_with_offset = OffsetDateTime::new(2024, 3, 15, 12, 0, 0, 0, 8).unwrap();

    // Test UTC+8
    let str_utc8 = time_with_offset.to_display_string(8);
    assert_eq!(str_utc8, "2024-03-15 12:00:00+08:00");

    // Test UTC+0
    let str_utc = time_with_offset.to_display_string(0);
    assert_eq!(str_utc, "2024-03-15 04:00:00+00:00");

    // Test UTC-8
    let str_utc_minus8 = time_with_offset.to_display_string(-8);
    assert_eq!(str_utc_minus8, "2024-03-14 20:00:00-08:00");
}

#[test]
fn test_to_chinese_string() {
    let time_with_offset = OffsetDateTime::new(2024, 3, 15, 12, 0, 0, 0, 8).unwrap();

    let chinese_str = time_with_offset.to_chinese_string();
    assert_eq!(chinese_str, "2024年03月15日 12时00分00秒 +08:00");
}

#[test]
fn test_replace_time_with_seconds() {
    let dt = create_test_datetime();

    // Test replacing with 10:20:30
    let new_dt = dt.replace_time_with_seconds(37230).unwrap();
    assert_eq!(new_dt.hour(), 10);
    assert_eq!(new_dt.minute(), 20);
    assert_eq!(new_dt.second(), 30);

    // Test replacing with 1:01:00
    let new_dt = dt.replace_time_with_seconds(3660).unwrap();
    assert_eq!(new_dt.hour(), 1);
    assert_eq!(new_dt.minute(), 1);
    assert_eq!(new_dt.second(), 0);

    // Test invalid seconds
    assert!(dt.replace_time_with_seconds(-1).is_err());
    assert!(dt.replace_time_with_seconds(24 * 3600).is_err());
}

#[test]
fn extend_offset_time_tests_test_align_to() {
    let dt = create_test_datetime();

    // Test alignment to 5 minutes
    let aligned = dt.align_to(300).unwrap(); // 5 minutes = 300 seconds
    assert_eq!(aligned.hour(), 14);
    assert_eq!(aligned.minute(), 30);
    assert_eq!(aligned.second(), 0);

    // Test alignment to 5 seconds
    let dt = dt.replace_time_with_seconds(14 * 3600 + 30 * 60 + 3).unwrap();
    let aligned = dt.align_to(5).unwrap();
    assert_eq!(aligned.hour(), 14);
    assert_eq!(aligned.minute(), 30);
    assert_eq!(aligned.second(), 0);

    // Test alignment to 1 hour
    let aligned = dt.align_to(3600).unwrap();
    assert_eq!(aligned.hour(), 14);
    assert_eq!(aligned.minute(), 0);
    assert_eq!(aligned.second(), 0);

    // Test invalid unit
    assert!(dt.align_to(0).is_err());
    // 24 * 3600 is a valid alignment interval (24 hours)
    let aligned = dt.align_to(24 * 3600).unwrap();
    assert_eq!(aligned.hour(), 0);
    assert_eq!(aligned.minute(), 0);
    assert_eq!(aligned.second(), 0);
}

#[test]
fn test_next_day() {
    let dt = create_test_datetime();
    let next = dt.next_day();
    assert_eq!(next.day(), 16); // March 16
    assert_eq!(next.hour(), 14);
    assert_eq!(next.minute(), 30);
    assert_eq!(next.second(), 45);
}

#[test]
fn extend_offset_time_tests_test_next_hour() {
    let dt = create_test_datetime();
    let next = dt.next_hour();
    assert_eq!(next.day(), 15);
    assert_eq!(next.hour(), 15);
    assert_eq!(next.minute(), 30);
    assert_eq!(next.second(), 45);
}

#[test]
fn extend_offset_time_tests_test_next_minute() {
    let dt = create_test_datetime();
    let next = dt.next_minute();
    assert_eq!(next.day(), 15);
    assert_eq!(next.hour(), 14);
    assert_eq!(next.minute(), 31);
    assert_eq!(next.second(), 45);
}

#[test]
fn extend_offset_time_tests_test_next_second() {
    let dt = create_test_datetime();
    let next = dt.next_second();
    assert_eq!(next.day(), 15);
    assert_eq!(next.hour(), 14);
    assert_eq!(next.minute(), 30);
    assert_eq!(next.second(), 46);
}

#[test]
fn test_next_day_month_boundary() {
    let dt = OffsetDateTime::new(2024, 3, 31, 14, 30, 45, 0, 8).unwrap();

    let next = dt.next_day();
    assert_eq!(next.month(), 4); // April
    assert_eq!(next.day(), 1);
    assert_eq!(next.hour(), 14);
    assert_eq!(next.minute(), 30);
    assert_eq!(next.second(), 45);
}

#[test]
fn test_next_day_year_boundary() {
    let dt = OffsetDateTime::new(2024, 12, 31, 14, 30, 45, 0, 8).unwrap();

    let next = dt.next_day();
    assert_eq!(next.year(), 2025);
    assert_eq!(next.month(), 1); // January
    assert_eq!(next.day(), 1);
    assert_eq!(next.hour(), 14);
    assert_eq!(next.minute(), 30);
    assert_eq!(next.second(), 45);
}

#[test]
fn extend_offset_time_tests_test_to_hour_seconds() {
    let dt = create_test_datetime();
    assert_eq!(dt.to_hour_seconds(), 50400); // 14 * 3600

    let dt = dt.replace_time_with_seconds(30 * 60 + 45).unwrap();
    assert_eq!(dt.to_hour_seconds(), 0);

    let dt = dt.replace_time_with_seconds(23 * 3600 + 59 * 60 + 59).unwrap();
    assert_eq!(dt.to_hour_seconds(), 82800); // 23 * 3600
}

#[test]
fn extend_offset_time_tests_test_to_minute_seconds() {
    let dt = create_test_datetime();
    assert_eq!(dt.to_minute_seconds(), 52200); // 14 * 3600 + 30 * 60

    let dt = dt.replace_time_with_seconds(30 * 60 + 45).unwrap();
    assert_eq!(dt.to_minute_seconds(), 1800); // 30 * 60

    let dt = dt.replace_time_with_seconds(23 * 3600 + 59 * 60 + 59).unwrap();
    assert_eq!(dt.to_minute_seconds(), 86340); // 23 * 3600 + 59 * 60
}

#[test]
fn test_duration_to_time_same_day() {
    // Test case: current time 14:30:45, target time 20:00:00 (same day)
    let dt = create_test_datetime();
    let duration = dt.duration_to_time(20, 0, 0);

    // Expected duration: 5 hours 29 minutes 15 seconds
    assert_eq!(duration / 3_600_000, 5);
    assert_eq!((duration / 60_000) % 60, 29);
    assert_eq!((duration / 1000) % 60, 15);
}

#[test]
fn test_duration_to_time_cross_day() {
    // Test case: current time 23:30:45, target time 08:00:00 (next day)
    let dt = create_test_datetime()
        .replace_time_with_seconds(23 * 3600 + 30 * 60 + 45)
        .unwrap();
    let duration = dt.duration_to_time(8, 0, 0);

    // Expected duration: 8 hours 29 minutes 15 seconds
    assert_eq!(duration / 3_600_000, 8);
    assert_eq!((duration / 60_000) % 60, 29);
    assert_eq!((duration / 1000) % 60, 15);
}

#[test]
fn test_duration_to_time_same_time() {
    // Test case: current time 14:30:45, target time 14:30:45 (same time)
    let dt = create_test_datetime();
    let duration = dt.duration_to_time(14, 30, 45);

    // Expected duration: 0 seconds
    assert_eq!(duration, 0);
}

#[test]
fn test_duration_to_time_just_before_midnight() {
    // Test case: current time 23:59:59, target time 00:00:00 (next day)
    let dt = create_test_datetime()
        .replace_time_with_seconds(23 * 3600 + 59 * 60 + 59)
        .unwrap();
    let duration = dt.duration_to_time(0, 0, 0);

    // Expected duration: 1 second
    assert_eq!(duration, 1000);
}

#[test]
fn test_duration_to_time_with_milliseconds() {
    // A half-elapsed second pushes the same time of day to tomorrow.
    let dt = OffsetDateTime::new(2024, 3, 15, 14, 30, 45, 500, 8).unwrap();
    let duration = dt.duration_to_time(14, 30, 45);
    assert_eq!(duration, 86_400_000 - 500);
}

#[test]
fn test_milli_timestamp_round_trip() {
    // from_milliseconds followed by milli_timestamp recovers the count.
    let ts: u64 = 1_700_000_000_123;
    let dt = OffsetDateTime::from_milliseconds(ts, 3).unwrap();
    assert_eq!(dt.offset(), 3);
    assert_eq!(dt.millisecond(), 123);
    assert_eq!(dt.milli_timestamp(), ts as i64);
}

#[test]
fn test_from_seconds_known_instant() {
    // 1546300800 is 2019-01-01 00:00:00 UTC.
    let dt = OffsetDateTime::from_seconds(1_546_300_800, 0).unwrap();
    assert_eq!(dt.year(), 2019);
    assert_eq!(dt.month(), 1);
    assert_eq!(dt.day(), 1);
    assert_eq!(dt.hour(), 0);
    assert_eq!(dt.minute(), 0);
    assert_eq!(dt.second(), 0);

    // The same instant a whole-hour offset east.
    let dt = OffsetDateTime::from_seconds(1_546_300_800, 8).unwrap();
    assert_eq!(dt.year(), 2019);
    assert_eq!(dt.hour(), 8);
    assert_eq!(dt.to_unix_timestamp(), 1_546_300_800);
}

#[test]
fn test_unix_timestamp_adapters() {
    let dt = OffsetDateTime::from_unix_timestamp(0).unwrap();
    assert_eq!(dt.year(), 1970);
    assert_eq!(dt.month(), 1);
    assert_eq!(dt.day(), 1);
    assert_eq!(dt.hour(), 0);
    assert_eq!(dt.to_unix_timestamp(), 0);

    assert!(OffsetDateTime::from_unix_timestamp(i64::MAX).is_err());
    assert!(OffsetDateTime::from_unix_timestamp(i64::MIN).is_err());
}

#[test]
fn test_from_seconds_errors() {
    let err = OffsetDateTime::from_seconds(0, 26).unwrap_err();
    assert!(matches!(err, OffsetDateTimeError::InvalidOffsetHours(26)));

    // One second past the last representable instant.
    let err = OffsetDateTime::from_seconds(253_402_300_800, 0).unwrap_err();
    assert!(matches!(err, OffsetDateTimeError::InvalidTimestamp(_)));

    // In range in UTC, but not at the requested offset.
    assert!(OffsetDateTime::from_seconds(253_402_300_799, 8).is_err());
    assert!(OffsetDateTime::from_seconds(253_402_300_799, 0).is_ok());
}

#[test]
fn test_from_date_time() {
    let dt = OffsetDateTime::from_date_time("20240315", "14:30:45", 123, 8).unwrap();
    assert_eq!(dt.year(), 2024);
    assert_eq!(dt.month(), 3);
    assert_eq!(dt.day(), 15);
    assert_eq!(dt.hour(), 14);
    assert_eq!(dt.minute(), 30);
    assert_eq!(dt.second(), 45);
    assert_eq!(dt.millisecond(), 123);
    assert_eq!(dt.offset(), 8);

    // Out-of-range fields and malformed templates are parse errors.
    assert!(matches!(
        OffsetDateTime::from_date_time("20240315", "14:30:45", 1000, 8),
        Err(OffsetDateTimeError::ParseError(_))
    ));
    assert!(OffsetDateTime::from_date_time("20240332", "14:30:45", 0, 8).is_err());
    assert!(OffsetDateTime::from_date_time("2024031", "14:30:45", 0, 8).is_err());
    assert!(OffsetDateTime::from_date_time("20240315", "14-30-45", 0, 8).is_err());
    assert!(OffsetDateTime::from_date_time("20240315", "24:00:00", 0, 8).is_err());
    assert!(OffsetDateTime::from_date_time("20240315", "14:30:45", 0, 26).is_err());
    // February 29 of 1900 is rejected by the Gregorian rule the parser uses.
    assert!(OffsetDateTime::from_date_time("19000229", "00:00:00", 0, 0).is_err());
}

#[test]
fn test_from_simple() {
    let dt = OffsetDateTime::from_simple("20240315_1430", 8).unwrap();
    assert_eq!(dt.year(), 2024);
    assert_eq!(dt.month(), 3);
    assert_eq!(dt.day(), 15);
    assert_eq!(dt.hour(), 14);
    assert_eq!(dt.minute(), 30);
    assert_eq!(dt.second(), 0);
    assert_eq!(dt.millisecond(), 0);

    assert!(OffsetDateTime::from_simple("20240315-1430", 8).is_err());
    assert!(OffsetDateTime::from_simple("20240315_2460", 8).is_err());
    assert!(OffsetDateTime::from_simple("20240315_143", 8).is_err());
}

#[test]
fn test_convert_to_dot_date() {
    assert_eq!(
        OffsetDateTime::convert_to_dot_date("20240315").unwrap(),
        "2024.03.15"
    );
    assert!(matches!(
        OffsetDateTime::convert_to_dot_date("2024031x"),
        Err(OffsetDateTimeError::ParseError(_))
    ));
    assert!(OffsetDateTime::convert_to_dot_date("20240229").is_ok());
    assert!(OffsetDateTime::convert_to_dot_date("20230229").is_err());
}

#[test]
fn test_is_same_minute() {
    let a = create_test_datetime();
    let b = OffsetDateTime::new(1999, 7, 2, 14, 30, 1, 0, 0).unwrap();
    let c = OffsetDateTime::new(2024, 3, 15, 14, 31, 45, 0, 8).unwrap();
    assert!(a.is_same_minute(&b));
    assert!(!a.is_same_minute(&c));
}

#[test]
fn test_reset_minute() {
    let dt = OffsetDateTime::new(2024, 3, 15, 14, 30, 45, 500, 8).unwrap();
    let reset = dt.reset_minute();
    assert_eq!(reset.hour(), 14);
    assert_eq!(reset.minute(), 30);
    assert_eq!(reset.second(), 0);
    assert_eq!(reset.millisecond(), 0);
    assert_eq!(reset.day(), 15);
}

#[test]
fn test_align_to_idempotent() {
    let dt = create_test_datetime();
    let once = dt.align_to(300).unwrap();
    let twice = once.align_to(300).unwrap();
    assert_eq!(once, twice);
    // A negative interval aligns like its absolute value.
    let neg = dt.align_to(-300).unwrap();
    assert_eq!(neg, once);
}

#[test]
fn test_next_day_over_a_year() {
    // 2024 is a leap year: 366 applications of next_day reach 2025-01-01.
    let mut dt = OffsetDateTime::new(2024, 1, 1, 0, 0, 0, 0, 0).unwrap();
    for _ in 0..366 {
        dt = dt.next_day();
    }
    assert_eq!(dt.year(), 2025);
    assert_eq!(dt.month(), 1);
    assert_eq!(dt.day(), 1);
}

#[test]
fn test_next_day_treats_1900_as_leap() {
    // The simplified divisible-by-four rule makes 1900 a leap year, so
    // walking from February 28 lands on February 29.
    let dt = OffsetDateTime::new(1900, 2, 28, 0, 0, 0, 0, 0).unwrap();
    let next = dt.next_day();
    assert_eq!(next.month(), 2);
    assert_eq!(next.day(), 29);

    // A full walk of 1900 therefore takes 366 steps.
    let mut dt = OffsetDateTime::new(1900, 1, 1, 0, 0, 0, 0, 0).unwrap();
    for _ in 0..366 {
        dt = dt.next_day();
    }
    assert_eq!(dt.year(), 1901);
    assert_eq!(dt.month(), 1);
    assert_eq!(dt.day(), 1);
}

#[test]
fn test_duration_to_own_time_is_zero() {
    let dt = OffsetDateTime::new(2003, 11, 9, 6, 7, 8, 0, -5).unwrap();
    assert_eq!(dt.duration_to_time(6, 7, 8), 0);
}

#[test]
fn test_start_and_end_of_day() {
    let dt = create_test_datetime();
    let start = dt.start_of_day();
    assert_eq!(start.day(), 15);
    assert_eq!(start.hour(), 0);
    assert_eq!(start.minute(), 0);
    assert_eq!(start.second(), 0);
    let end = dt.end_of_day();
    assert_eq!(end.day(), 15);
    assert_eq!(end.hour(), 23);
    assert_eq!(end.minute(), 59);
    assert_eq!(end.second(), 59);
}

#[test]
fn test_start_and_end_of_week() {
    // 2024-03-15 is a Friday; its week runs March 11 through March 17.
    let dt = create_test_datetime();
    assert_eq!(ext_time::weekday_to_u8(dt.weekday()), 4);
    assert!(matches!(dt.weekday(), Weekday::Friday));

    let start = dt.start_of_week();
    assert_eq!(start.year(), 2024);
    assert_eq!(start.month(), 3);
    assert_eq!(start.day(), 11);
    assert_eq!(start.hour(), 0);
    assert!(matches!(start.weekday(), Weekday::Monday));

    let end = dt.end_of_week();
    assert_eq!(end.day(), 17);
    assert_eq!(end.hour(), 23);
    assert_eq!(end.minute(), 59);
    assert_eq!(end.second(), 59);
    assert!(matches!(end.weekday(), Weekday::Sunday));
}

#[test]
fn test_start_and_end_of_month() {
    // March 2024 ends on the 31st; February 2024 is leap and ends on the
    // 29th.
    let dt = create_test_datetime();
    let start = dt.start_of_month();
    assert_eq!(start.day(), 1);
    assert_eq!(start.hour(), 0);
    let end = dt.end_of_month();
    assert_eq!(end.day(), 31);
    assert_eq!(end.hour(), 23);
    assert_eq!(end.minute(), 59);
    assert_eq!(end.second(), 59);

    let feb = OffsetDateTime::new(2024, 2, 10, 8, 0, 0, 0, 8).unwrap();
    assert_eq!(feb.end_of_month().day(), 29);

    // The simplified rule also gives February 1900 a 29th day.
    let feb_1900 = OffsetDateTime::new(1900, 2, 10, 8, 0, 0, 0, 0).unwrap();
    assert_eq!(feb_1900.end_of_month().day(), 29);

    let feb_2023 = OffsetDateTime::new(2023, 2, 10, 8, 0, 0, 0, 0).unwrap();
    assert_eq!(feb_2023.end_of_month().day(), 28);
}

#[test]
fn test_now_with_offset() {
    let now = OffsetDateTime::now_with_offset(8);
    assert_eq!(now.offset(), 8);
    assert!(now.year() >= 2019);
}
