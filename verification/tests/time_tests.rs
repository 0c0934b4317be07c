use ext_time::Time;
use ext_time::TimeError;

#[test]
fn test_shorten() {
    let t = Time::from_hms(22, 1, 0);
    assert_eq!(t.to_shorten(), "22:01");

    let t = Time::from_hms(9, 5, 0);
    assert_eq!(t.to_shorten(), "9:05");
}

#[test]
fn test_from_str() {
    let t = Time::from_str("9:30").unwrap();
    assert_eq!(t.hour(), 9);
    assert_eq!(t.minute(), 30);

    assert!(Time::from_str("25:00").is_err());
    assert!(Time::from_str("invalid").is_err());
}

#[test]
fn test_from_str_errors() {
    // Not two numeric fields: a format error carrying the input back.
    assert!(matches!(
        Time::from_str("1:2:3"),
        Err(TimeError::InvalidFormat(_))
    ));
    assert!(matches!(Time::from_str(""), Err(TimeError::InvalidFormat(_))));
    assert!(matches!(
        Time::from_str("12:"),
        Err(TimeError::InvalidFormat(_))
    ));
    // Well-shaped but out of range: the components are reported.
    assert!(matches!(
        Time::from_str("25:00"),
        Err(TimeError::InvalidComponents(25, 0))
    ));
    assert!(matches!(
        Time::from_str("12:60"),
        Err(TimeError::InvalidComponents(12, 60))
    ));
    // Leading zeros are still numeric.
    let t = Time::from_str("09:05").unwrap();
    assert_eq!(t.hour(), 9);
    assert_eq!(t.minute(), 5);
}

#[test]
fn test_sub_ext() {
    let t1 = Time::from_hms(23, 0, 0);
    let t2 = Time::from_hms(1, 0, 0);
    assert_eq!(t1.sub_ext(t2), 22 * 3600);
    assert_eq!(t2.sub_ext(t1), 2 * 3600);
}

#[test]
fn test_is_between() {
    let t = Time::from_hms(23, 30, 0);
    assert!(t.is_between(Time::from_hms(23, 0, 0), Time::from_hms(0, 0, 0)));
    assert!(t.is_between(Time::from_hms(23, 0, 0), Time::from_hms(1, 0, 0)));

    let t = Time::from_hms(0, 30, 0);
    assert!(t.is_between(Time::from_hms(23, 0, 0), Time::from_hms(1, 0, 0)));

    let t = Time::from_hms(12, 0, 0);
    assert!(!t.is_between(Time::from_hms(23, 0, 0), Time::from_hms(1, 0, 0)));
}

#[test]
fn test_add_minutes() {
    let t = Time::from_hms(23, 30, 0);
    assert_eq!(t.add_minutes(40).to_shorten(), "0:10");

    let t = Time::from_hms(12, 0, 0);
    assert_eq!(t.add_minutes(-30).to_shorten(), "11:30");
}

#[test]
fn test_from_seconds() {
    let t = Time::from_seconds(37230).unwrap(); // 10:20:30
    assert_eq!(t.hour(), 10);
    assert_eq!(t.minute(), 20);
    assert_eq!(t.second(), 30);

    let t = Time::from_seconds(3660).unwrap(); // 1:01:00
    assert_eq!(t.hour(), 1);
    assert_eq!(t.minute(), 1);
    assert_eq!(t.second(), 0);

    assert!(Time::from_seconds(-1).is_err());
    assert!(Time::from_seconds(24 * 3600).is_err());
}

#[test]
fn test_from_seconds_error_kind() {
    assert!(matches!(
        Time::from_seconds(-1),
        Err(TimeError::InvalidSeconds(-1))
    ));
    assert!(matches!(
        Time::from_seconds(86400),
        Err(TimeError::InvalidSeconds(86400))
    ));
}

#[test]
fn test_to_seconds() {
    let t = Time::from_hms(10, 20, 30);
    assert_eq!(t.to_seconds(), 37230);

    let t = Time::from_hms(1, 1, 0);
    assert_eq!(t.to_seconds(), 3660);

    let t = Time::from_hms(0, 0, 0);
    assert_eq!(t.to_seconds(), 0);

    let t = Time::from_hms(23, 59, 59);
    assert_eq!(t.to_seconds(), 86399);
}

#[test]
fn extend_time_tests_test_align_to() {
    // Test alignment to 5 minutes
    let t = Time::from_hms(10, 34, 0);
    let aligned = t.align_to(300).unwrap(); // 5 minutes = 300 seconds
    assert_eq!(aligned.hour(), 10);
    assert_eq!(aligned.minute(), 30);
    assert_eq!(aligned.second(), 0);

    // Test alignment to 5 seconds
    let t = Time::from_hms(0, 0, 3);
    let aligned = t.align_to(5).unwrap();
    assert_eq!(aligned.hour(), 0);
    assert_eq!(aligned.minute(), 0);
    assert_eq!(aligned.second(), 0);

    // Test alignment to 1 hour
    let t = Time::from_hms(14, 30, 45);
    let aligned = t.align_to(3600).unwrap();
    assert_eq!(aligned.hour(), 14);
    assert_eq!(aligned.minute(), 0);
    assert_eq!(aligned.second(), 0);

    // Test invalid unit
    let t = Time::from_hms(10, 0, 0);
    assert!(t.align_to(0).is_err());
    // 24 * 3600 is a valid alignment interval (24 hours)
    let aligned = t.align_to(24 * 3600).unwrap();
    assert_eq!(aligned.hour(), 0);
    assert_eq!(aligned.minute(), 0);
    assert_eq!(aligned.second(), 0);
}

#[test]
fn test_align_to_error_kind_and_idempotence() {
    let t = Time::from_hms(10, 34, 17);
    assert!(matches!(
        t.align_to(0),
        Err(TimeError::InvalidAlignmentUnit(0))
    ));
    let once = t.align_to(300).unwrap();
    let twice = once.align_to(300).unwrap();
    assert_eq!(once, twice);
    assert_eq!(t.align_to(-300).unwrap(), once);
}

#[test]
fn test_next_day_is_identity() {
    let t = Time::from_hms(10, 30, 45);
    assert_eq!(t.next_day(), t);
}

#[test]
fn extend_time_tests_test_next_hour() {
    let t = Time::from_hms(10, 30, 45);
    let next = t.next_hour();
    assert_eq!(next.hour(), 11);
    assert_eq!(next.minute(), 30);
    assert_eq!(next.second(), 45);

    let t = Time::from_hms(23, 30, 45);
    let next = t.next_hour();
    assert_eq!(next.hour(), 0);
    assert_eq!(next.minute(), 30);
    assert_eq!(next.second(), 45);
}

#[test]
fn extend_time_tests_test_next_minute() {
    let t = Time::from_hms(10, 30, 45);
    let next = t.next_minute();
    assert_eq!(next.hour(), 10);
    assert_eq!(next.minute(), 31);
    assert_eq!(next.second(), 45);

    let t = Time::from_hms(10, 59, 45);
    let next = t.next_minute();
    assert_eq!(next.hour(), 11);
    assert_eq!(next.minute(), 0);
    assert_eq!(next.second(), 45);

    let t = Time::from_hms(23, 59, 45);
    let next = t.next_minute();
    assert_eq!(next.hour(), 0);
    assert_eq!(next.minute(), 0);
    assert_eq!(next.second(), 45);
}

#[test]
fn extend_time_tests_test_next_second() {
    let t = Time::from_hms(10, 30, 45);
    let next = t.next_second();
    assert_eq!(next.hour(), 10);
    assert_eq!(next.minute(), 30);
    assert_eq!(next.second(), 46);

    let t = Time::from_hms(10, 30, 59);
    let next = t.next_second();
    assert_eq!(next.hour(), 10);
    assert_eq!(next.minute(), 31);
    assert_eq!(next.second(), 0);

    let t = Time::from_hms(10, 59, 59);
    let next = t.next_second();
    assert_eq!(next.hour(), 11);
    assert_eq!(next.minute(), 0);
    assert_eq!(next.second(), 0);

    let t = Time::from_hms(23, 59, 59);
    let next = t.next_second();
    assert_eq!(next.hour(), 0);
    assert_eq!(next.minute(), 0);
    assert_eq!(next.second(), 0);
}

#[test]
fn extend_time_tests_test_to_hour_seconds() {
    let t = Time::from_hms(10, 20, 30);
    assert_eq!(t.to_hour_seconds(), 36000); // 10 * 3600

    let t = Time::from_hms(0, 30, 45);
    assert_eq!(t.to_hour_seconds(), 0);

    let t = Time::from_hms(23, 59, 59);
    assert_eq!(t.to_hour_seconds(), 82800); // 23 * 3600
}

#[test]
fn extend_time_tests_test_to_minute_seconds() {
    let t = Time::from_hms(10, 20, 30);
    assert_eq!(t.to_minute_seconds(), 37200); // 10 * 3600 + 20 * 60

    let t = Time::from_hms(0, 30, 45);
    assert_eq!(t.to_minute_seconds(), 1800); // 30 * 60

    let t = Time::from_hms(23, 59, 59);
    assert_eq!(t.to_minute_seconds(), 86340); // 23 * 3600 + 59 * 60
}

#[test]
fn test_reset_and_same_minute() {
    let t = Time::from_hms(10, 30, 45);
    let reset = t.reset_minute().unwrap();
    assert_eq!(reset.hour(), 10);
    assert_eq!(reset.minute(), 30);
    assert_eq!(reset.second(), 0);

    assert!(t.is_same_minute(&reset));
    assert!(!t.is_same_minute(&Time::from_hms(10, 31, 45)));
}

#[test]
fn test_sub_ext_wraps_midnight() {
    // Ten seconds before midnight to ten seconds after: twenty seconds.
    let before = Time::from_hms(23, 59, 50);
    let after = Time::from_hms(0, 0, 10);
    assert_eq!(after.sub_ext(before), 20);
    assert_eq!(before.sub_ext(before), 0);
}
