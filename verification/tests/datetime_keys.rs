use chrono::Datelike;
use chrono::TimeZone;
use chrono::Utc;
use keyz::CalendarDate;
use keyz::Key;
use keyz::Timestamp;
use keyz::ToKey;

#[test]
fn timestamp_encodes_as_rfc3339_utc() {
    let ts = Timestamp::new(2016, 11, 8, 0, 0, 0).unwrap();
    assert_eq!(ts.to_key().into_bytes(), b"2016-11-08T00:00:00+00:00".to_vec());

    let ts2 = Timestamp::new(987, 1, 31, 23, 59, 5).unwrap();
    assert_eq!(ts2.to_key().into_bytes(), b"0987-01-31T23:59:05+00:00".to_vec());
}

#[test]
fn date_normalizes_to_midnight_timestamp() {
    let date = CalendarDate::new(2016, 11, 8).unwrap();
    let midnight = Timestamp::new(2016, 11, 8, 0, 0, 0).unwrap();
    assert_eq!(Key::build(vec![date.to_key()]), Key::build(vec![midnight.to_key()]));
}

#[test]
fn composite_build_equivalence() {
    let date = CalendarDate::new(2016, 11, 8).unwrap();
    let midnight = Timestamp::new(2016, 11, 8, 0, 0, 0).unwrap();
    let with_date = Key::build(vec![date.to_key(), "hello".to_key()]);
    let with_timestamp = Key::build(vec![midnight.to_key(), "hello".to_key()]);
    assert_eq!(with_date, with_timestamp);
}

#[test]
fn chronological_order_is_lexical_order() {
    let pairs = [
        (Timestamp::new(1999, 12, 31, 23, 59, 59), Timestamp::new(2000, 1, 1, 0, 0, 0)),
        (Timestamp::new(2016, 11, 8, 0, 0, 0), Timestamp::new(2016, 11, 8, 0, 0, 1)),
        (Timestamp::new(2016, 1, 31, 12, 0, 0), Timestamp::new(2016, 2, 1, 0, 0, 0)),
        (Timestamp::new(987, 6, 15, 6, 30, 0), Timestamp::new(1066, 1, 1, 0, 0, 0)),
    ];
    for (earlier, later) in pairs {
        let e = earlier.unwrap().to_key().into_bytes();
        let l = later.unwrap().to_key().into_bytes();
        assert!(e < l, "expected {:?} < {:?}", e, l);
    }
}

#[test]
fn invalid_fields_are_rejected() {
    assert!(Timestamp::new(10000, 1, 1, 0, 0, 0).is_none());
    assert!(Timestamp::new(2016, 0, 1, 0, 0, 0).is_none());
    assert!(Timestamp::new(2016, 13, 1, 0, 0, 0).is_none());
    assert!(Timestamp::new(2016, 4, 31, 0, 0, 0).is_none());
    assert!(Timestamp::new(2016, 11, 8, 24, 0, 0).is_none());
    assert!(Timestamp::new(2016, 11, 8, 0, 60, 0).is_none());
    assert!(Timestamp::new(2016, 11, 8, 0, 0, 60).is_none());
    assert!(CalendarDate::new(2016, 11, 0).is_none());
    assert!(CalendarDate::new(2016, 11, 31).is_none());
}

#[test]
fn leap_year_days_are_validated() {
    assert!(Timestamp::new(2016, 2, 29, 0, 0, 0).is_some());
    assert!(Timestamp::new(2017, 2, 29, 0, 0, 0).is_none());
    assert!(CalendarDate::new(2000, 2, 29).is_some());
    assert!(CalendarDate::new(1900, 2, 29).is_none());
    assert!(CalendarDate::new(2023, 2, 28).is_some());
}

#[test]
fn timestamp_encoding_matches_chrono_rfc3339() {
    let samples = [
        (2016u16, 11u8, 8u8, 0u8, 0u8, 0u8),
        (987, 1, 31, 23, 59, 5),
        (2024, 2, 29, 12, 34, 56),
        (1, 1, 1, 0, 0, 0),
        (9999, 12, 31, 23, 59, 59),
    ];
    for (y, mo, d, h, mi, s) in samples {
        let dt = Utc
            .with_ymd_and_hms(y as i32, mo as u32, d as u32, h as u32, mi as u32, s as u32)
            .unwrap();
        let key = Timestamp::new(y, mo, d, h, mi, s).unwrap().to_key();
        assert_eq!(key.into_bytes(), dt.to_rfc3339().into_bytes());
    }
}

#[test]
fn date_encoding_matches_chrono_midnight_rfc3339() {
    let dt = Utc.with_ymd_and_hms(2016, 11, 8, 0, 0, 0).unwrap();
    let key = CalendarDate::new(2016, 11, 8).unwrap().to_key();
    assert_eq!(key.into_bytes(), dt.to_rfc3339().into_bytes());
}

#[test]
fn naive_date_is_taken_as_utc() {
    // a timezone-naive chrono date is anchored to UTC with no shifting
    let naive = chrono::NaiveDate::from_ymd_opt(2016, 11, 8).unwrap();
    let date =
        CalendarDate::new(naive.year() as u16, naive.month() as u8, naive.day() as u8).unwrap();
    let anchored = Utc.with_ymd_and_hms(2016, 11, 8, 0, 0, 0).unwrap();
    assert_eq!(date.to_key().into_bytes(), anchored.to_rfc3339().into_bytes());
}
