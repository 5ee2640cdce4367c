use hrdf_parser::version::Version;
use hrdf_parser::calendar::{Date, DateTime, Time};
use hrdf_parser::error::ParsingError;
use hrdf_parser::utils::{count_days_between_two_dates, create_time, create_time_from_value};

#[test]
fn dates_are_read_and_written() {
    let d = Date::parse("05.01.2024", "%d.%m.%Y").unwrap();
    assert_eq!(d, Date::from_ymd(2024, 1, 5).unwrap());
    assert_eq!(d.to_text(), "2024-01-05");
    assert!(Date::parse("2024-13-01", "%Y-%m-%d").is_none());
    assert!(Date::from_ymd(2023, 2, 29).is_none());
}

#[test]
fn days_between_dates_count_both_ends() {
    let a = Date::from_ymd(2024, 2, 27).unwrap();
    let b = Date::from_ymd(2024, 3, 1).unwrap();
    assert_eq!(count_days_between_two_dates(a, b), 4);
    assert_eq!(count_days_between_two_dates(a, a), 1);
    assert_eq!(b.days() - a.days(), 3);
}

#[test]
fn times_of_day() {
    assert_eq!(create_time(23, 59).unwrap(), Time::from_hm(23, 59).unwrap());
    assert_eq!(create_time(24, 0), Err(ParsingError::UnableToBuildTime(24, 0, 0)));
    assert_eq!(create_time_from_value(1745).unwrap().minutes(), 17 * 60 + 45);
    assert!(create_time_from_value(1260).is_err());
    let t = Time::from_hm(7, 5).unwrap();
    assert_eq!((t.hour(), t.minute()), (7, 5));
}

#[test]
fn instants_are_ordered_by_date_then_time() {
    let d1 = Date::from_ymd(2024, 1, 1).unwrap();
    let d2 = Date::from_ymd(2024, 1, 2).unwrap();
    let late = DateTime::new(d1, Time::from_hm(23, 0).unwrap());
    let early = DateTime::new(d2, Time::from_hm(1, 0).unwrap());
    assert!(late.is_before(&early));
    assert!(!early.is_before(&late));
    assert!(late.is_on_or_before(&late));
    let next = late.checked_add_minutes(120).unwrap();
    assert_eq!(next, early);
}

#[test]
fn dates_with_a_version_have_an_address() {
    for (y, m, d) in [(2021, 12, 12), (2023, 6, 1), (2026, 12, 12), (2021, 12, 11), (2026, 12, 13)] {
        let date = Date::from_ymd(y, m, d).unwrap();
        assert_eq!(Version::try_from_date(date).is_ok(), Version::try_url(date).is_ok());
    }
    assert!(Version::try_url(Date::from_ymd(2030, 1, 1).unwrap()).is_err());
}

#[test]
fn day_arithmetic_stops_at_the_ends_of_the_calendar() {
    let last = Date::from_ymd(262142, 12, 31).unwrap();
    assert_eq!(last.days(), 95_745_399);
    assert!(last.checked_add_days(1).is_none());
    assert_eq!(last.checked_add_days(0), Some(last));
    assert_eq!(last.checked_sub_days(1).unwrap().days(), 95_745_398);
    let first = Date::from_ymd(-262143, 1, 1).unwrap();
    assert_eq!(first.days(), -95_746_129);
    assert!(first.checked_sub_days(1).is_none());
    assert_eq!(first.checked_add_days(1).unwrap().days(), -95_746_128);
    let d = Date::from_ymd(2024, 3, 1).unwrap();
    assert!(d.checked_add_days(u32::MAX).is_none());
    assert!(d.checked_sub_days(u32::MAX).is_none());
}

#[test]
fn minute_arithmetic_stops_at_the_ends_of_the_calendar() {
    let last = Date::from_ymd(262142, 12, 31).unwrap();
    let late = DateTime::new(last, Time::from_hm(23, 50).unwrap());
    assert_eq!(late.checked_add_minutes(9).unwrap().time(), Time::from_hm(23, 59).unwrap());
    assert!(late.checked_add_minutes(10).is_none());
    assert!(late.checked_add_signed_minutes(10).is_none());
    let first = Date::from_ymd(-262143, 1, 1).unwrap();
    let early = DateTime::new(first, Time::from_hm(0, 10).unwrap());
    assert_eq!(early.checked_sub_minutes(10).unwrap().date(), first);
    assert!(early.checked_sub_minutes(11).is_none());
    assert!(early.checked_add_signed_minutes(-11).is_none());
    assert_eq!(early.checked_add_signed_minutes(-10).unwrap().time(), Time::from_hm(0, 0).unwrap());
}

#[test]
fn dates_are_gregorian_day_numbers() {
    assert_eq!(Date::from_ymd(1, 1, 1).unwrap().days(), 1);
    assert_eq!(Date::from_ymd(0, 12, 31).unwrap().days(), 0);
    assert_eq!(Date::from_ymd(1999, 9, 3).unwrap().days(), 730_000);
    assert_eq!(Date::from_ymd(2024, 1, 1).unwrap().days(), 738_886);
    assert_eq!(Date::from_ymd(2024, 3, 1).unwrap().days(), 738_946);
    assert!(Date::from_ymd(-4, 2, 29).is_some());
    assert!(Date::from_ymd(1900, 2, 29).is_none());
    assert!(Date::from_ymd(2000, 2, 29).is_some());
    assert!(Date::from_ymd(2024, 4, 31).is_none());
    assert!(Date::from_ymd(2024, 13, 1).is_none());
    assert!(Date::from_ymd(262143, 1, 1).is_none());
    assert!(Date::from_ymd(-262144, 12, 31).is_none());
}
