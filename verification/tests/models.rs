use hrdf_parser::calendar::{Date, DateTime, Time};
use hrdf_parser::error::JourneyError;
use hrdf_parser::journey::{Journey, JourneyRouteEntry};
use hrdf_parser::models::{Stop, TimetableMetadataEntry};
use hrdf_parser::version::Version;

fn hm(value: &str) -> Time {
    let (h, m) = value.split_once(':').unwrap();
    Time::from_hm(h.parse().unwrap(), m.parse().unwrap()).unwrap()
}

fn build_route_entry(stop_id: i32, arrival: Option<&str>, departure: Option<&str>) -> JourneyRouteEntry {
    JourneyRouteEntry::new(stop_id, arrival.map(hm), departure.map(hm))
}

fn build_midnight_journey() -> Journey {
    let mut journey = Journey::new(1, 100, "CH".to_string());
    journey.add_route_entry(build_route_entry(1, None, Some("23:50")));
    journey.add_route_entry(build_route_entry(2, Some("00:10"), Some("00:15")));
    journey.add_route_entry(build_route_entry(3, Some("00:30"), None));
    journey
}

fn date(y: i32, m: u32, d: u32) -> Date {
    Date::from_ymd(y, m, d).unwrap()
}

#[test]
fn stop_exchange_flag_controls_exchange_point() {
    let mut stop = Stop::new(1, "Bern".to_string(), None, None, None);
    assert!(!stop.can_be_used_as_exchange_point());
    stop.set_exchange_flag(1);
    assert!(stop.can_be_used_as_exchange_point());
}

#[test]
fn journey_last_stop_logic_handles_loops() {
    let mut journey = Journey::new(1, 100, "CH".to_string());
    journey.add_route_entry(build_route_entry(1, None, Some("08:00")));
    journey.add_route_entry(build_route_entry(2, Some("08:10"), Some("08:15")));
    journey.add_route_entry(build_route_entry(1, Some("08:30"), None));

    assert!(journey.is_last_stop(1, false).unwrap());
    assert!(!journey.is_last_stop(1, true).unwrap());
    assert!(!journey.is_last_stop(2, false).unwrap());
}

#[test]
fn journey_counts_and_sections_are_consistent() {
    let mut journey = Journey::new(1, 100, "CH".to_string());
    journey.add_route_entry(build_route_entry(1, None, Some("08:00")));
    journey.add_route_entry(build_route_entry(2, Some("08:10"), Some("08:15")));
    journey.add_route_entry(build_route_entry(3, Some("08:30"), Some("08:35")));
    journey.add_route_entry(build_route_entry(4, Some("08:50"), None));

    assert_eq!(journey.count_stops(1, 3), 3);
    let section = journey.route_section(1, 3);
    let ids: Vec<i32> = section.iter().map(|entry| entry.stop_id()).collect();
    assert_eq!(ids, vec![2, 3]);
}

#[test]
fn journey_time_calculations_cross_midnight() {
    let journey = build_midnight_journey();
    let day = date(2024, 1, 1);

    let (departure_time, is_next_day) = journey.departure_time_of(2).unwrap();
    assert_eq!(departure_time, Time::from_hm(0, 15).unwrap());
    assert!(is_next_day);

    let (arrival_time, is_next_day) = journey.arrival_time_of(2).unwrap();
    assert_eq!(arrival_time, Time::from_hm(0, 10).unwrap());
    assert!(is_next_day);

    let departure_at = journey.departure_at_of(2, day).unwrap();
    assert_eq!(departure_at, DateTime::new(date(2024, 1, 2), Time::from_hm(0, 15).unwrap()));

    let arrival_at = journey.arrival_at_of_with_origin(2, day, true, 1).unwrap();
    assert_eq!(arrival_at, DateTime::new(date(2024, 1, 2), Time::from_hm(0, 10).unwrap()));
}

#[test]
fn journey_bit_field_id_requires_metadata() {
    let journey = Journey::new(1, 100, "CH".to_string());
    let err = journey.bit_field_id().unwrap_err();
    match err {
        JourneyError::MissingBitFieldMetadata => {}
        other => panic!("Error should be MissingBitFieldMetadata but is: {other:?}"),
    }
}

#[test]
fn timetable_metadata_entry_parses_date() {
    let entry = TimetableMetadataEntry::new(1, "start_date".to_string(), "2024-12-15".to_string());
    assert_eq!(entry.value_as_naive_date(), Some(date(2024, 12, 15)));
}

#[test]
fn version_resolution_matches_date_ranges() {
    let in_2026 = date(2026, 6, 1);
    assert_eq!(Version::try_from(in_2026).unwrap(), Version::V_5_40_41_2_0_7);
    let url = Version::try_url(in_2026).unwrap();
    assert!(url.contains(
        "https://data.opentransportdata.swiss/en/dataset/timetable-54-2026-hrdf/permalink"
    ));

    let in_2025 = date(2025, 6, 1);
    assert_eq!(Version::try_from(in_2025).unwrap(), Version::V_5_40_41_2_0_7);
    let url = Version::try_url(in_2025).unwrap();
    assert!(url.contains("timetable-2025-hrdf"));

    let in_2024 = date(2024, 6, 1);
    assert_eq!(Version::try_from(in_2024).unwrap(), Version::V_5_40_41_2_0_7);
    let url = Version::try_url(in_2024).unwrap();
    assert!(url.contains("timetable-2024-hrdf"));

    let in_2023 = date(2023, 6, 1);
    assert_eq!(Version::try_from(in_2023).unwrap(), Version::V_5_40_41_2_0_5);
    let url = Version::try_url(in_2023).unwrap();
    assert!(url.contains("timetable-2023-hrdf"));

    let in_2022 = date(2022, 6, 1);
    assert_eq!(Version::try_from(in_2022).unwrap(), Version::V_5_40_41_2_0_5);
    let url = Version::try_url(in_2022).unwrap();
    assert!(url.contains("timetable-2022-hrdf"));
}

#[test]
#[should_panic]
fn version_resolution_not_matching_date_ranges() {
    let in_2021 = date(2021, 6, 1);
    Version::try_from(in_2021).unwrap();
}

#[test]
#[should_panic]
fn url_resolution_not_matching_date_ranges() {
    let in_2021 = date(2021, 6, 1);
    Version::try_url(in_2021).unwrap();
}

#[test]
fn calendar_steps_back_and_forth() {
    let d = date(2024, 2, 28);
    let next = hrdf_parser::utils::add_1_day(d).unwrap();
    assert_eq!(next, date(2024, 2, 29));
    assert_eq!(hrdf_parser::utils::sub_1_day(next).unwrap(), d);
    assert_eq!(hrdf_parser::utils::count_days_between_two_dates(d, date(2024, 3, 1)), 3);
    assert_eq!(hrdf_parser::utils::create_time(8, 30).unwrap(), Time::from_hm(8, 30).unwrap());
    assert!(hrdf_parser::utils::create_time(24, 0).is_err());
    assert_eq!(
        hrdf_parser::utils::create_time_from_value(1745).unwrap(),
        Time::from_hm(17, 45).unwrap()
    );
}
