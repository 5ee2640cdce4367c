use hrdf_parser::calendar::{Date, DateTime, Time};
use hrdf_parser::error::{HrdfError, JourneyError};
use hrdf_parser::exploration::{explore_nearby_stops, explore_routes};
use hrdf_parser::journey::{Journey, JourneyMetadataEntry, JourneyMetadataType, JourneyRouteEntry};
use hrdf_parser::models::{
    Attribute, BitField, Direction, ExchangeTimeAdministration, ExchangeTimeJourney,
    ExchangeTimeLine, Holiday, InformationText, JourneyPlatform, Line, Platform, Stop,
    StopConnection, ThroughService, TimetableMetadataEntry, TransportCompany, TransportType,
};
use hrdf_parser::routing::{next_departures, Route, RouteSection};
use hrdf_parser::isochrone::isochrone_limits;
use hrdf_parser::search::{
    compute_routing, create_initial_routes, find_reachable_stops_within_time_limit, plan_journey,
};
use hrdf_parser::solutions::RoutingAlgorithmArgs;
use hrdf_parser::storage::{DataStorage, ResourceStorage};
use hrdf_parser::utils::{add_1_day, sub_1_day};
use rustc_hash::{FxHashMap, FxHashSet};
use std::collections::{HashMap, HashSet};

fn hm(h: u32, m: u32) -> Time {
    Time::from_hm(h, m).unwrap()
}

fn day(d: u32) -> Date {
    Date::from_ymd(2024, 1, d).unwrap()
}

fn at(d: u32, h: u32, m: u32) -> DateTime {
    DateTime::new(day(d), hm(h, m))
}

fn journey(id: i32, stops: &[(i32, Option<(u32, u32)>, Option<(u32, u32)>)]) -> Journey {
    let mut j = Journey::new(id, id * 10, "CH".to_string());
    j.add_metadata_entry(
        JourneyMetadataType::BitField,
        JourneyMetadataEntry::new(None, None, None, Some(1), None, None, None, None),
    );
    for (stop, arrival, departure) in stops {
        j.add_route_entry(JourneyRouteEntry::new(
            *stop,
            arrival.map(|(h, m)| hm(h, m)),
            departure.map(|(h, m)| hm(h, m)),
        ));
    }
    j
}

fn stop(id: i32, name: &str, exchange: bool) -> Stop {
    let mut s = Stop::new(id, name.to_string(), None, None, None);
    if exchange {
        s.set_exchange_flag(1);
    }
    s
}

fn empty<M: hrdf_parser::models::Model>() -> ResourceStorage<M>
where
    M::K: Copy,
{
    ResourceStorage::new(FxHashMap::default())
}

/// Stops 1, 2, 3 and 5 allow changing, 4 does not. Journeys 10 and 20 run
/// 1 -> 2 -> 3 (the same route), journey 30 runs 2 -> 5. From stop 2 one can
/// walk to 4 (5 minutes) and to 5 (3 minutes).
fn network() -> DataStorage {
    storage_with("2024-01-01", "2024-01-10", true).unwrap()
}

fn storage_with(start: &str, end: &str, with_bit_fields: bool) -> Result<DataStorage, HrdfError> {
    let mut metadata = FxHashMap::default();
    if !start.is_empty() {
        metadata.insert(1, TimetableMetadataEntry::new(1, "start_date".to_string(), start.to_string()));
    }
    metadata.insert(2, TimetableMetadataEntry::new(2, "end_date".to_string(), end.to_string()));
    let mut bit_fields = FxHashMap::default();
    bit_fields.insert(1, BitField::new(1, vec![1; 16]));
    let mut stops = FxHashMap::default();
    stops.insert(1, stop(1, "A", true));
    stops.insert(2, stop(2, "B", true));
    stops.insert(3, stop(3, "C", true));
    stops.insert(4, stop(4, "D", false));
    stops.insert(5, stop(5, "E", true));
    let mut journeys = FxHashMap::default();
    journeys.insert(
        10,
        journey(10, &[(1, None, Some((8, 0))), (2, Some((8, 10)), Some((8, 12))), (3, Some((8, 30)), None)]),
    );
    journeys.insert(
        20,
        journey(20, &[(1, None, Some((8, 30))), (2, Some((8, 40)), Some((8, 42))), (3, Some((9, 0)), None)]),
    );
    journeys.insert(30, journey(30, &[(2, None, Some((8, 20))), (5, Some((8, 50)), None)]));
    if !with_bit_fields {
        let mut j = Journey::new(40, 400, "CH".to_string());
        j.add_route_entry(JourneyRouteEntry::new(1, None, Some(hm(9, 0))));
        j.add_route_entry(JourneyRouteEntry::new(3, Some(hm(9, 30)), None));
        journeys.insert(40, j);
    }
    let mut connections = FxHashMap::default();
    connections.insert(1, StopConnection::new(1, 2, 4, 5));
    connections.insert(2, StopConnection::new(2, 2, 5, 3));
    DataStorage::new(
        ResourceStorage::new(bit_fields),
        empty::<Holiday>(),
        ResourceStorage::new(metadata),
        empty::<Attribute>(),
        empty::<InformationText>(),
        empty::<Direction>(),
        empty::<Line>(),
        empty::<TransportCompany>(),
        empty::<TransportType>(),
        ResourceStorage::new(stops),
        ResourceStorage::new(connections),
        ResourceStorage::new(journeys),
        empty::<JourneyPlatform>(),
        empty::<Platform>(),
        empty::<ThroughService>(),
        empty::<ExchangeTimeAdministration>(),
        empty::<ExchangeTimeJourney>(),
        empty::<ExchangeTimeLine>(),
        (2, 2),
    )
}

#[test]
fn storage_is_built_from_valid_resources() {
    assert!(storage_with("2024-01-01", "2024-01-10", true).is_ok());
    assert!(storage_with("2024-01-01", "2024-01-01", true).is_ok());
}

#[test]
fn storage_errors_name_their_cause() {
    assert_eq!(
        storage_with("", "2024-01-10", true).err(),
        Some(HrdfError::MissingTimetableMetadata("start_date".to_string()))
    );
    assert_eq!(
        storage_with("2024-13-01", "2024-01-10", true).err(),
        Some(HrdfError::InvalidTimetableDate("start_date".to_string()))
    );
    assert_eq!(
        storage_with("2024-01-10", "2024-01-01", true).err(),
        Some(HrdfError::OutOfRangeDate(day(1)))
    );
    assert_eq!(
        storage_with("2024-01-01", "2024-01-10", false).err(),
        Some(HrdfError::Journey(JourneyError::MissingBitFieldMetadata))
    );
}

#[test]
fn day_steps_fail_only_at_the_ends_of_the_calendar() {
    let last = Date::from_ymd(262142, 12, 31).unwrap();
    assert_eq!(add_1_day(last), Err(HrdfError::FailedToAddDays(last, 1)));
    assert_eq!(sub_1_day(last).unwrap().days(), last.days() - 1);
    let first = Date::from_ymd(-262143, 1, 1).unwrap();
    assert_eq!(sub_1_day(first), Err(HrdfError::FailedToSubDays(first, 1)));
    assert_eq!(add_1_day(day(31)).unwrap(), Date::from_ymd(2024, 2, 1).unwrap());
}

#[test]
fn evening_departures_fail_only_where_the_next_day_leaves_the_calendar() {
    let ds = network();
    let last = Date::from_ymd(262142, 12, 31).unwrap();
    let evening = DateTime::new(last, hm(18, 0));
    assert_eq!(
        next_departures(&ds, 1, evening, None, None).err(),
        Some(HrdfError::FailedToAddDays(last, 1))
    );
    let afternoon = DateTime::new(last, hm(17, 59));
    assert!(next_departures(&ds, 1, afternoon, None, None).unwrap().is_empty());
    let next_morning = next_departures(&ds, 1, at(2, 18, 0), None, None).unwrap();
    assert_eq!(next_morning.len(), 1);
    assert_eq!(next_morning[0].1, at(3, 8, 0));
}

#[test]
fn initial_routes_take_the_next_departures_to_their_first_exit() {
    let ds = network();
    let routes = create_initial_routes(&ds, 1, at(2, 7, 50)).unwrap();
    assert_eq!(routes.len(), 1);
    let s = routes[0].last_route_section();
    assert_eq!(s.journey_id(), Some(10));
    assert_eq!(s.departure_stop_id(), 1);
    assert_eq!(s.arrival_stop_id(), 2);
    assert_eq!(s.arrival_at(), at(2, 8, 10));
    assert!(routes[0].visited_stops().contains(&1));
    assert!(routes[0].visited_stops().contains(&2));
}

#[test]
fn a_round_of_exploration_keeps_the_connections() {
    let ds = network();
    let routes = create_initial_routes(&ds, 1, at(2, 7, 50)).unwrap();
    let mut ignore = HashSet::new();
    let mut earliest = HashMap::new();
    let mut solutions = FxHashMap::default();
    let args = RoutingAlgorithmArgs::solve_from_departure_stop_to_arrival_stop(5);
    let next = explore_routes(&ds, routes, &mut ignore, &mut earliest, args, &mut solutions).unwrap();
    assert!(ignore.contains(&10));
    assert_eq!(next.len(), 1);
    let sections = next[0].route_sections();
    assert_eq!(sections.len(), 2);
    assert_eq!(sections[1].journey_id(), Some(30));
    assert_eq!(next[0].arrival_at(), at(2, 8, 50));
    assert_eq!(solutions.len(), 1);
    assert_eq!(solutions[&5].arrival_at(), at(2, 8, 13));
    assert_eq!(earliest.get(&2), Some(&at(2, 8, 10)));
}

#[test]
fn the_best_route_to_one_stop() {
    let ds = network();
    let args = RoutingAlgorithmArgs::solve_from_departure_stop_to_arrival_stop(5);
    let solutions = compute_routing(&ds, 1, at(2, 7, 50), args).unwrap();
    assert_eq!(solutions.len(), 1);
    let best = &solutions[&5];
    assert_eq!(best.arrival_at(), at(2, 8, 13));
    let sections = best.route_sections();
    assert_eq!(sections.len(), 2);
    assert_eq!(sections[0].journey_id(), Some(10));
    assert_eq!(sections[0].departure_stop_id(), 1);
    assert_eq!(sections[1].journey_id(), None);
    assert_eq!(sections[1].arrival_stop_id(), 5);
}

#[test]
fn the_stops_reached_by_a_time_limit() {
    let ds = network();
    let args = RoutingAlgorithmArgs::solve_from_departure_stop_to_reachable_arrival_stops(at(2, 9, 0));
    let solutions = compute_routing(&ds, 1, at(2, 7, 50), args).unwrap();
    let mut keys: Vec<i32> = solutions.keys().copied().collect();
    keys.sort();
    assert_eq!(keys, vec![2, 3, 4, 5]);
    assert_eq!(solutions[&2].arrival_at(), at(2, 8, 10));
    assert_eq!(solutions[&3].arrival_at(), at(2, 8, 30));
    assert_eq!(solutions[&4].arrival_at(), at(2, 8, 15));
    assert_eq!(solutions[&5].arrival_at(), at(2, 8, 13));
    for r in solutions.values() {
        assert_eq!(r.route_sections()[0].departure_stop_id(), 1);
    }
    let early = RoutingAlgorithmArgs::solve_from_departure_stop_to_reachable_arrival_stops(at(2, 8, 12));
    let few = compute_routing(&ds, 1, at(2, 7, 50), early).unwrap();
    let mut keys: Vec<i32> = few.keys().copied().collect();
    keys.sort();
    assert_eq!(keys, vec![2]);
}

#[test]
fn no_route_where_nothing_departs() {
    let ds = network();
    let args = RoutingAlgorithmArgs::solve_from_departure_stop_to_arrival_stop(5);
    assert!(compute_routing(&ds, 1, at(2, 12, 0), args).unwrap().is_empty());
}

#[test]
fn walks_fail_only_where_they_leave_the_calendar() {
    let ds = network();
    let last = Date::from_ymd(262142, 12, 31).unwrap();
    let arriving = |t: Time| {
        let mut visited = FxHashSet::default();
        visited.insert(1);
        visited.insert(2);
        Route::new(vec![RouteSection::new(Some(10), 1, 2, DateTime::new(last, t), None)], visited)
    };
    let mut routes = Vec::new();
    assert_eq!(
        explore_nearby_stops(&ds, &arriving(hm(23, 58)), &mut routes),
        Err(HrdfError::OutOfRangeDate(last))
    );
    let mut routes = Vec::new();
    explore_nearby_stops(&ds, &arriving(hm(23, 50)), &mut routes).unwrap();
    assert_eq!(routes.len(), 2);
    assert_eq!(routes[0].arrival_at(), DateTime::new(last, hm(23, 53)));
    assert_eq!(routes[1].arrival_at(), DateTime::new(last, hm(23, 55)));
}

#[test]
fn planning_a_journey_gives_the_best_route_to_the_arrival_stop() {
    let ds = network();
    let route = plan_journey(&ds, 1, 5, at(2, 7, 50)).unwrap().unwrap();
    assert_eq!(route.arrival_at(), at(2, 8, 13));
    assert_eq!(route.route_sections()[0].journey_id(), Some(10));
    assert!(plan_journey(&ds, 1, 5, at(2, 12, 0)).unwrap().is_none());
}

#[test]
fn the_stops_reachable_within_a_number_of_minutes() {
    let ds = network();
    let routes = find_reachable_stops_within_time_limit(&ds, 1, at(2, 7, 50), 70).unwrap();
    let mut keys: Vec<i32> = routes.keys().copied().collect();
    keys.sort();
    assert_eq!(keys, vec![2, 3, 4, 5]);
    let few = find_reachable_stops_within_time_limit(&ds, 1, at(2, 7, 50), 22).unwrap();
    let mut keys: Vec<i32> = few.keys().copied().collect();
    keys.sort();
    assert_eq!(keys, vec![2]);
}

#[test]
fn isochrone_limits_are_the_multiples_of_the_interval() {
    assert_eq!(isochrone_limits(60, 10), vec![10, 20, 30, 40, 50, 60]);
    assert_eq!(isochrone_limits(65, 30), vec![30, 60]);
    assert!(isochrone_limits(5, 10).is_empty());
    assert!(isochrone_limits(-20, 10).is_empty());
}
