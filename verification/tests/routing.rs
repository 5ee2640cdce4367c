use hrdf_parser::calendar::{Date, DateTime, Time};
use hrdf_parser::exploration::{
    can_explore_connections, explore_nearby_stops, filter_new_routes, get_connections,
    get_stop_connections,
};
use hrdf_parser::journey::{Journey, JourneyMetadataEntry, JourneyMetadataType, JourneyRouteEntry};
use hrdf_parser::models::{
    Attribute, BitField, Direction, ExchangeTimeAdministration, ExchangeTimeJourney,
    ExchangeTimeLine, Holiday, InformationText, JourneyPlatform, Line, Platform, Stop,
    StopConnection, ThroughService, TimetableMetadataEntry, TransportCompany, TransportType,
};
use hrdf_parser::routing::{
    clone_route, clone_update_route, get_operating_journeys, get_routes_to_ignore,
    is_improving_solution, next_departures, sort_routes, sorted_insert, update_arrival_stop,
    Route, RouteSection,
};
use hrdf_parser::solutions::{can_continue_exploration_one_to_many, can_continue_exploration_one_to_one};
use hrdf_parser::storage::{DataStorage, ResourceStorage};
use rustc_hash::{FxHashMap, FxHashSet};
use std::collections::{HashMap, HashSet};

fn hm(h: u32, m: u32) -> Time {
    Time::from_hm(h, m).unwrap()
}

fn day(d: u32) -> Date {
    Date::from_ymd(2024, 1, d).unwrap()
}

fn at(d: u32, h: u32, m: u32) -> DateTime {
    DateTime::new(day(d), hm(h, m))
}

fn journey(id: i32, stops: &[(i32, Option<(u32, u32)>, Option<(u32, u32)>)]) -> Journey {
    let mut j = Journey::new(id, id * 10, "CH".to_string());
    j.add_metadata_entry(
        JourneyMetadataType::BitField,
        JourneyMetadataEntry::new(None, None, None, Some(1), None, None, None, None),
    );
    for (stop, arrival, departure) in stops {
        j.add_route_entry(JourneyRouteEntry::new(
            *stop,
            arrival.map(|(h, m)| hm(h, m)),
            departure.map(|(h, m)| hm(h, m)),
        ));
    }
    j
}

fn stop(id: i32, name: &str, exchange: bool) -> Stop {
    let mut s = Stop::new(id, name.to_string(), None, None, None);
    if exchange {
        s.set_exchange_flag(1);
    }
    s
}

fn empty<M: hrdf_parser::models::Model>() -> ResourceStorage<M>
where
    M::K: Copy,
{
    ResourceStorage::new(FxHashMap::default())
}

/// Stops 1, 2, 3 and 5 allow changing, 4 does not. Journeys 10 and 20 run
/// 1 -> 2 -> 3 (the same route), journey 30 runs 2 -> 5. From stop 2 one can
/// walk to 4 (5 minutes) and to 5 (3 minutes).
fn network() -> DataStorage {
    let mut metadata = FxHashMap::default();
    metadata.insert(1, TimetableMetadataEntry::new(1, "start_date".to_string(), "2024-01-01".to_string()));
    metadata.insert(2, TimetableMetadataEntry::new(2, "end_date".to_string(), "2024-01-10".to_string()));
    let mut bit_fields = FxHashMap::default();
    bit_fields.insert(1, BitField::new(1, vec![1; 16]));
    let mut stops = FxHashMap::default();
    stops.insert(1, stop(1, "A", true));
    stops.insert(2, stop(2, "B", true));
    stops.insert(3, stop(3, "C", true));
    stops.insert(4, stop(4, "D", false));
    stops.insert(5, stop(5, "E", true));
    let mut journeys = FxHashMap::default();
    journeys.insert(
        10,
        journey(10, &[(1, None, Some((8, 0))), (2, Some((8, 10)), Some((8, 12))), (3, Some((8, 30)), None)]),
    );
    journeys.insert(
        20,
        journey(20, &[(1, None, Some((8, 30))), (2, Some((8, 40)), Some((8, 42))), (3, Some((9, 0)), None)]),
    );
    journeys.insert(30, journey(30, &[(2, None, Some((8, 20))), (5, Some((8, 50)), None)]));
    let mut connections = FxHashMap::default();
    connections.insert(1, StopConnection::new(1, 2, 4, 5));
    connections.insert(2, StopConnection::new(2, 2, 5, 3));
    DataStorage::new(
        ResourceStorage::new(bit_fields),
        empty::<Holiday>(),
        ResourceStorage::new(metadata),
        empty::<Attribute>(),
        empty::<InformationText>(),
        empty::<Direction>(),
        empty::<Line>(),
        empty::<TransportCompany>(),
        empty::<TransportType>(),
        ResourceStorage::new(stops),
        ResourceStorage::new(connections),
        ResourceStorage::new(journeys),
        empty::<JourneyPlatform>(),
        empty::<Platform>(),
        empty::<ThroughService>(),
        empty::<ExchangeTimeAdministration>(),
        empty::<ExchangeTimeJourney>(),
        empty::<ExchangeTimeLine>(),
        (2, 2),
    )
    .unwrap()
}

fn walk_start(stop_id: i32, when: DateTime) -> Route {
    let mut visited = FxHashSet::default();
    visited.insert(stop_id);
    Route::new(vec![RouteSection::new(None, stop_id, stop_id, when, None)], visited)
}

/// A route that boarded journey 10 at stop 1 and left it at `to`.
fn on_journey_10(to: i32, arrival: DateTime) -> Route {
    let mut visited = FxHashSet::default();
    visited.insert(1);
    visited.insert(2);
    if to == 3 {
        visited.insert(3);
    }
    Route::new(vec![RouteSection::new(Some(10), 1, to, arrival, None)], visited)
}

#[test]
fn operating_journeys_at_a_stop() {
    let ds = network();
    let mut ids: Vec<i32> = get_operating_journeys(&ds, day(2), 2).iter().map(|j| j.id()).collect();
    ids.sort();
    assert_eq!(ids, vec![10, 20, 30]);
    assert!(get_operating_journeys(&ds, day(2), 99).is_empty());
}

#[test]
fn next_departures_keep_the_earliest_of_each_route() {
    let ds = network();
    let deps = next_departures(&ds, 1, at(2, 8, 0), None, None).unwrap();
    assert_eq!(deps.len(), 1);
    assert_eq!(deps[0].0.id(), 10);
    assert_eq!(deps[0].1, at(2, 8, 0));
}

#[test]
fn next_departures_from_a_middle_stop_are_sorted() {
    let ds = network();
    let deps = next_departures(&ds, 2, at(2, 8, 0), None, None).unwrap();
    let got: Vec<(i32, DateTime)> = deps.iter().map(|(j, t)| (j.id(), *t)).collect();
    assert_eq!(got, vec![(10, at(2, 8, 12)), (30, at(2, 8, 20))]);
}

#[test]
fn next_departures_leave_out_ignored_routes() {
    let ds = network();
    let j10 = ds.journeys().find(10).unwrap();
    let mut ignore = FxHashSet::default();
    ignore.insert(j10.hash_route(1).unwrap());
    let deps = next_departures(&ds, 1, at(2, 8, 0), Some(ignore), None).unwrap();
    assert!(deps.is_empty());
}

#[test]
fn next_departures_look_four_hours_ahead() {
    let ds = network();
    let deps = next_departures(&ds, 1, at(2, 8, 1), None, None).unwrap();
    assert_eq!(deps.len(), 1);
    assert_eq!(deps[0].0.id(), 20);
    assert_eq!(deps[0].1, at(2, 8, 30));
}

#[test]
fn stop_connections_of_a_stop() {
    let ds = network();
    let mut ends: Vec<i32> = get_stop_connections(&ds, 2).unwrap().iter().map(|c| c.stop_id_2()).collect();
    ends.sort();
    assert_eq!(ends, vec![4, 5]);
    assert!(get_stop_connections(&ds, 1).is_none());
}

#[test]
fn connections_extend_the_route_to_the_next_exchange_stop() {
    let ds = network();
    let start = walk_start(1, at(2, 8, 0));
    let routes = get_connections(&ds, &start, &HashSet::new()).unwrap();
    assert_eq!(routes.len(), 1);
    let last = routes[0].last_route_section();
    assert_eq!(last.journey_id(), Some(10));
    assert_eq!(last.arrival_stop_id(), 2);
    assert_eq!(last.arrival_at(), at(2, 8, 10));
    assert!(routes[0].visited_stops().contains(&2));
}

#[test]
fn connections_skip_ignored_journeys() {
    let ds = network();
    let start = walk_start(1, at(2, 8, 0));
    let mut ignore = HashSet::new();
    ignore.insert(10);
    assert!(get_connections(&ds, &start, &ignore).unwrap().is_empty());
}

#[test]
fn routes_to_ignore_hold_the_taken_routes() {
    let ds = network();
    let route = on_journey_10(2, at(2, 8, 10));
    let hashes = get_routes_to_ignore(&ds, &route);
    let j10 = ds.journeys().find(10).unwrap();
    assert_eq!(hashes.len(), 1);
    assert!(hashes.contains(&j10.hash_route(2).unwrap()));
}

#[test]
fn exploring_connections_needs_an_exchange_stop_and_an_earlier_arrival() {
    let ds = network();
    let mut earliest = HashMap::new();
    let route = on_journey_10(2, at(2, 8, 10));
    assert!(can_explore_connections(&ds, &route, &mut earliest));
    assert_eq!(earliest.get(&2), Some(&at(2, 8, 10)));
    assert!(!can_explore_connections(&ds, &route, &mut earliest));
    let earlier = on_journey_10(2, at(2, 8, 5));
    assert!(can_explore_connections(&ds, &earlier, &mut earliest));
    assert_eq!(earliest.get(&2), Some(&at(2, 8, 5)));
    let walk_to_4 = walk_start(4, at(2, 8, 0));
    assert!(!can_explore_connections(&ds, &walk_to_4, &mut earliest));
    assert!(earliest.get(&4).is_none());
}

#[test]
fn nearby_stops_are_walked_to_in_order_of_arrival() {
    let ds = network();
    let route = on_journey_10(2, at(2, 8, 10));
    let mut routes = Vec::new();
    explore_nearby_stops(&ds, &route, &mut routes).unwrap();
    assert_eq!(routes.len(), 2);
    assert_eq!(routes[0].arrival_stop_id(), 5);
    assert_eq!(routes[0].arrival_at(), at(2, 8, 13));
    assert_eq!(routes[1].arrival_stop_id(), 4);
    assert_eq!(routes[1].arrival_at(), at(2, 8, 15));
    assert_eq!(routes[1].last_route_section().journey_id(), None);
    assert_eq!(routes[1].last_route_section().duration(), Some(5));
    assert!(routes[1].visited_stops().contains(&4));
}

#[test]
fn no_walk_after_a_walk() {
    let ds = network();
    let route = walk_start(2, at(2, 8, 10));
    let mut routes = Vec::new();
    explore_nearby_stops(&ds, &route, &mut routes).unwrap();
    assert!(routes.is_empty());
}

#[test]
fn new_routes_on_ignored_journeys_are_dropped() {
    let a = on_journey_10(2, at(2, 8, 10));
    let mut visited = FxHashSet::default();
    visited.insert(5);
    let b = Route::new(vec![RouteSection::new(Some(30), 2, 5, at(2, 8, 50), None)], visited);
    let mut ignore = HashSet::new();
    ignore.insert(10);
    let kept = filter_new_routes(vec![a, b], &ignore);
    assert_eq!(kept.len(), 1);
    assert_eq!(kept[0].arrival_stop_id(), 5);
}

#[test]
fn sorted_insert_goes_after_routes_arriving_at_the_same_time() {
    let mut routes = vec![walk_start(1, at(2, 8, 0)), walk_start(2, at(2, 9, 0))];
    sorted_insert(&mut routes, walk_start(3, at(2, 8, 0)));
    let ids: Vec<i32> = routes.iter().map(|r| r.arrival_stop_id()).collect();
    assert_eq!(ids, vec![1, 3, 2]);
    sorted_insert(&mut routes, walk_start(4, at(2, 7, 0)));
    assert_eq!(routes[0].arrival_stop_id(), 4);
}

#[test]
fn sort_routes_is_stable() {
    let mut routes = vec![
        walk_start(1, at(2, 9, 0)),
        walk_start(2, at(2, 8, 0)),
        walk_start(3, at(2, 9, 0)),
        walk_start(4, at(1, 23, 0)),
    ];
    sort_routes(&mut routes);
    let ids: Vec<i32> = routes.iter().map(|r| r.arrival_stop_id()).collect();
    assert_eq!(ids, vec![4, 2, 1, 3]);
}

#[test]
fn earlier_arrival_improves_a_solution() {
    let ds = network();
    let early = on_journey_10(2, at(2, 8, 10));
    let late = on_journey_10(2, at(2, 8, 40));
    assert!(is_improving_solution(&ds, &early, None));
    assert!(is_improving_solution(&ds, &early, Some(&late)));
    assert!(!is_improving_solution(&ds, &late, Some(&early)));
    assert!(!is_improving_solution(&ds, &early, Some(&early)));
}

#[test]
fn updating_the_arrival_stop_moves_the_end_of_the_last_section() {
    let ds = network();
    let route = on_journey_10(3, at(2, 8, 30));
    let updated = update_arrival_stop(&ds, route, 2).unwrap();
    assert_eq!(updated.arrival_stop_id(), 2);
    assert_eq!(updated.arrival_at(), at(2, 8, 10));
    let route = on_journey_10(2, at(2, 8, 10));
    let updated = update_arrival_stop(&ds, route, 3).unwrap();
    assert_eq!(updated.arrival_at(), at(1, 8, 30));
    assert!(update_arrival_stop(&ds, on_journey_10(2, at(2, 8, 10)), 99).is_err());
}

#[test]
fn clones_of_routes() {
    let route = on_journey_10(2, at(2, 8, 10));
    let copy = clone_route(&route);
    assert_eq!(copy.route_sections().len(), 1);
    assert_eq!(copy.arrival_at(), route.arrival_at());
    let longer = clone_update_route(&route, RouteSection::new(None, 2, 4, at(2, 8, 15), Some(5)), 4);
    assert_eq!(longer.route_sections().len(), 2);
    assert_eq!(longer.arrival_stop_id(), 4);
    assert!(longer.visited_stops().contains(&4));
    assert!(!route.visited_stops().contains(&4));
}

#[test]
fn one_to_one_records_a_route_that_reached_the_target() {
    let ds = network();
    let mut solutions = FxHashMap::default();
    let far = on_journey_10(3, at(2, 8, 30));
    assert!(!can_continue_exploration_one_to_one(&ds, &far, &mut solutions, 2).unwrap());
    let best = solutions.get(&2).unwrap();
    assert_eq!(best.arrival_stop_id(), 2);
    assert_eq!(best.arrival_at(), at(2, 8, 10));
    let elsewhere = walk_start(4, at(2, 8, 20));
    assert!(!can_continue_exploration_one_to_one(&ds, &elsewhere, &mut solutions, 2).unwrap());
    let early = walk_start(4, at(2, 8, 0));
    assert!(can_continue_exploration_one_to_one(&ds, &early, &mut solutions, 2).unwrap());
}

#[test]
fn one_to_many_records_every_stop_of_the_last_section() {
    let ds = network();
    let mut solutions = FxHashMap::default();
    let route = on_journey_10(3, at(2, 8, 30));
    assert!(can_continue_exploration_one_to_many(&ds, &route, &mut solutions, at(2, 9, 0)).unwrap());
    assert_eq!(solutions.get(&2).unwrap().arrival_at(), at(2, 8, 10));
    assert_eq!(solutions.get(&3).unwrap().arrival_at(), at(2, 8, 30));
    let mut tight = FxHashMap::default();
    assert!(!can_continue_exploration_one_to_many(&ds, &route, &mut tight, at(2, 8, 20)).unwrap());
    assert!(tight.get(&2).is_some());
    assert!(tight.get(&3).is_none());
}
