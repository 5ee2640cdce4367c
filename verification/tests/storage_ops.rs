use hrdf_parser::calendar::Date;
use hrdf_parser::journey::{Journey, JourneyMetadataEntry, JourneyMetadataType, JourneyRouteEntry};
use hrdf_parser::models::{
    Attribute, BitField, Direction, ExchangeTimeAdministration, ExchangeTimeJourney,
    ExchangeTimeLine, Holiday, InformationText, JourneyPlatform, Line, Platform, Stop,
    StopConnection, ThroughService, TimetableMetadataEntry, TransportCompany, TransportType,
};
use hrdf_parser::storage::{
    AddableTypes, DataStorage, ModifiableTypes, RemovableTypes, ResourceStorage, FIRST_ADDED_LINE_ID,
    FIRST_ADDED_STOP_ID,
};
use hrdf_parser::utils::{add_1_day, sub_1_day};
use rustc_hash::{FxHashMap, FxHashSet};

fn empty<M: hrdf_parser::models::Model>() -> ResourceStorage<M>
where
    M::K: Copy,
{
    ResourceStorage::new(FxHashMap::default())
}

fn journey(id: i32, line: i32, stops: &[i32]) -> Journey {
    let mut j = Journey::new(id, id, "CH".to_string());
    j.add_metadata_entry(
        JourneyMetadataType::BitField,
        JourneyMetadataEntry::new(None, None, None, Some(1), None, None, None, None),
    );
    j.add_metadata_entry(
        JourneyMetadataType::Line,
        JourneyMetadataEntry::new(None, None, Some(line), None, None, None, None, None),
    );
    for s in stops {
        j.add_route_entry(JourneyRouteEntry::new(*s, None, None));
    }
    j
}

fn line(id: i32, short: &str) -> Line {
    let mut l = Line::new(id, format!("line {}", id));
    l.set_short_name(short.to_string());
    l
}

/// Lines 1 ("12") and 2 ("41"); journey 100 on line 1 over stops 1, 2, 3,
/// journey 200 on line 2 over stops 2, 3.
fn storage() -> DataStorage {
    let mut metadata = FxHashMap::default();
    metadata.insert(1, TimetableMetadataEntry::new(1, "start_date".to_string(), "2025-01-01".to_string()));
    metadata.insert(2, TimetableMetadataEntry::new(2, "end_date".to_string(), "2025-01-05".to_string()));
    let mut bit_fields = FxHashMap::default();
    bit_fields.insert(1, BitField::new(1, vec![1; 8]));
    let mut lines = FxHashMap::default();
    lines.insert(1, line(1, "12"));
    lines.insert(2, line(2, "41"));
    let mut stops = FxHashMap::default();
    stops.insert(1, Stop::new(1, "Genève, Rive".to_string(), None, None, None));
    stops.insert(2, Stop::new(2, "Genève, Bel-Air".to_string(), None, None, None));
    stops.insert(3, Stop::new(3, "Genève, Jonction".to_string(), None, None, None));
    let mut journeys = FxHashMap::default();
    journeys.insert(100, journey(100, 1, &[1, 2, 3]));
    journeys.insert(200, journey(200, 2, &[2, 3]));
    DataStorage::new(
        ResourceStorage::new(bit_fields),
        empty::<Holiday>(),
        ResourceStorage::new(metadata),
        empty::<Attribute>(),
        empty::<InformationText>(),
        empty::<Direction>(),
        ResourceStorage::new(lines),
        empty::<TransportCompany>(),
        empty::<TransportType>(),
        ResourceStorage::new(stops),
        empty::<StopConnection>(),
        ResourceStorage::new(journeys),
        empty::<JourneyPlatform>(),
        empty::<Platform>(),
        empty::<ThroughService>(),
        empty::<ExchangeTimeAdministration>(),
        empty::<ExchangeTimeJourney>(),
        empty::<ExchangeTimeLine>(),
        (2, 2),
    )
    .unwrap()
}

fn index_journeys(ds: &DataStorage) -> usize {
    ds.journeys_by_stop_id_and_bit_field_id().values().map(|v| v.len()).sum()
}

#[test]
fn storage_builds_its_indexes() {
    let ds = storage();
    assert_eq!(ds.journeys().len(), 2);
    assert_eq!(index_journeys(&ds), 5);
    assert!(ds.bit_fields_by_stop_id().get(&1).unwrap().contains(&1));
    let day = Date::from_ymd(2025, 1, 2).unwrap();
    assert!(ds.bit_fields_by_day().get(&day).unwrap().contains(&1));
    assert_eq!(ds.default_exchange_time(), (2, 2));
}

#[test]
fn storage_refuses_journeys_without_bit_field() {
    let mut journeys = FxHashMap::default();
    let mut j = Journey::new(1, 1, "CH".to_string());
    j.add_route_entry(JourneyRouteEntry::new(1, None, None));
    journeys.insert(1, j);
    let mut metadata = FxHashMap::default();
    metadata.insert(1, TimetableMetadataEntry::new(1, "start_date".to_string(), "2025-01-01".to_string()));
    metadata.insert(2, TimetableMetadataEntry::new(2, "end_date".to_string(), "2025-01-05".to_string()));
    let res = DataStorage::new(
        empty::<BitField>(),
        empty::<Holiday>(),
        ResourceStorage::new(metadata),
        empty::<Attribute>(),
        empty::<InformationText>(),
        empty::<Direction>(),
        empty::<Line>(),
        empty::<TransportCompany>(),
        empty::<TransportType>(),
        empty::<Stop>(),
        empty::<StopConnection>(),
        ResourceStorage::new(journeys),
        empty::<JourneyPlatform>(),
        empty::<Platform>(),
        empty::<ThroughService>(),
        empty::<ExchangeTimeAdministration>(),
        empty::<ExchangeTimeJourney>(),
        empty::<ExchangeTimeLine>(),
        (2, 2),
    );
    assert!(res.is_err());
}

#[test]
fn filtering_lines_removes_their_journeys_from_the_index() {
    let ds = storage();
    let before_journeys = ds.journeys().len();
    let before_index = index_journeys(&ds);
    let filtered = ds.filter(&vec![(RemovableTypes::Line, vec!["12".to_string()])]);
    assert_eq!(filtered.lines().len(), 1);
    assert!(filtered.lines().find(1).is_none());
    assert_eq!(filtered.journeys().len(), before_journeys - 1);
    assert!(filtered.journeys().find(100).is_none());
    assert_eq!(index_journeys(&filtered), before_index - 3);
    for ids in filtered.journeys_by_stop_id_and_bit_field_id().values() {
        for id in ids {
            assert!(filtered.journeys().find(*id).is_some());
        }
    }
}

#[test]
fn filtering_stops_removes_them_from_routes() {
    let ds = storage();
    let filtered = ds.filter(&vec![(RemovableTypes::Stop, vec!["Genève, Bel-Air".to_string()])]);
    assert_eq!(filtered.stops().len(), 2);
    assert!(filtered.stops().find(2).is_none());
    let j = filtered.journeys().find(100).unwrap();
    let ids: Vec<i32> = j.route().iter().map(|e| e.stop_id()).collect();
    assert_eq!(ids, vec![1, 3]);
}

#[test]
fn filtering_lines_and_stops_together() {
    let ds = storage();
    let filtered = ds.filter(&vec![
        (RemovableTypes::Stop, vec!["Genève, Jonction".to_string(), "Genève, Rive".to_string()]),
        (RemovableTypes::Line, vec!["41".to_string()]),
    ]);
    assert_eq!(filtered.lines().len(), 1);
    assert_eq!(filtered.stops().len(), 1);
    assert_eq!(filtered.journeys().len(), 1);
    let ids: Vec<i32> = filtered.journeys().find(100).unwrap().route().iter().map(|e| e.stop_id()).collect();
    assert_eq!(ids, vec![2]);
}

#[test]
fn filtering_nothing_keeps_everything() {
    let ds = storage();
    let filtered = ds.filter(&Vec::new());
    assert_eq!(filtered.lines().len(), 2);
    assert_eq!(filtered.stops().len(), 3);
    assert_eq!(filtered.journeys().len(), 2);
}

#[test]
fn modifying_replaces_lines_under_existing_keys() {
    let ds = storage();
    let mut modifications = FxHashMap::default();
    modifications.insert(1, line(1, "12bis"));
    modifications.insert(2, Line::new(2, "renamed".to_string()));
    modifications.insert(9, line(9, "99"));
    let modified = ds.modify(&ModifiableTypes::Line { modifications });
    assert_eq!(modified.lines().len(), 2);
    assert_eq!(modified.lines().find(1).unwrap().get_name(), "12bis");
    assert_eq!(modified.lines().find(2).unwrap().name(), "renamed");
    assert!(modified.lines().find(9).is_none());
}

#[test]
fn adding_stops_uses_fresh_keys() {
    let ds = storage();
    let added = ds.add(&AddableTypes::Stop {
        add_list: vec![Stop::new(7, "Carouge".to_string(), None, None, None)],
    });
    assert_eq!(added.stops().len(), 4);
    let key = FIRST_ADDED_STOP_ID as i32;
    assert_eq!(added.stops().find(key).unwrap().name(), "Carouge");
    let with_line = added.add(&AddableTypes::Line { add_list: vec![line(5, "5"), line(6, "6")] });
    assert_eq!(with_line.lines().len(), 4);
    assert!(with_line.lines().find(FIRST_ADDED_LINE_ID as i32 + 1).is_some());
}

#[test]
fn resource_storage_filter_map_extend_and_resolve() {
    let mut data = FxHashMap::default();
    for id in 1..=4 {
        data.insert(id, StopConnection::new(id, id, id + 10, (id * 2) as i16));
    }
    let storage = ResourceStorage::new(data);
    let long = storage.filter(|_k, c| c.duration() >= 4);
    assert_eq!(long.len(), 3);
    assert!(long.find(1).is_none());
    let shifted = long.map(|k, c| (*k + 100, StopConnection::new(*k + 100, c.stop_id_1(), c.stop_id_2(), c.duration())));
    assert_eq!(shifted.len(), 3);
    assert_eq!(shifted.find(102).unwrap().duration(), 4);
    let extended = shifted.extend(vec![
        (1, StopConnection::new(1, 1, 2, 9)),
        (1, StopConnection::new(1, 1, 2, 7)),
    ]);
    assert_eq!(extended.len(), 4);
    assert_eq!(extended.find(1).unwrap().duration(), 7);
    let mut ids = FxHashSet::default();
    ids.insert(1);
    ids.insert(103);
    let found = extended.resolve_ids(&ids).unwrap();
    let mut durations: Vec<i16> = found.iter().map(|c| c.duration()).collect();
    durations.sort();
    assert_eq!(durations, vec![6, 7]);
    ids.insert(55);
    assert!(extended.resolve_ids(&ids).is_none());
}

#[test]
fn next_day_then_previous_day_is_the_same_day() {
    let d = Date::from_ymd(2024, 2, 28).unwrap();
    let next = add_1_day(d).unwrap();
    assert_eq!(next, Date::from_ymd(2024, 2, 29).unwrap());
    assert_eq!(sub_1_day(next).unwrap(), d);
    let first = Date::from_ymd(2024, 3, 1).unwrap();
    assert_eq!(add_1_day(sub_1_day(first).unwrap()).unwrap(), first);
}
