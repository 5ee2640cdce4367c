use hrdf_parser::calendar::Time;
use hrdf_parser::error::ParsingError;
use hrdf_parser::journey::{Journey, JourneyMetadataType};
use hrdf_parser::journey_parser::{
    apply_fplan_row, create_time, fplan_row_parser, parse_fplan_rows, row_ready_check, set_line,
    ROW_A, ROW_I,
};
use hrdf_parser::parsing::ParsedValue;
use hrdf_parser::storage::vec_to_map;
use hrdf_parser::utils::AutoIncrement;
use rustc_hash::FxHashMap;

/// A row with `text` placed from byte `start` (counted from 1), blanks
/// elsewhere.
fn place(row: &mut String, start: usize, text: &str) {
    while row.len() < start - 1 {
        row.push(' ');
    }
    row.push_str(text);
}

fn stop_row(stop: &str, arrival: &str, departure: &str) -> String {
    let mut r = String::new();
    place(&mut r, 1, stop);
    place(&mut r, 9, "Somewhere");
    place(&mut r, 30, arrival);
    place(&mut r, 37, departure);
    r
}

struct Reader {
    data: Vec<Journey>,
    counter: AutoIncrement,
    legacy: FxHashMap<(i32, String), i32>,
    transport_types: FxHashMap<String, i32>,
    attributes: FxHashMap<String, i32>,
    directions: FxHashMap<String, i32>,
}

impl Reader {
    fn new() -> Self {
        let mut transport_types = FxHashMap::default();
        transport_types.insert("IR".to_string(), 7);
        let mut attributes = FxHashMap::default();
        attributes.insert("FS".to_string(), 3);
        let mut directions = FxHashMap::default();
        directions.insert("H000123".to_string(), 9);
        Reader {
            data: Vec::new(),
            counter: AutoIncrement::new(),
            legacy: FxHashMap::default(),
            transport_types,
            attributes,
            directions,
        }
    }

    fn read(&mut self, row: &str) -> Result<(), ParsingError> {
        let row = &format!("{row:<60}");
        let parser = fplan_row_parser();
        assert!(parser.can_parse(row), "row {row:?}");
        let (id, _, values) = parser.parse(row);
        assert!(row_ready_check(id, &values));
        apply_fplan_row(
            &mut self.data,
            id,
            values,
            &mut self.counter,
            &mut self.legacy,
            &self.transport_types,
            &self.attributes,
            &self.directions,
        )
    }
}

#[test]
fn fplan_rows_build_a_journey() {
    let mut r = Reader::new();
    r.read("*Z 002359 000011").unwrap();
    r.read("*G IR  8500010 8500020").unwrap();
    r.read("*A VE 8500010 8500020 000017").unwrap();
    r.read("*A FS 8500010 8500020").unwrap();
    r.read("*L #12      8500010 8500020").unwrap();
    r.read("*R H H000123 8500010 8500020").unwrap();
    r.read("*CI 0003 8500010 8500010").unwrap();
    r.read(&stop_row("8500010", "", "00800")).unwrap();
    r.read(&stop_row("8500020", "-00830", "")).unwrap();
    assert_eq!(r.data.len(), 1);
    let j = &r.data[0];
    assert_eq!(j.id(), 1);
    assert_eq!(j.legacy_id(), 2359);
    assert_eq!(j.administration(), "000011");
    assert_eq!(*r.legacy.get(&(2359, "000011".to_string())).unwrap(), 1);
    let kinds: Vec<JourneyMetadataType> = j.metadata().iter().map(|(k, _)| *k).collect();
    assert_eq!(
        kinds,
        vec![
            JourneyMetadataType::TransportType,
            JourneyMetadataType::BitField,
            JourneyMetadataType::Attribute,
            JourneyMetadataType::Line,
            JourneyMetadataType::Direction,
            JourneyMetadataType::ExchangeTimeBoarding,
        ]
    );
    assert_eq!(j.metadata()[0].1.resource_id(), Some(7));
    assert_eq!(j.metadata()[1].1.bit_field_id(), Some(17));
    assert_eq!(j.metadata()[2].1.resource_id(), Some(3));
    assert_eq!(j.metadata()[3].1.resource_id(), Some(12));
    assert_eq!(j.metadata()[4].1.resource_id(), Some(9));
    assert_eq!(j.metadata()[4].1.extra_field_1().map(|s| s.as_str()), Some("H"));
    assert_eq!(j.route().len(), 2);
    assert_eq!(j.route()[0].departure_time(), Some(Time::from_hm(8, 0).unwrap()));
    assert_eq!(j.route()[0].arrival_time(), None);
    assert_eq!(j.route()[1].arrival_time(), Some(Time::from_hm(8, 30).unwrap()));
}

#[test]
fn fplan_rows_need_an_open_journey_and_known_designations() {
    let mut r = Reader::new();
    assert!(matches!(r.read("*G IR  8500010 8500020"), Err(ParsingError::Unknown(_))));
    r.read("*Z 000001 000011").unwrap();
    r.read("*Z 000002 000011").unwrap();
    assert_eq!(r.data.len(), 2);
    assert_eq!(r.data[1].id(), 2);
    assert_eq!(r.read("*G XX  8500010 8500020"), Err(ParsingError::UnknownId("XX".to_string())));
    assert!(r.data[1].metadata().is_empty());
    assert_eq!(r.read("*R H H999999 8500010 8500020"), Err(ParsingError::UnknownId("H999999".to_string())));
    r.read("*R R").unwrap();
    assert_eq!(r.data[1].metadata()[0].1.resource_id(), None);
}

#[test]
fn line_designations() {
    let mut j = Journey::new(1, 1, "CH".to_string());
    let values = |d: &str| {
        vec![
            ParsedValue::String(d.to_string()),
            ParsedValue::OptionInteger32(None),
            ParsedValue::OptionInteger32(None),
            ParsedValue::OptionInteger32(Some(2510)),
            ParsedValue::OptionInteger32(None),
        ]
    };
    set_line(values("S3"), &mut j).unwrap();
    assert_eq!(j.metadata()[0].1.extra_field_1().map(|s| s.as_str()), Some("S3"));
    assert_eq!(j.metadata()[0].1.resource_id(), None);
    assert_eq!(set_line(values("#x1"), &mut j), Err(ParsingError::ParseInt("x1".to_string())));
    assert!(matches!(set_line(values(""), &mut j), Err(ParsingError::Unknown(_))));
    assert_eq!(j.metadata().len(), 1);
}

#[test]
fn time_fields() {
    assert_eq!(create_time(Some(2530)), Some(Time::from_hm(1, 30).unwrap()));
    assert_eq!(create_time(Some(-845)), Some(Time::from_hm(8, 45).unwrap()));
    assert_eq!(create_time(Some(4815)), Some(Time::from_hm(0, 15).unwrap()));
    assert_eq!(create_time(None), None);
}

#[test]
fn rows_of_the_wrong_shape_are_not_ready() {
    let values = vec![ParsedValue::Integer32(1), ParsedValue::OptionInteger32(Some(2)), ParsedValue::OptionInteger32(Some(1260))];
    assert!(!row_ready_check(ROW_I, &values));
    assert!(!row_ready_check(ROW_A, &values));
    assert!(!row_ready_check(42, &values));
    let ok = vec![ParsedValue::Integer32(1), ParsedValue::OptionInteger32(None), ParsedValue::OptionInteger32(Some(1259))];
    assert!(row_ready_check(ROW_I, &ok));
}

#[test]
fn journeys_by_id_keep_the_last() {
    let a = Journey::new(5, 1, "A".to_string());
    let b = Journey::new(6, 2, "B".to_string());
    let c = Journey::new(5, 3, "C".to_string());
    let m = vec_to_map(vec![a, b, c]);
    assert_eq!(m.len(), 2);
    assert_eq!(m.get(&5).unwrap().administration(), "C");
}

fn parsed_rows(rows: &[&str]) -> Vec<(i32, Vec<ParsedValue>)> {
    let parser = fplan_row_parser();
    rows.iter()
        .map(|row| {
            let row = format!("{row:<60}");
            let (id, _, values) = parser.parse(&row);
            assert!(row_ready_check(id, &values));
            (id, values)
        })
        .collect()
}

#[test]
fn fplan_file_rows_give_journeys_by_id() {
    let r = Reader::new();
    let rows = parsed_rows(&[
        "*Z 002359 000011",
        "*A VE 8500010 8500020 000017",
        &stop_row("8500010", "", "00800"),
        &stop_row("8500020", "-00830", ""),
        "*Z 002360 000011",
        &stop_row("8500020", "", "00900"),
        &stop_row("8500030", "00915", ""),
    ]);
    let (journeys, legacy) =
        parse_fplan_rows(rows, &r.transport_types, &r.attributes, &r.directions).unwrap();
    assert_eq!(journeys.data().len(), 2);
    let first = journeys.find(1).unwrap();
    assert_eq!(first.legacy_id(), 2359);
    assert_eq!(first.route().len(), 2);
    assert_eq!(first.metadata()[0].1.bit_field_id(), Some(17));
    let second = journeys.find(2).unwrap();
    assert_eq!(second.legacy_id(), 2360);
    assert_eq!(second.route()[1].stop_id(), 8500030);
    assert_eq!(legacy.get(&(2360, "000011".to_string())), Some(&2));
}

#[test]
fn fplan_file_rows_stop_at_the_first_failing_row() {
    let r = Reader::new();
    let before_any_journey = parsed_rows(&[&stop_row("8500010", "", "00800")]);
    assert!(matches!(
        parse_fplan_rows(before_any_journey, &r.transport_types, &r.attributes, &r.directions),
        Err(ParsingError::Unknown(_))
    ));
    let unknown_type = parsed_rows(&["*Z 002359 000011", "*G XX  8500010 8500020"]);
    assert!(parse_fplan_rows(unknown_type, &r.transport_types, &r.attributes, &r.directions).is_err());
    let empty = parse_fplan_rows(Vec::new(), &r.transport_types, &r.attributes, &r.directions).unwrap();
    assert_eq!(empty.0.data().len(), 0);
}
