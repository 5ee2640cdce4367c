use hrdf_parser::calendar::{Date, DateTime, Time};
use hrdf_parser::isochrone::DisplayMode;
use hrdf_parser::parser::{parse_inline_values, ColumnDefinition, DefaultRowParser, ExpectedType, ParsedValue};

#[test]
fn default_row_parser_reads_fixed_columns() {
    let parser = DefaultRowParser::new(vec![
        ColumnDefinition::new(1, 7, ExpectedType::Integer32),
        ColumnDefinition::new(9, 20, ExpectedType::String),
    ]);
    assert_eq!(parser.row_configuration().len(), 2);
    let values = parser.parse("8507000 Bern");
    assert_eq!(values.len(), 2);
    match &values[0] {
        ParsedValue::Integer32(x) => assert_eq!(*x, 8507000),
        _ => panic!("expected an integer"),
    }
    match &values[1] {
        ParsedValue::String(s) => assert_eq!(s, "Bern"),
        _ => panic!("expected a string"),
    }
}

#[test]
fn default_row_parser_keeps_blanks_and_negative_numbers() {
    let parser = DefaultRowParser::new(vec![
        ColumnDefinition::new(1, 3, ExpectedType::Integer32),
        ColumnDefinition::new(4, 8, ExpectedType::String),
    ]);
    let values = parser.parse("-42 ab  ");
    assert_eq!(values.len(), 2);
    assert_eq!(values.into_iter().next().unwrap().into_i32(), -42);
    let values = parser.parse("+7  x");
    match &values[1] {
        ParsedValue::String(s) => assert_eq!(s, " x"),
        _ => panic!("expected a string"),
    }
}

#[test]
fn inline_values_are_grouped_by_key() {
    let values = parse_inline_values("$Bern<1>$Berne<1>$BE<2>");
    assert_eq!(values.len(), 2);
    assert_eq!(values.get(&1).unwrap(), &vec!["Bern".to_string(), "Berne".to_string()]);
    assert_eq!(values.get(&2).unwrap(), &vec!["BE".to_string()]);
}

#[test]
fn inline_values_skip_empty_items() {
    let values = parse_inline_values(">>Zürich HB<4>>");
    assert_eq!(values.len(), 1);
    assert_eq!(values.get(&4).unwrap(), &vec!["Zürich HB".to_string()]);
    assert!(parse_inline_values("").is_empty());
}

#[test]
fn display_modes_by_name() {
    assert_eq!(DisplayMode::from_name("circles"), Some(DisplayMode::Circles));
    assert_eq!(DisplayMode::from_name("contour_line"), Some(DisplayMode::ContourLine));
    assert_eq!(DisplayMode::from_name("Circles"), None);
    assert_eq!(DisplayMode::from_name(DisplayMode::ContourLine.name()), Some(DisplayMode::ContourLine));
}

#[test]
fn minutes_are_added_across_days() {
    let d = Date::from_ymd(2024, 3, 1).unwrap();
    let t = DateTime::new(d, Time::from_hm(0, 10).unwrap());
    let earlier = t.checked_add_signed_minutes(-20).unwrap();
    assert_eq!(earlier.date(), Date::from_ymd(2024, 2, 29).unwrap());
    assert_eq!(earlier.time(), Time::from_hm(23, 50).unwrap());
    let later = t.checked_add_signed_minutes(1440 + 5).unwrap();
    assert_eq!(later.date(), Date::from_ymd(2024, 3, 2).unwrap());
    assert_eq!(later.time(), Time::from_hm(0, 15).unwrap());
    assert_eq!(t.checked_sub_minutes(10).unwrap().time(), Time::from_hm(0, 0).unwrap());
    assert_eq!(t.checked_sub_minutes(2 * 1440 + 10).unwrap().date(), Date::from_ymd(2024, 2, 28).unwrap());
}
