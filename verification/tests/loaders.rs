use hrdf_parser::attribute_parser::parse_attribute_rows;
use hrdf_parser::bit_field_parser::parse_bit_field_rows;
use hrdf_parser::calendar::Date;
use hrdf_parser::exchange_time_parser::{parse_administration_rows, parse_journey_exchange_rows};
use hrdf_parser::holiday_parser::parse_holiday_rows;
use hrdf_parser::direction_parser::parse_direction_rows;
use hrdf_parser::error::ParsingError;
use hrdf_parser::exchange_line_parser::parse_exchange_line_rows;
use hrdf_parser::information_text_parser::{apply_information_texts, parse_information_text_ids};
use hrdf_parser::models::Language;
use hrdf_parser::platform_parser::{apply_platform_sloid_rows, parse_platform_rows};
use hrdf_parser::stop_connection_parser::parse_stop_connection_rows;
use hrdf_parser::stop_parser::{apply_stop_exchange_rows, parse_stop_rows};
use hrdf_parser::through_service_parser::parse_through_service_rows;
use hrdf_parser::timetable_metadata_parser::parse_metadata_rows;
use hrdf_parser::transport_company_parser::{apply_transport_company_names, parse_transport_company_ids};
use hrdf_parser::transport_type_parser::parse_transport_type_rows;
use rustc_hash::FxHashMap;

fn rows(texts: &[&str]) -> Vec<String> {
    texts.iter().map(|t| t.to_string()).collect()
}

#[test]
fn attribut_rows_make_attributes_with_descriptions() {
    let (storage, pk) = parse_attribute_rows(&rows(&[
        "AB 0   1  5",
        "VR 1  12 10",
        "# AB  AB  AB",
        "<text>",
        "<deu>",
        "AB Bar",
        "VR Velos",
        "<fra>",
        "AB Voiture-bar",
    ]))
    .unwrap();
    assert_eq!(storage.len(), 2);
    assert_eq!(pk.get("AB"), Some(&1));
    assert_eq!(pk.get("VR"), Some(&2));
    let a = storage.find(1).unwrap();
    assert_eq!(a.id(), 1);
    assert_eq!(a.designation(), "AB");
    assert_eq!(a.stop_scope(), 0);
    assert_eq!(a.main_sorting_priority(), 1);
    assert_eq!(a.secondary_sorting_priority(), 5);
    assert_eq!(a.description(Language::German).map(String::as_str), Some("Bar"));
    assert_eq!(a.description(Language::French).map(String::as_str), Some("Voiture-bar"));
    assert_eq!(a.description(Language::Italian), None);
    let v = storage.find(2).unwrap();
    assert_eq!(v.main_sorting_priority(), 12);
    assert_eq!(v.secondary_sorting_priority(), 10);
    assert_eq!(v.description(Language::German).map(String::as_str), Some("Velos"));
    assert_eq!(v.description(Language::French), None);
}

#[test]
fn attribut_descriptions_before_a_language_row_are_german() {
    let (storage, _) = parse_attribute_rows(&rows(&["AB 0   1  5", "AB Bar"])).unwrap();
    assert_eq!(storage.find(1).unwrap().description(Language::German).map(String::as_str), Some("Bar"));
}

#[test]
fn attribut_errors() {
    assert_eq!(
        parse_attribute_rows(&rows(&["AB 0   1  5", "<xyz>"])).err(),
        Some(ParsingError::Language("xyz".to_string()))
    );
    assert_eq!(
        parse_attribute_rows(&rows(&["ZZ Unknown"])).err(),
        Some(ParsingError::UnknownId("ZZ".to_string()))
    );
    assert_eq!(
        parse_attribute_rows(&rows(&["AB 0   1  5", "A"])).err(),
        Some(ParsingError::Syntax("A".to_string()))
    );
}

fn umsteigl_row(tt1: &str, dir1: &str, tt2: &str, dir2: &str) -> String {
    format!("8500010 000011 {tt1:<3} *        {dir1} 000011 {tt2:<3} 1        {dir2}   5!")
}

fn transport_types() -> FxHashMap<String, i32> {
    let mut m = FxHashMap::default();
    m.insert("IC".to_string(), 1);
    m.insert("IR".to_string(), 2);
    m
}

#[test]
fn umsteigl_rows_make_exchange_times() {
    let storage =
        parse_exchange_line_rows(&vec![umsteigl_row("IC", "*", "IR", "H")], &transport_types()).unwrap();
    assert_eq!(storage.len(), 1);
    let x = storage.find(1).unwrap();
    assert_eq!(x.id(), 1);
    assert_eq!(x.stop_id(), Some(8500010));
    assert_eq!(x.duration(), 5);
    assert!(x.is_guaranteed());
}

#[test]
fn umsteigl_errors() {
    assert_eq!(
        parse_exchange_line_rows(&vec![umsteigl_row("XX", "*", "IR", "H")], &transport_types()).err(),
        Some(ParsingError::UnknownId("XX".to_string()))
    );
    assert_eq!(
        parse_exchange_line_rows(&vec![umsteigl_row("IC", "Q", "IR", "H")], &transport_types()).err(),
        Some(ParsingError::Syntax("Q".to_string()))
    );
}

#[test]
fn bitfeld_rows_make_bit_fields() {
    let row = format!("000007 F0{}", "0".repeat(94));
    let storage = parse_bit_field_rows(&vec![row]).unwrap();
    let b = storage.find(7).unwrap();
    assert_eq!(b.id(), 7);
    assert_eq!(b.bits().len(), 384);
    assert_eq!(&b.bits()[..8], &[1, 1, 1, 1, 0, 0, 0, 0]);
}

#[test]
fn bitfeld_invalid_digit() {
    let row = format!("000007 G{}", "0".repeat(95));
    assert_eq!(parse_bit_field_rows(&vec![row]).err(), Some(ParsingError::InvalidHexDigit('G')));
}

#[test]
fn eckdaten_rows_make_metadata_entries() {
    let storage = parse_metadata_rows(&rows(&[
        "14.12.2024",
        "13.12.2025",
        "Fahrplan 2025$22.11.2024$1.0$SBB",
    ]))
    .unwrap();
    assert_eq!(storage.len(), 6);
    let entry = |id: i32| {
        let e = storage.find(id).unwrap();
        (e.key().to_string(), e.value().to_string())
    };
    assert_eq!(entry(1), ("start_date".to_string(), "2024-12-14".to_string()));
    assert_eq!(entry(2), ("end_date".to_string(), "2025-12-13".to_string()));
    assert_eq!(entry(3), ("name".to_string(), "Fahrplan 2025".to_string()));
    assert_eq!(entry(4), ("created_at".to_string(), "22.11.2024".to_string()));
    assert_eq!(entry(5), ("version".to_string(), "1.0".to_string()));
    assert_eq!(entry(6), ("provider".to_string(), "SBB".to_string()));
}

#[test]
fn eckdaten_errors() {
    assert!(matches!(
        parse_metadata_rows(&rows(&["14.12.2024", "13.12.2025"])),
        Err(ParsingError::Unknown(_))
    ));
    assert!(matches!(
        parse_metadata_rows(&rows(&["14.12.2024", "13.12.2025", "a$b$c"])),
        Err(ParsingError::Unknown(_))
    ));
    assert_eq!(
        parse_metadata_rows(&rows(&["14.12.2024", "xx", "a$b$c$d"])).err(),
        Some(ParsingError::ParseDate("xx".to_string()))
    );
}

#[test]
fn zugart_rows_make_transport_types() {
    let (storage, pk) = parse_transport_type_rows(&rows(&[
        "IC  10 A 0 IC       0 N",
        "<text>",
        "<Deutsch>",
        "class10 Intercity",
        "option01 Reservierung",
        "category 010 InterCity",
        "<Franzoesisch>",
        "class10 Intercity-fr",
    ]))
    .unwrap();
    assert_eq!(pk.get("IC"), Some(&1));
    let t = storage.find(1).unwrap();
    assert_eq!(t.designation(), "IC");
    assert_eq!(t.product_class_id(), 10);
    assert_eq!(t.product_class_name(Language::German).map(String::as_str), Some("Intercity"));
    assert_eq!(t.product_class_name(Language::French).map(String::as_str), Some("Intercity-fr"));
    assert_eq!(t.category_name(Language::German).map(String::as_str), Some("InterCity"));
    assert_eq!(t.category_name(Language::French), None);
}

#[test]
fn zugart_errors() {
    assert_eq!(
        parse_transport_type_rows(&rows(&["<Deutsch>"])).err(),
        Some(ParsingError::Unknown("Type A row missing.".to_string()))
    );
    assert_eq!(
        parse_transport_type_rows(&rows(&["IC  10 A 0 IC       0 N", "<Klingonisch>"])).err(),
        Some(ParsingError::Language("Klingonisch".to_string()))
    );
}

#[test]
fn richtung_rows_make_directions() {
    let (storage, pk) = parse_direction_rows(&rows(&["R000011 Zürich HB", "R000012 Bern"])).unwrap();
    assert_eq!(pk.get("R000011"), Some(&11));
    assert_eq!(pk.get("R000012"), Some(&12));
    assert_eq!(storage.find(11).unwrap().name(), "Zürich HB");
    assert_eq!(storage.find(12).unwrap().name(), "Bern");
}

#[test]
fn richtung_error() {
    assert_eq!(
        parse_direction_rows(&rows(&["RABCDEF Nowhere"])).err(),
        Some(ParsingError::ParseInt("RABCDEF".to_string()))
    );
}

#[test]
fn umsteigv_rows_make_administration_exchange_times() {
    let storage = parse_administration_rows(&rows(&["8500010 000011 000033 04", "        000011 000011 02"])).unwrap();
    assert_eq!(storage.len(), 2);
    let first = storage.find(1).unwrap();
    assert_eq!(first.stop_id(), Some(8500010));
    assert_eq!(first.administration_1(), "000011");
    assert_eq!(storage.find(2).unwrap().stop_id(), None);
}

#[test]
fn umsteigz_rows_make_journey_exchange_times() {
    let storage =
        parse_journey_exchange_rows(&rows(&["8500010 002351 000011 017214 000011 003! 000017"])).unwrap();
    let x = storage.find(1).unwrap();
    assert_eq!(x.id(), 1);
    assert_eq!(x.stop_id(), 8500010);
    assert_eq!(x.journey_legacy_id_1(), 2351);
}

#[test]
fn feiertag_rows_make_holidays() {
    let storage = parse_holiday_rows(&rows(&["01.01.2025 Neujahr<deu>Nouvel an<fra>"])).unwrap();
    let h = storage.find(1).unwrap();
    assert_eq!(h.date(), Date::from_ymd(2025, 1, 1).unwrap());
    assert_eq!(h.name(Language::German).map(String::as_str), Some("Neujahr"));
    assert_eq!(h.name(Language::French).map(String::as_str), Some("Nouvel an"));
    assert_eq!(h.name(Language::Italian), None);
}

#[test]
fn feiertag_errors() {
    assert_eq!(
        parse_holiday_rows(&rows(&["32.01.2025 Neujahr<deu>"])).err(),
        Some(ParsingError::ParseDate("32.01.2025".to_string()))
    );
    assert_eq!(
        parse_holiday_rows(&rows(&["01.01.2025 Neujahr<xx>"])).err(),
        Some(ParsingError::Language("xx".to_string()))
    );
    assert_eq!(
        parse_holiday_rows(&rows(&["01.01.2025 Neujahr>"])).err(),
        Some(ParsingError::Syntax("Neujahr>".to_string()))
    );
}

#[test]
fn bahnhof_and_umsteigb_rows_make_stops_with_exchange_times() {
    let stops = parse_stop_rows(&rows(&[
        "8500010     Basel SBB$<1>$BS$<3>",
        "8507000     Bern$<1>$Berne$<4>",
    ]))
    .unwrap();
    assert_eq!(stops.len(), 2);
    assert_eq!(stops.find(8500010).unwrap().name(), "Basel SBB");
    let (stops, default) = apply_stop_exchange_rows(
        stops,
        &rows(&["9999999 05 03", "8507000 07 04"]),
    )
    .unwrap();
    assert_eq!(default, (5, 3));
    assert_eq!(stops.find(8507000).unwrap().exchange_time(), Some((7, 4)));
    assert_eq!(stops.find(8500010).unwrap().exchange_time(), None);
}

#[test]
fn umsteigb_errors() {
    let stops = parse_stop_rows(&rows(&["8500010     Basel SBB$<1>"])).unwrap();
    assert_eq!(
        apply_stop_exchange_rows(stops, &rows(&["1234567 05 03"])).err(),
        Some(ParsingError::UnknownId("1234567 05 03".to_string()))
    );
    let stops = parse_stop_rows(&rows(&["8500010     Basel SBB$<1>"])).unwrap();
    assert_eq!(
        apply_stop_exchange_rows(stops, &rows(&["8500010 05 03"])).err(),
        Some(ParsingError::MissingDefaultExchangeTime)
    );
    assert_eq!(
        parse_stop_rows(&rows(&["8500010     Basel SBB$<2>"])).err(),
        Some(ParsingError::Syntax("Basel SBB$<2>".to_string()))
    );
}

#[test]
fn metabhf_rows_make_stop_connections() {
    let mut attributes = FxHashMap::default();
    attributes.insert("YB".to_string(), 4);
    let storage = parse_stop_connection_rows(
        &rows(&[
            "8500010 8500020 005",
            "*A YB",
            "8500010: 8500020",
            "8500020 8500010 006",
        ]),
        &attributes,
    )
    .unwrap();
    assert_eq!(storage.len(), 2);
    let c = storage.find(1).unwrap();
    assert_eq!((c.stop_id_1(), c.stop_id_2(), c.duration(), c.attribute()), (8500010, 8500020, 5, 4));
    let d = storage.find(2).unwrap();
    assert_eq!((d.stop_id_1(), d.stop_id_2(), d.duration(), d.attribute()), (8500020, 8500010, 6, 0));
}

#[test]
fn metabhf_errors() {
    let attributes = FxHashMap::default();
    assert_eq!(
        parse_stop_connection_rows(&rows(&["*A YB"]), &attributes).err(),
        Some(ParsingError::Unknown("Type A row missing.".to_string()))
    );
    assert_eq!(
        parse_stop_connection_rows(&rows(&["8500010 8500020 005", "*A YB"]), &attributes).err(),
        Some(ParsingError::UnknownId("YB".to_string()))
    );
}

#[test]
fn infotext_rows_make_information_texts() {
    let ids = parse_information_text_ids(&rows(&["000000001 Zuschlag", "000000002 Reservation"])).unwrap();
    let texts = apply_information_texts(ids, &rows(&["000000001 Zuschlag"]), Language::German).unwrap();
    let texts = apply_information_texts(texts, &rows(&["000000002 Booking"]), Language::English).unwrap();
    assert_eq!(texts.len(), 2);
    assert_eq!(texts[&1].content(Language::German).map(String::as_str), Some("Zuschlag"));
    assert_eq!(texts[&1].content(Language::English), None);
    assert_eq!(texts[&2].content(Language::English).map(String::as_str), Some("Booking"));
    let ids = parse_information_text_ids(&rows(&["000000001 Zuschlag"])).unwrap();
    assert_eq!(
        apply_information_texts(ids, &rows(&["000000009 Unknown"]), Language::French).err(),
        Some(ParsingError::UnknownId("000000009 Unknown".to_string()))
    );
}

#[test]
fn betrieb_rows_make_transport_companies() {
    let de = rows(&[
        "00001 K \"SBB\" L \"SBB\" V \"Schweizerische Bundesbahnen SBB\"",
        "00001 : 000011 000085",
    ]);
    let companies = parse_transport_company_ids(&de).unwrap();
    assert_eq!(companies.len(), 1);
    assert_eq!(companies[&1].administrations(), &vec!["000011".to_string(), "000085".to_string()]);
    let companies = apply_transport_company_names(companies, &de, Language::German).unwrap();
    let c = &companies[&1];
    assert_eq!(c.short_name(Language::German).map(String::as_str), Some("SBB"));
    assert_eq!(c.full_name(Language::German).map(String::as_str), Some("Schweizerische Bundesbahnen SBB"));
    assert_eq!(c.short_name(Language::French), None);
    let companies = parse_transport_company_ids(&de).unwrap();
    assert_eq!(
        apply_transport_company_names(companies, &rows(&["00009 K \"X\" L \"Y\" V \"Z\""]), Language::French).err(),
        Some(ParsingError::UnknownId("00009 K \"X\" L \"Y\" V \"Z\"".to_string()))
    );
}

#[test]
fn durchbi_rows_make_through_services() {
    let storage =
        parse_through_service_rows(&rows(&["002351 000011 8500010 017214 000011 000017 8500020"])).unwrap();
    let t = storage.find(1).unwrap();
    assert_eq!(t.journey_1_id(), &(2351, "000011".to_string()));
    assert_eq!(t.journey_1_stop_id(), 8500010);
    assert_eq!(t.journey_2_id(), &(17214, "000011".to_string()));
    assert_eq!(t.bit_field_id(), 17);
    assert_eq!(t.journey_2_stop_id(), 8500020);
}

fn journey_converter() -> FxHashMap<(i32, String), i32> {
    let mut m = FxHashMap::default();
    m.insert((2351, "000011".to_string()), 1);
    m
}

#[test]
fn gleis_rows_make_platforms_and_journey_platforms() {
    let gleis = rows(&[
        "8500010 002351 000011 #0000001 0830 000017",
        "8500010 #0000001 G '12' A 'AB'",
        "8500010 #0000002 G '13'",
    ]);
    let (journey_platforms, platforms, platforms_pk, offset) =
        parse_platform_rows(&gleis, &journey_converter()).unwrap();
    assert_eq!(platforms.len(), 2);
    let p1 = platforms.find(1).unwrap();
    assert_eq!((p1.name(), p1.stop_id()), ("12", 8500010));
    assert_eq!(platforms.find(2).unwrap().name(), "13");
    assert_eq!(platforms_pk.get(&(8500010, 1)), Some(&1));
    assert_eq!(platforms_pk.get(&(8500010, 2)), Some(&2));
    assert_eq!(journey_platforms.len(), 1);
    assert!(journey_platforms.find((2351, 1)).is_some());
    assert_eq!(offset, gleis[0].len() + 2);

    let lv95 = rows(&["8500010 #0000001 G '12'", "8500010 #0000001 I A ch:1:sloid:7000:1:12"]);
    let platforms = apply_platform_sloid_rows(platforms, &lv95, &platforms_pk).unwrap();
    assert_eq!(platforms.len(), 2);
    assert_eq!(platforms.find(1).unwrap().sloid(), "ch:1:sloid:7000:1:12");
    assert_eq!(platforms.find(2).unwrap().sloid(), "");
    let (_, platforms, platforms_pk, _) =
        parse_platform_rows(&rows(&["8500010 #0000001 G '12'"]), &journey_converter()).unwrap();
    let unknown = "8500099 #0000001 I A ch:1:sloid:1";
    assert_eq!(
        apply_platform_sloid_rows(platforms, &rows(&[unknown]), &platforms_pk).err(),
        Some(ParsingError::UnknownId(unknown.to_string()))
    );
}

#[test]
fn gleis_errors() {
    assert_eq!(
        parse_platform_rows(&rows(&["8500010 #0000001 A 'AB'"]), &journey_converter()).err(),
        Some(ParsingError::Unknown("Entry of type \"G\" missing.".to_string()))
    );
    assert_eq!(
        parse_platform_rows(&rows(&["8500010 #0000001 G '12' A"]), &journey_converter()).err(),
        Some(ParsingError::Syntax("G '12' A".to_string()))
    );
    let unknown_journey = "8500010 009999 000011 #0000001 0830 000017";
    assert_eq!(
        parse_platform_rows(&rows(&[unknown_journey, "8500010 #0000001 G '12'"]), &journey_converter()).err(),
        Some(ParsingError::UnknownId(unknown_journey.to_string()))
    );
    let unknown_platform = "8500010 002351 000011 #0000009 0830 000017";
    assert_eq!(
        parse_platform_rows(&rows(&[unknown_platform, "8500010 #0000001 G '12'"]), &journey_converter()).err(),
        Some(ParsingError::UnknownId(unknown_platform.to_string()))
    );
    let bad_time = "8500010 002351 000011 #0000001 0875 000017";
    assert_eq!(
        parse_platform_rows(&rows(&[bad_time, "8500010 #0000001 G '12'"]), &journey_converter()).err(),
        Some(ParsingError::UnableToBuildTime(8, 75, 0))
    );
}
