use hrdf_parser::companies;
use hrdf_parser::error::ParsingError;
use hrdf_parser::fields::{
    convert_hex_number_to_bits, parse_administrations, parse_connections, parse_designations,
    parse_holiday_name, parse_name, parse_platform_data, parse_values, remove_first_char,
};

#[test]
fn first_character_is_removed() {
    assert_eq!(remove_first_char("$Bern"), "Bern");
    assert_eq!(remove_first_char("é1"), "1");
    assert_eq!(remove_first_char(""), "");
}

#[test]
fn hexadecimal_bit_fields() {
    assert_eq!(convert_hex_number_to_bits("A5".to_string()).unwrap(), vec![1, 0, 1, 0, 0, 1, 0, 1]);
    assert_eq!(convert_hex_number_to_bits("0f".to_string()).unwrap(), vec![0, 0, 0, 0, 1, 1, 1, 1]);
    assert!(convert_hex_number_to_bits("".to_string()).unwrap().is_empty());
    assert_eq!(convert_hex_number_to_bits("1G2".to_string()), Err(ParsingError::InvalidHexDigit('G')));
    assert_eq!(parse_values("F0".to_string()), vec![1, 1, 1, 1, 0, 0, 0, 0]);
}

#[test]
fn administrations_are_the_words() {
    assert_eq!(parse_administrations("  000011 sbb\tSBB  ".to_string()), vec!["000011", "sbb", "SBB"]);
    assert!(parse_administrations("   ".to_string()).is_empty());
}

#[test]
fn connections_are_the_numeric_words() {
    assert_eq!(parse_connections("8500010 x 8500020  -3".to_string()), vec![8500010, 8500020, -3]);
    assert!(parse_connections("".to_string()).is_empty());
}

#[test]
fn stop_names_from_inline_values() {
    let (name, long_name, abbreviation, synonyms) =
        parse_designations("$Bern<1>$Bern Hauptbahnhof<2>$BN<3>$Berne<4>$Berna<4>".to_string());
    assert_eq!(name, "Bern");
    assert_eq!(long_name.as_deref(), Some("Bern Hauptbahnhof"));
    assert_eq!(abbreviation.as_deref(), Some("BN"));
    assert_eq!(synonyms, Some(vec!["Berne".to_string(), "Berna".to_string()]));
    let (name, long_name, abbreviation, synonyms) = parse_name("$Thun<1>".to_string());
    assert_eq!(name, "Thun");
    assert!(long_name.is_none() && abbreviation.is_none() && synonyms.is_none());
}

#[test]
fn holiday_names_by_language() {
    let pairs = parse_holiday_name("Weihnachten<deu>Noël<fra>>Natale<ita>".to_string());
    assert_eq!(
        pairs,
        vec![
            ("deu".to_string(), "Weihnachten".to_string()),
            ("fra".to_string(), "Noël".to_string()),
            ("ita".to_string(), "Natale".to_string()),
        ]
    );
}

#[test]
fn platform_code_and_sectors() {
    assert_eq!(parse_platform_data("G '12' A 'AB'".to_string()), ("12".to_string(), Some("AB".to_string())));
    assert_eq!(parse_platform_data("G '3'".to_string()), ("3".to_string(), None));
    assert_eq!(parse_platform_data("A 'C' G '1' G '2'".to_string()), ("2".to_string(), Some("C".to_string())));
}

#[test]
fn transport_company_names_between_markers() {
    assert_eq!(
        companies::parse_designations("\"SBB\" L \"SBB CFF\" V \"Schweizerische Bundesbahnen\"".to_string()),
        Some(("SBB".to_string(), "SBB CFF".to_string(), "Schweizerische Bundesbahnen".to_string()))
    );
    assert_eq!(
        companies::parse_designations("K \"BLS\" L \"BLS\" V \"BLS AG\"".to_string()),
        Some(("".to_string(), "BLS".to_string(), "BLS".to_string()))
    );
    assert_eq!(companies::parse_designations("\"SBB\"".to_string()), None);
    let pieces = vec!["\"a\"".to_string(), "b".to_string(), "\"c\"\"".to_string()];
    assert_eq!(companies::designations_from_pieces(&pieces), ("a".to_string(), "b".to_string(), "c".to_string()));
}
