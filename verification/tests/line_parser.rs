use hrdf_parser::line_parser::{
    parse, parse_line, row_f_b_combinator, row_k_nt_lt_dt_rt_w_combinator, LineType,
};
use hrdf_parser::models::Line;
use hrdf_parser::error::{HrdfError, ParsingError};
use rustc_hash::FxHashMap;

#[allow(clippy::too_many_arguments)]
fn assert_line(
    line: &Line,
    id: i32,
    name: &str,
    short_name: &str,
    long_name: &str,
    region_name: &str,
    internal_designation: &str,
    description: &str,
    text_color: (i16, i16, i16),
    background_color: (i16, i16, i16),
) {
    assert_eq!(line.id(), id);
    assert_eq!(line.name(), name);
    assert_eq!(line.get_name().as_str(), short_name);
    assert_eq!(line.long_name(), long_name);
    assert_eq!(line.region_name(), region_name);
    assert_eq!(line.internal_designation(), internal_designation);
    assert_eq!(line.description(), description);
    let t = line.text_color();
    assert_eq!((t.r(), t.g(), t.b()), text_color);
    let b = line.background_color();
    assert_eq!((b.r(), b.g(), b.b()), background_color);
}

#[test]
fn test_row_k_combinator_valid() {
    let input = "0000001 K ch:1:SLNID:33:1";
    let result = row_k_nt_lt_dt_rt_w_combinator(input);
    assert!(result.is_ok());
    let (_, line_type) = result.unwrap();
    match line_type {
        Some(LineType::Kline { id, name }) => {
            assert_eq!(id, 1);
            assert_eq!(name, "ch:1:SLNID:33:1");
        }
        _ => panic!("Expected Kline variant"),
    }
}

#[test]
fn test_row_k_combinator_with_spaces() {
    let input = "0000010 K 68";
    let result = row_k_nt_lt_dt_rt_w_combinator(input);
    assert!(result.is_ok());
    let (_, line_type) = result.unwrap();
    match line_type {
        Some(LineType::Kline { id, name }) => {
            assert_eq!(id, 10);
            assert_eq!(name, "68");
        }
        _ => panic!("Expected Kline variant"),
    }
}

#[test]
fn test_row_nt_combinator_valid() {
    let input = "0000001 N T Kurzname";
    let result = row_k_nt_lt_dt_rt_w_combinator(input);
    assert!(result.is_ok());
    let (_, line_type) = result.unwrap();
    match line_type {
        Some(LineType::NTline { id, short_name }) => {
            assert_eq!(id, 1);
            assert_eq!(short_name, "Kurzname");
        }
        _ => panic!("Expected NTline variant"),
    }
}

#[test]
fn test_row_lt_combinator_valid() {
    let input = "0000001 L T Langname";
    let result = row_k_nt_lt_dt_rt_w_combinator(input);
    assert!(result.is_ok());
    let (_, line_type) = result.unwrap();
    match line_type {
        Some(LineType::LTline { id, long_name }) => {
            assert_eq!(id, 1);
            assert_eq!(long_name, "Langname");
        }
        _ => panic!("Expected LTline variant"),
    }
}

#[test]
fn test_row_w_combinator_valid() {
    let input = "0000001 W interne Bezeichnung";
    let result = row_k_nt_lt_dt_rt_w_combinator(input);
    assert!(result.is_ok());
    let (_, line_type) = result.unwrap();
    match line_type {
        Some(LineType::Wline {
            id,
            internal_designation,
        }) => {
            assert_eq!(id, 1);
            assert_eq!(internal_designation, "interne Bezeichnung");
        }
        _ => panic!("Expected Wline variant"),
    }
}

#[test]
fn test_row_dt_combinator_valid() {
    let input = "0000001 D T interne Bezeichnung";
    let result = row_k_nt_lt_dt_rt_w_combinator(input);
    assert!(result.is_ok());
    let (_, line_type) = result.unwrap();
    match line_type {
        Some(LineType::DTline { id, description }) => {
            assert_eq!(id, 1);
            assert_eq!(description, "interne Bezeichnung");
        }
        _ => panic!("Expected DTline variant"),
    }
}

#[test]
fn test_row_rt_combinator_valid() {
    let input = "0000001 R T interne Bezeichnung";
    let result = row_k_nt_lt_dt_rt_w_combinator(input);
    assert!(result.is_ok());
    let (_, line_type) = result.unwrap();
    match line_type {
        Some(LineType::RTline { id, region_name }) => {
            assert_eq!(id, 1);
            assert_eq!(region_name, "interne Bezeichnung");
        }
        _ => panic!("Expected RTline variant"),
    }
}

#[test]
fn test_row_f_combinator_valid() {
    let input = "0000001 F 001 002 003";
    let result = row_f_b_combinator(input);
    assert!(result.is_ok());
    let (_, line_type) = result.unwrap();
    match line_type {
        Some(LineType::Fline { id, r, g, b }) => {
            assert_eq!(id, 1);
            assert_eq!(r, 1);
            assert_eq!(g, 2);
            assert_eq!(b, 3);
        }
        _ => panic!("Expected Fline variant"),
    }
}

#[test]
fn test_row_f_combinator_max_rgb() {
    let input = "0000010 F 255 255 255";
    let result = row_f_b_combinator(input);
    assert!(result.is_ok());
    let (_, line_type) = result.unwrap();
    match line_type {
        Some(LineType::Fline { id, r, g, b }) => {
            assert_eq!(id, 10);
            assert_eq!(r, 255);
            assert_eq!(g, 255);
            assert_eq!(b, 255);
        }
        _ => panic!("Expected Fline variant"),
    }
}

#[test]
fn test_row_b_combinator_valid() {
    let input = "0000001 B 001 002 003";
    let result = row_f_b_combinator(input);
    assert!(result.is_ok());
    let (_, line_type) = result.unwrap();
    match line_type {
        Some(LineType::Bline { id, r, g, b }) => {
            assert_eq!(id, 1);
            assert_eq!(r, 1);
            assert_eq!(g, 2);
            assert_eq!(b, 3);
        }
        _ => panic!("Expected Bline variant"),
    }
}

#[test]
fn test_row_b_combinator_complex_rgb() {
    let input = "0000010 B 236 097 159";
    let result = row_f_b_combinator(input);
    assert!(result.is_ok());
    let (_, line_type) = result.unwrap();
    match line_type {
        Some(LineType::Bline { id, r, g, b }) => {
            assert_eq!(id, 10);
            assert_eq!(r, 236);
            assert_eq!(g, 97);
            assert_eq!(b, 159);
        }
        _ => panic!("Expected Bline variant"),
    }
}

#[test]
fn test_parse_line_k_creates_new_line() {
    let mut data = FxHashMap::default();
    parse_line("0000001 K TestLine", &mut data).unwrap();
    assert_eq!(data.len(), 1);
    let line = data.get(&1).unwrap();
    assert_line(line, 1, "TestLine", "", "", "", "", "", (0, 0, 0), (0, 0, 0));
}

#[test]
#[should_panic]
fn test_parse_line_nt_requires_existing_k() {
    let mut data = FxHashMap::default();
    parse_line("0000001 N T ShortName", &mut data).unwrap();
}

#[test]
fn test_parse_line_complete_sequence() {
    let mut data = FxHashMap::default();

    parse_line("0000001 K ch:1:SLNID:33:1", &mut data).unwrap();
    parse_line("0000001 W internal", &mut data).unwrap();
    parse_line("0000001 N T Short", &mut data).unwrap();
    parse_line("0000001 L T Long Name", &mut data).unwrap();
    parse_line("0000001 D T Wow what a description", &mut data).unwrap();
    parse_line("0000001 R T Region line name", &mut data).unwrap();
    parse_line("0000001 F 255 128 064", &mut data).unwrap();
    parse_line("0000001 B 010 020 030", &mut data).unwrap();

    assert_eq!(data.len(), 1);
    let line = data.get(&1).unwrap();
    assert_line(
        line,
        1,
        "ch:1:SLNID:33:1",
        "Short",
        "Long Name",
        "Region line name",
        "internal",
        "Wow what a description",
        (255, 128, 64),
        (10, 20, 30),
    );
}

#[test]
fn test_parse_line_multiple_lines() {
    let mut data = FxHashMap::default();

    parse_line("0000001 K Line1", &mut data).unwrap();
    parse_line("0000002 K Line2", &mut data).unwrap();
    parse_line("0000001 N T L1", &mut data).unwrap();
    parse_line("0000002 N T L2", &mut data).unwrap();

    assert_eq!(data.len(), 2);
    let line = data.get(&1).unwrap();
    assert_line(line, 1, "Line1", "L1", "", "", "", "", (0, 0, 0), (0, 0, 0));
    let line = data.get(&2).unwrap();
    assert_line(line, 2, "Line2", "L2", "", "", "", "", (0, 0, 0), (0, 0, 0));
}

#[test]
#[should_panic]
fn test_parse_line_id_mismatch_error() {
    let mut data = FxHashMap::default();
    data.insert(1, Line::new(999, "Wrong".to_string()));

    parse_line("0000001 N T Test", &mut data).unwrap();
}

#[test]
#[should_panic]
fn test_empty_lines_are_filtered() {
    let mut data = FxHashMap::default();

    // Empty line should not cause error
    parse_line("", &mut data).unwrap();
}

#[test]
fn test_color_parsing() {
    let mut data = FxHashMap::default();
    parse_line("0000123 K ColorTest", &mut data).unwrap();
    parse_line("0000123 F 255 000 128", &mut data).unwrap();
    parse_line("0000123 B 064 128 255", &mut data).unwrap();

    let line = data.get(&123).unwrap();
    assert_line(line, 123, "ColorTest", "", "", "", "", "", (255, 0, 128), (64, 128, 255));
}

#[test]
fn unknown_row_kind_is_a_syntax_error_and_changes_nothing() {
    let mut data = FxHashMap::default();
    parse_line("0000001 K A", &mut data).unwrap();
    let err = parse_line("0000001 X what", &mut data).unwrap_err();
    assert!(matches!(err, ParsingError::Syntax(ref s) if s == "0000001 X what"));
    assert_eq!(data.len(), 1);
    assert_eq!(data.get(&1).unwrap().name(), "A");
}

#[test]
fn missing_key_row_is_an_unknown_id() {
    let mut data = FxHashMap::default();
    let err = parse_line("0000002 F 001 002 003", &mut data).unwrap_err();
    assert!(matches!(err, ParsingError::UnknownId(_)));
    assert!(data.is_empty());
}

#[test]
fn color_row_keeps_what_follows_the_numbers() {
    let (rest, t) = row_f_b_combinator("0000001 F 001 002 003 tail").unwrap();
    assert_eq!(rest, " tail");
    assert!(matches!(t, Some(LineType::Fline { id: 1, r: 1, g: 2, b: 3 })));
    assert!(row_f_b_combinator("0000001 F 001 002").is_err());
    assert!(row_k_nt_lt_dt_rt_w_combinator("000000x K a").is_err());
    let (rest, t) = row_k_nt_lt_dt_rt_w_combinator("   0042 K  padded  ").unwrap();
    assert_eq!(rest, "");
    assert!(matches!(t, Some(LineType::Kline { id: 42, ref name }) if name == "padded"));
}

#[test]
fn parse_skips_blank_rows_and_reports_the_failing_row() {
    let rows = vec![
        "0000001 K One".to_string(),
        "   ".to_string(),
        "0000001 N T Uno".to_string(),
    ];
    let storage = parse("LINIE", &rows).unwrap();
    assert_eq!(storage.find(1).unwrap().get_name(), "Uno");

    let rows = vec![
        "0000001 K One".to_string(),
        "".to_string(),
        "0000003 N T Three".to_string(),
        "0000001 N T Uno".to_string(),
    ];
    match parse("LINIE", &rows) {
        Err(HrdfError::Parsing { error, file, line, line_number }) => {
            assert!(matches!(error, ParsingError::UnknownId(_)));
            assert_eq!(file, "LINIE");
            assert_eq!(line, "0000003 N T Three");
            assert_eq!(line_number, 2);
        }
        _ => panic!("expected a parsing error"),
    }
}
