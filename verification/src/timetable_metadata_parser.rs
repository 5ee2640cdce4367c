//! The ECKDATEN file: the first and last days of the timetable, then one
//! row with its name, creation date, version and provider separated by `$`.
//! The entries are stored under the keys `start_date`, `end_date` (both as
//! `%Y-%m-%d`), `name`, `created_at`, `version` and `provider`, with the ids
//! 1 to 6.
use crate::calendar::{day_number_text, parsed_day_number, Date};
use crate::error::{PResult, ParsingError};
use crate::fxmap::{fx_map_insert, fx_map_new};
use crate::attribute_parser::column_is;
use crate::journey_parser::{text_at, text_of};
use crate::models::TimetableMetadataEntry;
use crate::parsing::{
    read_rows,
    row_readable,
    row_values,
    rows_read,
    values_view,
    ColumnDefinition,
    ExpectedType,
    ParsedValue,
    RowDefinition,
    RowMatcher,
    RowParser,
};
use crate::storage::ResourceStorage;
use crate::parser::{split_chars, split_on, texts};
use rustc_hash::FxHashMap;
use vstd::prelude::*;

verus! {

/// The pattern of the rows that hold a day.
pub open spec fn date_row_pattern() -> Seq<char> {
    "^[0-9]{2}.[0-9]{2}.[0-9]{4}$"@
}

/// The format of the days in ECKDATEN.
pub open spec fn eckdaten_date_format() -> Seq<char> {
    "%d.%m.%Y"@
}

/// The parser knows the two kinds of ECKDATEN rows: a day (matched by
/// `date_row_pattern`, bytes 1-10) and any other row (the whole row).
pub open spec fn metadata_parser_shape(p: RowParser) -> bool {
    let d = p.definitions();
    &&& d.len() == 2
    &&& d[0].spec_id() == 1
    &&& d[0].spec_row_matcher() matches Some(m) && m.pattern_text() == Some(date_row_pattern())
    &&& d[0].columns().len() == 1
    &&& column_is(d[0].columns()[0], 1, 10, ExpectedType::String)
    &&& d[1].spec_id() == 2
    &&& d[1].spec_row_matcher() matches Some(m) && m.pattern_text() is None && m.spec_start() == 1
        && m.spec_length() == 0 && m.value_text() == ""@
        && m.spec_should_equal_value()
    &&& d[1].columns().len() == 1
    &&& column_is(d[1].columns()[0], 1, -1, ExpectedType::String)
}

/// The parser of ECKDATEN rows.
pub fn metadata_row_parser() -> (res: RowParser)
    ensures
        metadata_parser_shape(res),
{
    RowParser::new(
        vec![
            RowDefinition::new(
                1,
                RowMatcher::from_pattern("^[0-9]{2}.[0-9]{2}.[0-9]{4}$"),
                vec![ColumnDefinition::new(1, 10, ExpectedType::String)],
            ),
            RowDefinition::new(
                2,
                RowMatcher::new(1, 0, "", true),
                vec![ColumnDefinition::new(1, -1, ExpectedType::String)],
            ),
        ],
    )
}

/// The entry has id `id`, key `key` and value `value`.
pub open spec fn entry_is(e: TimetableMetadataEntry, id: i32, key: Seq<char>, value: Seq<char>) -> bool {
    e.spec_id() == id && e.key_text() == key && e.value_text() == value
}

/// The storage holds the six entries made of the days and the pieces.
pub open spec fn entries_hold(
    view: Map<i32, TimetableMetadataEntry>,
    start: int,
    end: int,
    pieces: Seq<Seq<char>>,
) -> bool {
    &&& forall|k: i32| #[trigger] view.contains_key(k) <==> 1 <= k <= 6
    &&& entry_is(view[1], 1, "start_date"@, day_number_text(start))
    &&& entry_is(view[2], 2, "end_date"@, day_number_text(end))
    &&& entry_is(view[3], 3, "name"@, pieces[0])
    &&& entry_is(view[4], 4, "created_at"@, pieces[1])
    &&& entry_is(view[5], 5, "version"@, pieces[2])
    &&& entry_is(view[6], 6, "provider"@, pieces[3])
}

/// What the rows read give: with fewer than three rows, or fewer than four
/// `$`-separated pieces in the third (see `split_on`), an error saying so; a date error with
/// the first of the first two rows that is not a day; else the entries.
pub open spec fn metadata_from(
    out: Seq<(i32, Vec<ParsedValue>)>,
    res: PResult<ResourceStorage<TimetableMetadataEntry>>,
) -> bool {
    if out.len() < 3 {
        res matches Err(e) && e matches ParsingError::Unknown(s) && s@ == "ECKDATEN: fewer than three rows"@
    } else {
        let t0 = text_at(out[0].1@, 0);
        let t1 = text_at(out[1].1@, 0);
        let t2 = text_at(out[2].1@, 0);
        match (parsed_day_number(t0, eckdaten_date_format()), parsed_day_number(t1, eckdaten_date_format())) {
            (None, _) => res matches Err(e) && e matches ParsingError::ParseDate(s) && s@ == t0,
            (Some(_), None) => res matches Err(e) && e matches ParsingError::ParseDate(s) && s@ == t1,
            (Some(a), Some(b)) => {
                let ps = split_on(t2, '$');
                if ps.len() < 4 {
                    res matches Err(e) && e matches ParsingError::Unknown(s) && s@
                        == "ECKDATEN: fewer than four pieces"@
                } else {
                    res matches Ok(storage) && entries_hold(storage@, a, b, ps)
                }
            },
        }
    }
}

/// What loading ECKDATEN with the parser gives: a syntax error with the first
/// row that it cannot read, else what the rows read give (see
/// `metadata_from`).
pub open spec fn metadata_loaded(
    p: RowParser,
    rows: Seq<String>,
    res: PResult<ResourceStorage<TimetableMetadataEntry>>,
) -> bool {
    if forall|i: int| 0 <= i < rows.len() ==> row_readable(p, #[trigger] rows[i]) {
        exists|out: Seq<(i32, Vec<ParsedValue>)>| #[trigger]
            rows_read(p, rows, out) && metadata_from(out, res)
    } else {
        exists|i: int|
            0 <= i < rows.len() && !row_readable(p, rows[i]) && (forall|j: int|
                0 <= j < i ==> row_readable(p, #[trigger] rows[j])) && res == Err::<
                ResourceStorage<TimetableMetadataEntry>,
                ParsingError,
            >(ParsingError::Syntax(rows[i]))
    }
}

proof fn lemma_metadata_row(p: RowParser, row: String, x: (i32, Vec<ParsedValue>))
    requires
        metadata_parser_shape(p),
        row_readable(p, row),
        row_values(p, row, x),
    ensures
        x.1@.len() == 1,
        x.1@[0]@ is String,
{
    reveal(row_readable);
    reveal(row_values);
    crate::parsing::lemma_matching_kind_in_range(p.definitions(), vstd::utf8::encode_utf8(row@), 0);
    let v = x.1@;
    assert(values_view(v).len() == 1);
    assert(v[0]@ == values_view(v)[0]);
}

/// The first value of a row read.
fn first_text(out: &Vec<(i32, Vec<ParsedValue>)>, i: usize) -> (res: String)
    requires
        i < out@.len(),
        out@[i as int].1@.len() == 1,
        out@[i as int].1@[0]@ is String,
    ensures
        res@ == text_at(out@[i as int].1@, 0),
{
    text_of(&out[i].1[0])
}

/// Loads ECKDATEN from its rows.
pub fn parse_metadata_rows(rows: &Vec<String>) -> (res: PResult<ResourceStorage<TimetableMetadataEntry>>)
    ensures
        exists|p: RowParser| metadata_parser_shape(p) && metadata_loaded(p, rows@, res),
{
    let parser = metadata_row_parser();
    let out = match read_rows(&parser, rows) {
        Err(e) => {
            assert(metadata_loaded(parser, rows@, Err(e)));
            return Err(e);
        },
        Ok(out) => out,
    };
    assert forall|i: int| 0 <= i < rows@.len() implies row_readable(parser, #[trigger] rows@[i]) by {}
    if out.len() < 3 {
        let res = Err(ParsingError::Unknown("ECKDATEN: fewer than three rows".to_owned()));
        assert(metadata_loaded(parser, rows@, res));
        return res;
    }
    proof {
        lemma_metadata_row(parser, rows@[0], out@[0]);
        lemma_metadata_row(parser, rows@[1], out@[1]);
        lemma_metadata_row(parser, rows@[2], out@[2]);
    }
    let t0 = first_text(&out, 0);
    let t1 = first_text(&out, 1);
    let t2 = first_text(&out, 2);
    let start = match Date::parse(t0.as_str(), "%d.%m.%Y") {
        Some(d) => d,
        None => {
            let res = Err(ParsingError::ParseDate(t0));
            assert(metadata_loaded(parser, rows@, res));
            return res;
        },
    };
    let end = match Date::parse(t1.as_str(), "%d.%m.%Y") {
        Some(d) => d,
        None => {
            let res = Err(ParsingError::ParseDate(t1));
            assert(metadata_loaded(parser, rows@, res));
            return res;
        },
    };
    let pieces = split_chars(t2.as_str(), '$');
    if pieces.len() < 4 {
        let res = Err(ParsingError::Unknown("ECKDATEN: fewer than four pieces".to_owned()));
        assert(metadata_loaded(parser, rows@, res));
        return res;
    }
    let mut data: FxHashMap<i32, TimetableMetadataEntry> = fx_map_new();
    fx_map_insert(&mut data, 1, TimetableMetadataEntry::new(1, "start_date".to_owned(), start.to_text()));
    fx_map_insert(&mut data, 2, TimetableMetadataEntry::new(2, "end_date".to_owned(), end.to_text()));
    fx_map_insert(&mut data, 3, TimetableMetadataEntry::new(3, "name".to_owned(), pieces[0].clone()));
    fx_map_insert(&mut data, 4, TimetableMetadataEntry::new(4, "created_at".to_owned(), pieces[1].clone()));
    fx_map_insert(&mut data, 5, TimetableMetadataEntry::new(5, "version".to_owned(), pieces[2].clone()));
    fx_map_insert(&mut data, 6, TimetableMetadataEntry::new(6, "provider".to_owned(), pieces[3].clone()));
    let res = ResourceStorage::new(data);
    proof {
        assert(entries_hold(res@, start.day_number(), end.day_number(), texts(pieces@)));
    }
    assert(metadata_loaded(parser, rows@, Ok(res)));
    Ok(res)
}

} // verus!
