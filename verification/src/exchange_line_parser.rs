//! The UMSTEIGL file: exchange times between lines at a stop.
use crate::error::{PResult, ParsingError};
use crate::fxmap::{designation_map_contents, designation_map_get, fx_map_insert, fx_map_new};
use crate::journey_parser::{column_is, int16_at, int16_of, opt_at, opt_int_of, text_at, text_of};
use crate::models::{DirectionType, ExchangeTimeLine, LineInfo};
use crate::parsing::{
    read_rows,
    row_readable,
    row_values,
    rows_read,
    values_view,
    ColumnDefinition,
    ExpectedType,
    ParsedValue,
    ParsedView,
    RowDefinition,
    RowParser,
};
use crate::storage::ResourceStorage;
use crate::text::{opt_text, str_equals};
use rustc_hash::FxHashMap;
use vstd::prelude::*;

verus! {

/// The values of an UMSTEIGL row have the kinds of its columns: stop
/// (optional number), then administration, transport type, line and
/// direction of the first line, the same of the second, the minutes (16-bit
/// number) and the guarantee mark.
pub open spec fn exchange_line_row_shape(values: Seq<ParsedValue>) -> bool {
    &&& values.len() == 11
    &&& values[0]@ is OptionInteger32
    &&& forall|k: int| 1 <= k <= 8 ==> (#[trigger] values[k])@ is String
    &&& values[9]@ is Integer16
    &&& values[10]@ is String
}

/// A line field: `*` stands for every line.
pub open spec fn line_of(t: Seq<char>) -> Option<Seq<char>> {
    if t == "*"@ {
        None
    } else {
        Some(t)
    }
}

/// A direction field: `*` stands for both directions, `R` and `H` for one;
/// `None` for any other text.
pub open spec fn direction_of(t: Seq<char>) -> Option<Option<DirectionType>> {
    if t == "*"@ {
        Some(None)
    } else if t == "R"@ {
        Some(Some(DirectionType::Outbound))
    } else if t == "H"@ {
        Some(Some(DirectionType::Return))
    } else {
        None
    }
}

/// `li` is the line of an UMSTEIGL row whose fields for it start at value
/// `k`: administration, transport type (by designation), line and
/// direction.
pub open spec fn line_info_from(values: Seq<ParsedValue>, k: int, tts: Map<Seq<char>, i32>, li: LineInfo) -> bool {
    &&& li.administration_text() == text_at(values, k)
    &&& li.spec_transport_type_id() == tts[text_at(values, k + 1)]
    &&& li.line_id_text() == line_of(text_at(values, k + 2))
    &&& Some(li.spec_direction()) == direction_of(text_at(values, k + 3))
}

/// Whether an UMSTEIGL row can be read: both transport types are known and
/// both directions are directions.
pub open spec fn exchange_line_row_ok(values: Seq<ParsedValue>, tts: Map<Seq<char>, i32>) -> bool {
    &&& tts.contains_key(text_at(values, 2))
    &&& tts.contains_key(text_at(values, 6))
    &&& direction_of(text_at(values, 4)) is Some
    &&& direction_of(text_at(values, 8)) is Some
}

/// `x` is the exchange time with id `id` that an UMSTEIGL row gives: every
/// field from its column, `!` marking a guaranteed exchange.
pub open spec fn exchange_line_from(values: Seq<ParsedValue>, id: i32, tts: Map<Seq<char>, i32>, x: ExchangeTimeLine) -> bool {
    &&& x.spec_id() == id
    &&& x.spec_stop_id() == opt_at(values, 0)
    &&& line_info_from(values, 1, tts, x.spec_line_1())
    &&& line_info_from(values, 5, tts, x.spec_line_2())
    &&& x.spec_duration() == int16_at(values, 9)
    &&& x.spec_is_guaranteed() == (text_at(values, 10) == "!"@)
}

/// `e` is an unknown-id error naming `t`.
pub open spec fn unknown_id_is(e: ParsingError, t: Seq<char>) -> bool {
    e matches ParsingError::UnknownId(s) && s@ == t
}

/// `e` is a syntax error naming `t`.
pub open spec fn syntax_is(e: ParsingError, t: Seq<char>) -> bool {
    e matches ParsingError::Syntax(s) && s@ == t
}

/// The errors of an UMSTEIGL row, in the order they are checked: an
/// unknown transport type (first line, then second), a direction that is
/// not one (first line, then second); each names the text at fault.
pub open spec fn exchange_line_fails(values: Seq<ParsedValue>, tts: Map<Seq<char>, i32>, e: ParsingError) -> bool {
    let t1 = text_at(values, 2);
    let t2 = text_at(values, 6);
    let d1 = text_at(values, 4);
    let d2 = text_at(values, 8);
    ||| (!tts.contains_key(t1) && unknown_id_is(e, t1))
    ||| (tts.contains_key(t1) && !tts.contains_key(t2) && unknown_id_is(e, t2))
    ||| (tts.contains_key(t1) && tts.contains_key(t2) && direction_of(d1) is None && syntax_is(e, d1))
    ||| (tts.contains_key(t1) && tts.contains_key(t2) && direction_of(d1) is Some && direction_of(d2) is None
        && syntax_is(e, d2))
}

/// A line field read: `None` for `*`.
fn line_field(t: String) -> (res: Option<String>)
    ensures
        opt_text(res) == line_of(t@),
{
    if str_equals(t.as_str(), "*") {
        None
    } else {
        Some(t)
    }
}

/// A direction field read: `Ok(None)` for `*`, the direction for `R` or
/// `H`, an error naming the text otherwise.
fn direction_field(t: String) -> (res: PResult<Option<DirectionType>>)
    ensures
        match res {
            Ok(d) => direction_of(t@) == Some(d),
            Err(e) => direction_of(t@) is None && syntax_is(e, t@),
        },
{
    if str_equals(t.as_str(), "*") {
        return Ok(None);
    }
    match DirectionType::from_code(t.as_str()) {
        Some(d) => Ok(Some(d)),
        None => Err(ParsingError::Syntax(t)),
    }
}

/// The exchange time with id `id` from the values of an UMSTEIGL row (see
/// `exchange_line_from`); the transport types are looked up by designation
/// in `transport_types_pk`. Fails where a transport type is unknown or a
/// direction is not one (see `exchange_line_fails`).
pub fn exchange_time_line_from_row(
    values: Vec<ParsedValue>,
    id: i32,
    transport_types_pk: &FxHashMap<String, i32>,
) -> (res: PResult<ExchangeTimeLine>)
    requires
        exchange_line_row_shape(values@),
    ensures
        ({
            let tts = designation_map_contents(*transport_types_pk);
            &&& res is Ok <==> exchange_line_row_ok(values@, tts)
            &&& match res {
                Ok(x) => exchange_line_from(values@, id, tts, x),
                Err(e) => exchange_line_fails(values@, tts, e),
            }
        }),
{
    assert(values@[1]@ is String && values@[2]@ is String && values@[3]@ is String && values@[4]@ is String);
    assert(values@[5]@ is String && values@[6]@ is String && values@[7]@ is String && values@[8]@ is String);
    let stop_id = opt_int_of(&values[0]);
    let administration_1 = text_of(&values[1]);
    let transport_type_1 = text_of(&values[2]);
    let line_1 = text_of(&values[3]);
    let direction_1 = text_of(&values[4]);
    let administration_2 = text_of(&values[5]);
    let transport_type_2 = text_of(&values[6]);
    let line_2 = text_of(&values[7]);
    let direction_2 = text_of(&values[8]);
    let duration = int16_of(&values[9]);
    let guarantee = text_of(&values[10]);
    let transport_type_id_1 = match designation_map_get(transport_types_pk, &transport_type_1) {
        Some(t) => t,
        None => {
            return Err(ParsingError::UnknownId(transport_type_1));
        },
    };
    let transport_type_id_2 = match designation_map_get(transport_types_pk, &transport_type_2) {
        Some(t) => t,
        None => {
            return Err(ParsingError::UnknownId(transport_type_2));
        },
    };
    let direction_1 = direction_field(direction_1)?;
    let direction_2 = direction_field(direction_2)?;
    let is_guaranteed = str_equals(guarantee.as_str(), "!");
    let line_1 = LineInfo::new(administration_1, transport_type_id_1, line_field(line_1), direction_1);
    let line_2 = LineInfo::new(administration_2, transport_type_id_2, line_field(line_2), direction_2);
    Ok(ExchangeTimeLine::new(id, stop_id, line_1, line_2, duration, is_guaranteed))
}

/// The parser knows the one kind of UMSTEIGL row: stop (bytes 1-7,
/// optional number); administration (9-14), transport type (16-18), line
/// (20-27) and direction (29) of the first line; the same of the second
/// (31-36, 38-40, 42-49, 51); the minutes (53-55, 16-bit number); the
/// guarantee mark (56).
pub open spec fn exchange_line_parser_shape(p: RowParser) -> bool {
    let d = p.definitions();
    let c = d[0].columns();
    &&& d.len() == 1
    &&& c.len() == 11
    &&& column_is(c[0], 1, 7, ExpectedType::OptionInteger32)
    &&& column_is(c[1], 9, 14, ExpectedType::String)
    &&& column_is(c[2], 16, 18, ExpectedType::String)
    &&& column_is(c[3], 20, 27, ExpectedType::String)
    &&& column_is(c[4], 29, 29, ExpectedType::String)
    &&& column_is(c[5], 31, 36, ExpectedType::String)
    &&& column_is(c[6], 38, 40, ExpectedType::String)
    &&& column_is(c[7], 42, 49, ExpectedType::String)
    &&& column_is(c[8], 51, 51, ExpectedType::String)
    &&& column_is(c[9], 53, 55, ExpectedType::Integer16)
    &&& column_is(c[10], 56, 56, ExpectedType::String)
}

/// The parser of UMSTEIGL rows.
pub fn exchange_line_row_parser() -> (res: RowParser)
    ensures
        exchange_line_parser_shape(res),
{
    RowParser::new(
        vec![
            RowDefinition::from_columns(
                vec![
                    ColumnDefinition::new(1, 7, ExpectedType::OptionInteger32),
                    ColumnDefinition::new(9, 14, ExpectedType::String),
                    ColumnDefinition::new(16, 18, ExpectedType::String),
                    ColumnDefinition::new(20, 27, ExpectedType::String),
                    ColumnDefinition::new(29, 29, ExpectedType::String),
                    ColumnDefinition::new(31, 36, ExpectedType::String),
                    ColumnDefinition::new(38, 40, ExpectedType::String),
                    ColumnDefinition::new(42, 49, ExpectedType::String),
                    ColumnDefinition::new(51, 51, ExpectedType::String),
                    ColumnDefinition::new(53, 55, ExpectedType::Integer16),
                    ColumnDefinition::new(56, 56, ExpectedType::String),
                ],
            ),
        ],
    )
}

/// The storage holds, under id `k`, the exchange time of the `k`-th row
/// read (see `exchange_line_from`), every row being one that can be taken in.
pub open spec fn exchange_lines_built(
    out: Seq<(i32, Vec<ParsedValue>)>,
    tts: Map<Seq<char>, i32>,
    view: Map<i32, ExchangeTimeLine>,
) -> bool {
    &&& forall|i: int| 0 <= i < out.len() ==> exchange_line_row_ok(#[trigger] out[i].1@, tts)
    &&& forall|k: i32| #[trigger] view.contains_key(k) <==> 1 <= k <= out.len()
    &&& forall|k: i32| #[trigger]
        view.contains_key(k) ==> exchange_line_from(out[k - 1].1@, k, tts, view[k])
}

/// `e` is the error of the first row read that cannot be taken in (see
/// `exchange_line_fails`).
pub open spec fn exchange_lines_fail(out: Seq<(i32, Vec<ParsedValue>)>, tts: Map<Seq<char>, i32>, e: ParsingError) -> bool {
    exists|i: int|
        0 <= i < out.len() && !exchange_line_row_ok(out[i].1@, tts) && (forall|j: int|
            0 <= j < i ==> exchange_line_row_ok(#[trigger] out[j].1@, tts)) && exchange_line_fails(
            out[i].1@,
            tts,
            e,
        )
}

/// What loading UMSTEIGL with the parser gives: a syntax error with the
/// first row that it cannot read; else the exchange times of the rows under
/// the ids 1, 2, ..., or the error of the first row that cannot be taken in.
pub open spec fn exchange_lines_loaded(
    p: RowParser,
    rows: Seq<String>,
    tts: Map<Seq<char>, i32>,
    res: PResult<ResourceStorage<ExchangeTimeLine>>,
) -> bool {
    if forall|i: int| 0 <= i < rows.len() ==> row_readable(p, #[trigger] rows[i]) {
        exists|out: Seq<(i32, Vec<ParsedValue>)>|
            #[trigger] rows_read(p, rows, out) && match res {
                Ok(storage) => exchange_lines_built(out, tts, storage@),
                Err(e) => exchange_lines_fail(out, tts, e),
            }
    } else {
        exists|i: int|
            0 <= i < rows.len() && !row_readable(p, rows[i]) && (forall|j: int|
                0 <= j < i ==> row_readable(p, #[trigger] rows[j])) && res
                == Err::<ResourceStorage<ExchangeTimeLine>, ParsingError>(ParsingError::Syntax(rows[i]))
    }
}

/// The values of a row that the UMSTEIGL parser reads have the kinds of its
/// columns.
proof fn lemma_exchange_line_shape(p: RowParser, row: String, x: (i32, Vec<ParsedValue>))
    requires
        exchange_line_parser_shape(p),
        row_readable(p, row),
        row_values(p, row, x),
    ensures
        exchange_line_row_shape(x.1@),
{
    reveal(row_values);
    let v = x.1@;
    assert(values_view(v).len() == 11);
    assert forall|k: int| 0 <= k < 11 implies #[trigger] v[k]@ == values_view(v)[k] by {}
}

/// Loads UMSTEIGL from its rows: the exchange times between lines under the
/// ids 1, 2, ... in the order of their rows; the transport types are looked
/// up by designation in `transport_types_pk`.
pub fn parse_exchange_line_rows(rows: &Vec<String>, transport_types_pk: &FxHashMap<String, i32>) -> (res:
    PResult<ResourceStorage<ExchangeTimeLine>>)
    requires
        rows@.len() < i32::MAX,
    ensures
        exists|p: RowParser|
            exchange_line_parser_shape(p) && exchange_lines_loaded(
                p,
                rows@,
                designation_map_contents(*transport_types_pk),
                res,
            ),
{
    let ghost tts = designation_map_contents(*transport_types_pk);
    let parser = exchange_line_row_parser();
    let mut out = match read_rows(&parser, rows) {
        Err(e) => {
            assert(exchange_lines_loaded(parser, rows@, tts, Err(e)));
            return Err(e);
        },
        Ok(out) => out,
    };
    let ghost all = out@;
    assert forall|i: int| 0 <= i < rows@.len() implies row_readable(parser, #[trigger] rows@[i]) by {}
    let mut data: FxHashMap<i32, ExchangeTimeLine> = fx_map_new();
    let mut k: usize = 0;
    while k < out.len()
        invariant
            0 <= k <= out@.len(),
            out@.len() == all.len(),
            all.len() < i32::MAX,
            exchange_line_parser_shape(parser),
            rows_read(parser, rows@, all),
            forall|i: int| k <= i < all.len() ==> (#[trigger] out@[i]).1@ == all[i].1@,
            forall|i: int| 0 <= i < k ==> exchange_line_row_ok(#[trigger] all[i].1@, tts),
            forall|q: i32| #[trigger] data@.contains_key(q) <==> 1 <= q <= k,
            forall|q: i32| #[trigger]
                data@.contains_key(q) ==> exchange_line_from(all[q - 1].1@, q, tts, data@[q]),
            tts == designation_map_contents(*transport_types_pk),
        decreases out@.len() - k,
    {
        proof {
            assert(row_readable(parser, rows@[k as int]));
            lemma_exchange_line_shape(parser, rows@[k as int], all[k as int]);
        }
        let mut values: Vec<ParsedValue> = Vec::new();
        std::mem::swap(&mut values, &mut out[k].1);
        assert(values@ == all[k as int].1@);
        let id = (k + 1) as i32;
        match exchange_time_line_from_row(values, id, transport_types_pk) {
            Err(e) => {
                assert(exchange_lines_fail(all, tts, e));
                assert(exchange_lines_loaded(parser, rows@, tts, Err(e)));
                return Err(e);
            },
            Ok(x) => {
                fx_map_insert(&mut data, id, x);
            },
        }
        k = k + 1;
    }
    let res = ResourceStorage::new(data);
    assert(exchange_lines_built(all, tts, res@));
    assert(exchange_lines_loaded(parser, rows@, tts, Ok(res)));
    Ok(res)
}

} // verus!
