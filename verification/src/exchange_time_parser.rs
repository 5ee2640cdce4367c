//! The UMSTEIGV and UMSTEIGZ files: exchange times between administrations
//! and between journeys.
//!
//! An UMSTEIGV row holds the stop (bytes 1-7, optional number), the two
//! administrations (9-14, 16-21) and the minutes (23-24). An UMSTEIGZ row
//! holds the stop (1-7), the first journey and its administration (9-14,
//! 16-21), the second (23-28, 30-35), the minutes (37-39), the guarantee
//! mark (40, `!` for guaranteed) and the bit field (42-47, optional).
//! Each row makes one exchange time, with the ids 1, 2, ... in the order of
//! the rows.
use crate::attribute_parser::column_is;
use crate::error::{PResult, ParsingError};
use crate::fxmap::{fx_map_insert, fx_map_new};
use crate::journey_parser::{int16_at, int16_of, int_at, int_of, opt_at, opt_int_of, text_at, text_of};
use crate::models::{ExchangeTimeAdministration, ExchangeTimeJourney};
use crate::parsing::{
    read_rows,
    row_readable,
    row_values,
    rows_read,
    values_view,
    ColumnDefinition,
    ExpectedType,
    ParsedValue,
    RowDefinition,
    RowParser,
};
use crate::storage::ResourceStorage;
use crate::text::str_equals;
use rustc_hash::FxHashMap;
use vstd::prelude::*;

verus! {

/// The parser knows the one kind of UMSTEIGV row.
pub open spec fn administration_parser_shape(p: RowParser) -> bool {
    let d = p.definitions();
    let c = d[0].columns();
    &&& d.len() == 1
    &&& c.len() == 4
    &&& column_is(c[0], 1, 7, ExpectedType::OptionInteger32)
    &&& column_is(c[1], 9, 14, ExpectedType::String)
    &&& column_is(c[2], 16, 21, ExpectedType::String)
    &&& column_is(c[3], 23, 24, ExpectedType::Integer16)
}

/// The parser of UMSTEIGV rows.
pub fn administration_row_parser() -> (res: RowParser)
    ensures
        administration_parser_shape(res),
{
    RowParser::new(
        vec![
            RowDefinition::from_columns(
                vec![
                    ColumnDefinition::new(1, 7, ExpectedType::OptionInteger32),
                    ColumnDefinition::new(9, 14, ExpectedType::String),
                    ColumnDefinition::new(16, 21, ExpectedType::String),
                    ColumnDefinition::new(23, 24, ExpectedType::Integer16),
                ],
            ),
        ],
    )
}

/// The exchange time that an UMSTEIGV row's values give, with id `id`.
pub open spec fn administration_from(v: Seq<ParsedValue>, id: i32, x: ExchangeTimeAdministration) -> bool {
    &&& x.spec_id() == id
    &&& x.spec_stop_id() == opt_at(v, 0)
    &&& x.administration_1_text() == text_at(v, 1)
    &&& x.administration_2_text() == text_at(v, 2)
    &&& x.spec_duration() == int16_at(v, 3)
}

/// A syntax error with the first row that the parser cannot read.
pub open spec fn first_unreadable<T>(p: RowParser, rows: Seq<String>, res: PResult<T>) -> bool {
    exists|i: int|
        0 <= i < rows.len() && !row_readable(p, rows[i]) && (forall|j: int|
            0 <= j < i ==> row_readable(p, #[trigger] rows[j])) && res == Err::<T, ParsingError>(
            ParsingError::Syntax(rows[i]),
        )
}

/// What loading UMSTEIGV with the parser gives: a syntax error with the
/// first row that it cannot read, else the exchange time of each row under
/// the ids 1, 2, ...
pub open spec fn administrations_loaded(
    p: RowParser,
    rows: Seq<String>,
    res: PResult<ResourceStorage<ExchangeTimeAdministration>>,
) -> bool {
    if forall|i: int| 0 <= i < rows.len() ==> row_readable(p, #[trigger] rows[i]) {
        res matches Ok(storage) && exists|out: Seq<(i32, Vec<ParsedValue>)>|
            #[trigger] rows_read(p, rows, out) && (forall|k: i32| #[trigger]
                storage@.contains_key(k) <==> 1 <= k <= out.len()) && (forall|k: i32| #[trigger]
                storage@.contains_key(k) ==> administration_from(out[k - 1].1@, k, storage@[k]))
    } else {
        first_unreadable(p, rows, res)
    }
}

pub(crate) proof fn lemma_values_kinds(p: RowParser, row: String, x: (i32, Vec<ParsedValue>), n: int)
    requires
        p.definitions().len() == 1,
        p.definitions()[0].columns().len() == n,
        row_readable(p, row),
        row_values(p, row, x),
    ensures
        x.1@.len() == n,
        forall|k: int|
            0 <= k < n ==> (#[trigger] x.1@[k])@ == p.definitions()[0].columns()[k].value_in(
                vstd::utf8::encode_utf8(row@),
            ),
{
    reveal(row_values);
    let v = x.1@;
    assert(values_view(v).len() == n);
    assert forall|k: int| 0 <= k < n implies (#[trigger] v[k])@ == values_view(v)[k] by {}
}

/// Loads UMSTEIGV from its rows.
pub fn parse_administration_rows(rows: &Vec<String>) -> (res: PResult<
    ResourceStorage<ExchangeTimeAdministration>,
>)
    requires
        rows@.len() < i32::MAX,
    ensures
        exists|p: RowParser| administration_parser_shape(p) && administrations_loaded(p, rows@, res),
{
    let parser = administration_row_parser();
    let out = match read_rows(&parser, rows) {
        Err(e) => {
            assert(administrations_loaded(parser, rows@, Err(e)));
            return Err(e);
        },
        Ok(out) => out,
    };
    let ghost all = out@;
    assert forall|i: int| 0 <= i < rows@.len() implies row_readable(parser, #[trigger] rows@[i]) by {}
    let mut data: FxHashMap<i32, ExchangeTimeAdministration> = fx_map_new();
    let mut k: usize = 0;
    while k < out.len()
        invariant
            0 <= k <= out@.len(),
            out@ == all,
            all.len() < i32::MAX,
            administration_parser_shape(parser),
            rows_read(parser, rows@, all),
            forall|q: i32| #[trigger] data@.contains_key(q) <==> 1 <= q <= k,
            forall|q: i32| #[trigger]
                data@.contains_key(q) ==> administration_from(all[q - 1].1@, q, data@[q]),
        decreases out@.len() - k,
    {
        proof {
            assert(row_readable(parser, rows@[k as int]));
            lemma_values_kinds(parser, rows@[k as int], all[k as int], 4);
        }
        let v = &out[k].1;
        let id = (k + 1) as i32;
        let x = ExchangeTimeAdministration::new(
            id,
            opt_int_of(&v[0]),
            text_of(&v[1]),
            text_of(&v[2]),
            int16_of(&v[3]),
        );
        fx_map_insert(&mut data, id, x);
        k = k + 1;
    }
    let res = ResourceStorage::new(data);
    assert(administrations_loaded(parser, rows@, Ok(res)));
    Ok(res)
}

/// The parser knows the one kind of UMSTEIGZ row.
pub open spec fn journey_exchange_parser_shape(p: RowParser) -> bool {
    let d = p.definitions();
    let c = d[0].columns();
    &&& d.len() == 1
    &&& c.len() == 8
    &&& column_is(c[0], 1, 7, ExpectedType::Integer32)
    &&& column_is(c[1], 9, 14, ExpectedType::Integer32)
    &&& column_is(c[2], 16, 21, ExpectedType::String)
    &&& column_is(c[3], 23, 28, ExpectedType::Integer32)
    &&& column_is(c[4], 30, 35, ExpectedType::String)
    &&& column_is(c[5], 37, 39, ExpectedType::Integer16)
    &&& column_is(c[6], 40, 40, ExpectedType::String)
    &&& column_is(c[7], 42, 47, ExpectedType::OptionInteger32)
}

/// The parser of UMSTEIGZ rows.
pub fn journey_exchange_row_parser() -> (res: RowParser)
    ensures
        journey_exchange_parser_shape(res),
{
    RowParser::new(
        vec![
            RowDefinition::from_columns(
                vec![
                    ColumnDefinition::new(1, 7, ExpectedType::Integer32),
                    ColumnDefinition::new(9, 14, ExpectedType::Integer32),
                    ColumnDefinition::new(16, 21, ExpectedType::String),
                    ColumnDefinition::new(23, 28, ExpectedType::Integer32),
                    ColumnDefinition::new(30, 35, ExpectedType::String),
                    ColumnDefinition::new(37, 39, ExpectedType::Integer16),
                    ColumnDefinition::new(40, 40, ExpectedType::String),
                    ColumnDefinition::new(42, 47, ExpectedType::OptionInteger32),
                ],
            ),
        ],
    )
}

/// The exchange time that an UMSTEIGZ row's values give, with id `id`.
pub open spec fn journey_exchange_from(v: Seq<ParsedValue>, id: i32, x: ExchangeTimeJourney) -> bool {
    &&& x.spec_id() == id
    &&& x.spec_stop_id() == int_at(v, 0)
    &&& x.spec_journey_legacy_id_1() == int_at(v, 1)
    &&& x.administration_1_text() == text_at(v, 2)
    &&& x.spec_journey_legacy_id_2() == int_at(v, 3)
    &&& x.administration_2_text() == text_at(v, 4)
    &&& x.spec_duration() == int16_at(v, 5)
    &&& x.spec_is_guaranteed() == (text_at(v, 6) == "!"@)
    &&& x.spec_bit_field_id() == opt_at(v, 7)
}

/// What loading UMSTEIGZ with the parser gives: a syntax error with the
/// first row that it cannot read, else the exchange time of each row under
/// the ids 1, 2, ...
pub open spec fn journey_exchanges_loaded(
    p: RowParser,
    rows: Seq<String>,
    res: PResult<ResourceStorage<ExchangeTimeJourney>>,
) -> bool {
    if forall|i: int| 0 <= i < rows.len() ==> row_readable(p, #[trigger] rows[i]) {
        res matches Ok(storage) && exists|out: Seq<(i32, Vec<ParsedValue>)>|
            #[trigger] rows_read(p, rows, out) && (forall|k: i32| #[trigger]
                storage@.contains_key(k) <==> 1 <= k <= out.len()) && (forall|k: i32| #[trigger]
                storage@.contains_key(k) ==> journey_exchange_from(out[k - 1].1@, k, storage@[k]))
    } else {
        first_unreadable(p, rows, res)
    }
}

/// Loads UMSTEIGZ from its rows.
pub fn parse_journey_exchange_rows(rows: &Vec<String>) -> (res: PResult<ResourceStorage<ExchangeTimeJourney>>)
    requires
        rows@.len() < i32::MAX,
    ensures
        exists|p: RowParser| journey_exchange_parser_shape(p) && journey_exchanges_loaded(p, rows@, res),
{
    let parser = journey_exchange_row_parser();
    let out = match read_rows(&parser, rows) {
        Err(e) => {
            assert(journey_exchanges_loaded(parser, rows@, Err(e)));
            return Err(e);
        },
        Ok(out) => out,
    };
    let ghost all = out@;
    assert forall|i: int| 0 <= i < rows@.len() implies row_readable(parser, #[trigger] rows@[i]) by {}
    let mut data: FxHashMap<i32, ExchangeTimeJourney> = fx_map_new();
    let mut k: usize = 0;
    while k < out.len()
        invariant
            0 <= k <= out@.len(),
            out@ == all,
            all.len() < i32::MAX,
            journey_exchange_parser_shape(parser),
            rows_read(parser, rows@, all),
            forall|q: i32| #[trigger] data@.contains_key(q) <==> 1 <= q <= k,
            forall|q: i32| #[trigger]
                data@.contains_key(q) ==> journey_exchange_from(all[q - 1].1@, q, data@[q]),
        decreases out@.len() - k,
    {
        proof {
            assert(row_readable(parser, rows@[k as int]));
            lemma_values_kinds(parser, rows@[k as int], all[k as int], 8);
        }
        let v = &out[k].1;
        let id = (k + 1) as i32;
        let guarantee = text_of(&v[6]);
        let x = ExchangeTimeJourney::new(
            id,
            int_of(&v[0]),
            (int_of(&v[1]), text_of(&v[2])),
            (int_of(&v[3]), text_of(&v[4])),
            int16_of(&v[5]),
            str_equals(guarantee.as_str(), "!"),
            opt_int_of(&v[7]),
        );
        fx_map_insert(&mut data, id, x);
        k = k + 1;
    }
    let res = ResourceStorage::new(data);
    assert(journey_exchanges_loaded(parser, rows@, Ok(res)));
    Ok(res)
}

} // verus!
