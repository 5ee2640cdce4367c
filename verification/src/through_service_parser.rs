//! The DURCHBI file: the through services, where a journey continues as
//! another. A row holds the first journey (bytes 1-6) and its
//! administration (8-13), the stop where it ends (15-21), the second
//! journey (23-28) and its administration (30-35), the bit field (37-42)
//! and the stop where the second journey starts (44-50). Each row makes one
//! through service, with the ids 1, 2, ... in the order of the rows.
use crate::attribute_parser::column_is;
use crate::error::{PResult, ParsingError};
use crate::exchange_time_parser::first_unreadable;
use crate::fxmap::{fx_map_insert, fx_map_new};
use crate::journey_parser::{int_at, int_of, text_at, text_of};
use crate::models::ThroughService;
use crate::parsing::{
    read_rows,
    row_readable,
    row_values,
    rows_read,
    values_view,
    ColumnDefinition,
    ExpectedType,
    ParsedValue,
    RowDefinition,
    RowParser,
};
use crate::storage::ResourceStorage;
use rustc_hash::FxHashMap;
use vstd::prelude::*;

verus! {

/// The parser knows the one kind of DURCHBI row.
pub open spec fn through_service_parser_shape(p: RowParser) -> bool {
    let d = p.definitions();
    let c = d[0].columns();
    &&& d.len() == 1
    &&& c.len() == 7
    &&& column_is(c[0], 1, 6, ExpectedType::Integer32)
    &&& column_is(c[1], 8, 13, ExpectedType::String)
    &&& column_is(c[2], 15, 21, ExpectedType::Integer32)
    &&& column_is(c[3], 23, 28, ExpectedType::Integer32)
    &&& column_is(c[4], 30, 35, ExpectedType::String)
    &&& column_is(c[5], 37, 42, ExpectedType::Integer32)
    &&& column_is(c[6], 44, 50, ExpectedType::Integer32)
}

/// The parser of DURCHBI rows.
pub fn through_service_row_parser() -> (res: RowParser)
    ensures
        through_service_parser_shape(res),
{
    RowParser::new(
        vec![
            RowDefinition::from_columns(
                vec![
                    ColumnDefinition::new(1, 6, ExpectedType::Integer32),
                    ColumnDefinition::new(8, 13, ExpectedType::String),
                    ColumnDefinition::new(15, 21, ExpectedType::Integer32),
                    ColumnDefinition::new(23, 28, ExpectedType::Integer32),
                    ColumnDefinition::new(30, 35, ExpectedType::String),
                    ColumnDefinition::new(37, 42, ExpectedType::Integer32),
                    ColumnDefinition::new(44, 50, ExpectedType::Integer32),
                ],
            ),
        ],
    )
}

/// The through service that a DURCHBI row's values give, with id `id`.
pub open spec fn through_service_from(v: Seq<ParsedValue>, id: i32, x: ThroughService) -> bool {
    &&& x.spec_id() == id
    &&& x.spec_journey_1_id() == (int_at(v, 0), text_at(v, 1))
    &&& x.spec_journey_1_stop_id() == int_at(v, 2)
    &&& x.spec_journey_2_id() == (int_at(v, 3), text_at(v, 4))
    &&& x.spec_bit_field_id() == int_at(v, 5)
    &&& x.spec_journey_2_stop_id() == int_at(v, 6)
}

/// What loading DURCHBI with the parser gives: a syntax error with the first
/// row that it cannot read, else the through service of each row under the
/// ids 1, 2, ...
pub open spec fn through_services_loaded(
    p: RowParser,
    rows: Seq<String>,
    res: PResult<ResourceStorage<ThroughService>>,
) -> bool {
    if forall|i: int| 0 <= i < rows.len() ==> row_readable(p, #[trigger] rows[i]) {
        res matches Ok(storage) && exists|out: Seq<(i32, Vec<ParsedValue>)>|
            #[trigger] rows_read(p, rows, out) && (forall|k: i32| #[trigger]
                storage@.contains_key(k) <==> 1 <= k <= out.len()) && (forall|k: i32| #[trigger]
                storage@.contains_key(k) ==> through_service_from(out[k - 1].1@, k, storage@[k]))
    } else {
        first_unreadable(p, rows, res)
    }
}

/// Loads DURCHBI from its rows.
pub fn parse_through_service_rows(rows: &Vec<String>) -> (res: PResult<ResourceStorage<ThroughService>>)
    requires
        rows@.len() < i32::MAX,
    ensures
        exists|p: RowParser| through_service_parser_shape(p) && through_services_loaded(p, rows@, res),
{
    let parser = through_service_row_parser();
    let out = match read_rows(&parser, rows) {
        Err(e) => {
            assert(through_services_loaded(parser, rows@, Err(e)));
            return Err(e);
        },
        Ok(out) => out,
    };
    let ghost all = out@;
    assert forall|i: int| 0 <= i < rows@.len() implies row_readable(parser, #[trigger] rows@[i]) by {}
    let mut data: FxHashMap<i32, ThroughService> = fx_map_new();
    let mut k: usize = 0;
    while k < out.len()
        invariant
            0 <= k <= out@.len(),
            out@ == all,
            all.len() < i32::MAX,
            through_service_parser_shape(parser),
            rows_read(parser, rows@, all),
            forall|q: i32| #[trigger] data@.contains_key(q) <==> 1 <= q <= k,
            forall|q: i32| #[trigger]
                data@.contains_key(q) ==> through_service_from(all[q - 1].1@, q, data@[q]),
        decreases out@.len() - k,
    {
        proof {
            assert(row_readable(parser, rows@[k as int]));
            crate::exchange_time_parser::lemma_values_kinds(parser, rows@[k as int], all[k as int], 7);
        }
        let v = &out[k].1;
        let id = (k + 1) as i32;
        let x = ThroughService::new(
            id,
            (int_of(&v[0]), text_of(&v[1])),
            int_of(&v[2]),
            (int_of(&v[3]), text_of(&v[4])),
            int_of(&v[6]),
            int_of(&v[5]),
        );
        fx_map_insert(&mut data, id, x);
        k = k + 1;
    }
    let res = ResourceStorage::new(data);
    assert(through_services_loaded(parser, rows@, Ok(res)));
    Ok(res)
}

} // verus!
