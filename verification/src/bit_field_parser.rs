//! The BITFELD file: the bit fields, which tell on which days of the
//! timetable a journey runs. A row holds the id (bytes 1-6, a number) and
//! the days as a hexadecimal number (bytes 8-103), four days per digit.
use crate::error::{PResult, ParsingError};
use crate::fields::{all_hex, convert_hex_number_to_bits, first_non_hex, hex_bits};
use crate::fxmap::{fx_map_insert, fx_map_new};
use crate::journey_parser::{column_is, int_at, int_of, text_at, text_of};
use crate::models::BitField;
use crate::parsing::{
    read_rows,
    row_readable,
    row_values,
    rows_read,
    values_view,
    ColumnDefinition,
    ExpectedType,
    ParsedValue,
    RowDefinition,
    RowParser,
};
use crate::storage::ResourceStorage;
use rustc_hash::FxHashMap;
use vstd::prelude::*;

verus! {

/// The parser knows the one kind of BITFELD row: id (bytes 1-6, a 32-bit
/// number) and days (bytes 8-103, text).
pub open spec fn bit_field_parser_shape(p: RowParser) -> bool {
    let d = p.definitions();
    let c = d[0].columns();
    &&& d.len() == 1
    &&& c.len() == 2
    &&& column_is(c[0], 1, 6, ExpectedType::Integer32)
    &&& column_is(c[1], 8, 103, ExpectedType::String)
}

/// The parser of BITFELD rows.
pub fn bit_field_row_parser() -> (res: RowParser)
    ensures
        bit_field_parser_shape(res),
{
    RowParser::new(
        vec![
            RowDefinition::from_columns(
                vec![
                    ColumnDefinition::new(1, 6, ExpectedType::Integer32),
                    ColumnDefinition::new(8, 103, ExpectedType::String),
                ],
            ),
        ],
    )
}

/// The id of the `i`-th row read.
pub open spec fn row_id(out: Seq<(i32, Vec<ParsedValue>)>, i: int) -> i32 {
    int_at(out[i].1@, 0)
}

/// Row `i` is the last of the first `n` rows read with id `q`.
pub open spec fn last_with_id(out: Seq<(i32, Vec<ParsedValue>)>, n: int, q: i32, i: int) -> bool {
    &&& 0 <= i < n
    &&& row_id(out, i) == q
    &&& forall|j: int| i < j < n ==> row_id(out, j) != q
}

/// The bit field that row `i` gives.
pub open spec fn bit_field_from(out: Seq<(i32, Vec<ParsedValue>)>, i: int, b: BitField) -> bool {
    b.spec_id() == row_id(out, i) && b.spec_bits() == hex_bits(text_at(out[i].1@, 1))
}

/// The storage holds, for each id of the first `n` rows read, the bit field
/// of the last row with that id; each of these rows holds only hexadecimal
/// digits.
pub open spec fn bit_fields_built(out: Seq<(i32, Vec<ParsedValue>)>, n: int, view: Map<i32, BitField>) -> bool {
    &&& forall|i: int| 0 <= i < n ==> all_hex(text_at(#[trigger] out[i].1@, 1))
    &&& forall|q: i32| #[trigger]
        view.contains_key(q) <==> exists|i: int| 0 <= i < n && row_id(out, i) == q
    &&& forall|q: i32| #[trigger]
        view.contains_key(q) ==> exists|i: int|
            last_with_id(out, n, q, i) && bit_field_from(out, i, view[q])
}

/// What loading BITFELD with the parser gives: a syntax error with the first
/// row that it cannot read; else the bit fields (a later row replacing an
/// earlier one with the same id), or an invalid digit error for the first
/// character that is not a hexadecimal digit in the first row that has one.
pub open spec fn bit_fields_loaded(p: RowParser, rows: Seq<String>, res: PResult<ResourceStorage<BitField>>) -> bool {
    if forall|i: int| 0 <= i < rows.len() ==> row_readable(p, #[trigger] rows[i]) {
        exists|out: Seq<(i32, Vec<ParsedValue>)>|
            #[trigger] rows_read(p, rows, out) && match res {
                Ok(storage) => bit_fields_built(out, out.len() as int, storage@),
                Err(e) => exists|i: int|
                    0 <= i < out.len() && !all_hex(text_at(out[i].1@, 1)) && (forall|j: int|
                        0 <= j < i ==> all_hex(text_at(#[trigger] out[j].1@, 1))) && e
                        == ParsingError::InvalidHexDigit(
                        text_at(out[i].1@, 1)[first_non_hex(text_at(out[i].1@, 1))],
                    ),
            }
    } else {
        exists|i: int|
            0 <= i < rows.len() && !row_readable(p, rows[i]) && (forall|j: int|
                0 <= j < i ==> row_readable(p, #[trigger] rows[j])) && res
                == Err::<ResourceStorage<BitField>, ParsingError>(ParsingError::Syntax(rows[i]))
    }
}

proof fn lemma_bit_field_row(p: RowParser, row: String, x: (i32, Vec<ParsedValue>))
    requires
        bit_field_parser_shape(p),
        row_readable(p, row),
        row_values(p, row, x),
    ensures
        x.1@.len() == 2,
        x.1@[0]@ is Integer32,
        x.1@[1]@ is String,
{
    reveal(row_values);
    let v = x.1@;
    assert(values_view(v).len() == 2);
    assert(v[0]@ == values_view(v)[0]);
    assert(v[1]@ == values_view(v)[1]);
}

/// Loads BITFELD from its rows.
pub fn parse_bit_field_rows(rows: &Vec<String>) -> (res: PResult<ResourceStorage<BitField>>)
    ensures
        exists|p: RowParser| bit_field_parser_shape(p) && bit_fields_loaded(p, rows@, res),
{
    let parser = bit_field_row_parser();
    let out = match read_rows(&parser, rows) {
        Err(e) => {
            assert(bit_fields_loaded(parser, rows@, Err(e)));
            return Err(e);
        },
        Ok(out) => out,
    };
    let ghost all = out@;
    assert forall|i: int| 0 <= i < rows@.len() implies row_readable(parser, #[trigger] rows@[i]) by {}
    let mut data: FxHashMap<i32, BitField> = fx_map_new();
    let mut k: usize = 0;
    while k < out.len()
        invariant
            0 <= k <= out@.len(),
            out@ == all,
            bit_field_parser_shape(parser),
            rows_read(parser, rows@, all),
            bit_fields_built(all, k as int, data@),
        decreases out@.len() - k,
    {
        proof {
            assert(row_readable(parser, rows@[k as int]));
            lemma_bit_field_row(parser, rows@[k as int], all[k as int]);
        }
        let id = int_of(&out[k].1[0]);
        let hex = text_of(&out[k].1[1]);
        match convert_hex_number_to_bits(hex) {
            Err(e) => {
                assert(bit_fields_loaded(parser, rows@, Err(e)));
                return Err(e);
            },
            Ok(bits) => {
                let ghost before = data@;
                fx_map_insert(&mut data, id, BitField::new(id, bits));
                proof {
                    let n = k + 1;
                    assert(row_id(all, k as int) == id);
                    assert forall|q: i32| #[trigger]
                        data@.contains_key(q) implies exists|i: int|
                        last_with_id(all, n, q, i) && bit_field_from(all, i, data@[q]) by {
                        if q == id {
                            assert(last_with_id(all, n, q, k as int));
                        } else {
                            let i = choose|i: int|
                                last_with_id(all, k as int, q, i) && bit_field_from(all, i, before[q]);
                            assert(last_with_id(all, n, q, i));
                        }
                    }
                    assert forall|q: i32|
                        (exists|i: int| 0 <= i < n && row_id(all, i) == q) implies #[trigger]
                        data@.contains_key(q) by {
                        if q != id {
                            let i = choose|i: int| 0 <= i < n && row_id(all, i) == q;
                            assert(i < k);
                        }
                    }
                }
            },
        }
        k = k + 1;
    }
    let res = ResourceStorage::new(data);
    assert(bit_fields_loaded(parser, rows@, Ok(res)));
    Ok(res)
}

} // verus!
