//! The RICHTUNG file: the direction texts. A row holds the designation
//! (bytes 1-7, such as `R000011`, whose characters after the first are the
//! id) and the text (from byte 9 on).
use crate::attribute_parser::column_is;
use crate::error::{PResult, ParsingError};
use crate::fxmap::{designation_map_contents, designation_map_insert, designation_map_new, fx_map_insert, fx_map_new};
use crate::journey_parser::{text_at, text_of};
use crate::models::Direction;
use crate::parsing::{
    read_rows,
    row_readable,
    row_values,
    rows_read,
    values_view,
    ColumnDefinition,
    ExpectedType,
    ParsedValue,
    RowDefinition,
    RowParser,
};
use crate::storage::ResourceStorage;
use crate::text::{integer_in_range, parse_integer, str_byte_range};
use rustc_hash::FxHashMap;
use vstd::prelude::*;
use vstd::string::StringSliceAdditionalSpecFns;
use vstd::utf8::{encode_utf8, is_char_boundary};

verus! {

/// The bytes from `k` on can be cut out: `k` and the end are character
/// boundaries.
pub open spec fn cut_at(e: Seq<u8>, k: int) -> bool {
    k <= e.len() && is_char_boundary(e, k) && is_char_boundary(e, e.len() as int)
}

/// The bytes after the first character (the first character boundary after
/// byte 0 ends it); `None` for no character.
pub open spec fn after_first_char(e: Seq<u8>) -> Option<Seq<u8>> {
    if e.len() == 0 {
        None
    } else if cut_at(e, 1) {
        Some(e.subrange(1, e.len() as int))
    } else if cut_at(e, 2) {
        Some(e.subrange(2, e.len() as int))
    } else if cut_at(e, 3) {
        Some(e.subrange(3, e.len() as int))
    } else if cut_at(e, 4) {
        Some(e.subrange(4, e.len() as int))
    } else {
        None
    }
}

/// The id that a designation gives: the 32-bit number written after its
/// first character.
pub open spec fn direction_id_of(designation: Seq<char>) -> Option<int> {
    match after_first_char(encode_utf8(designation)) {
        Some(rest) => integer_in_range(rest, i32::MIN as int, i32::MAX as int),
        None => None,
    }
}

/// The id of a designation (see `direction_id_of`).
fn designation_id(designation: &str) -> (res: Option<i32>)
    ensures
        match res {
            Some(v) => direction_id_of(designation@) == Some(v as int),
            None => direction_id_of(designation@) is None,
        },
{
    let n = designation.as_bytes().len();
    if n == 0 {
        return None;
    }
    let mut k: usize = 1;
    while k <= 4
        invariant
            1 <= k <= 5,
            n == designation.spec_bytes().len(),
            n > 0,
            forall|q: int| 1 <= q < k ==> !cut_at(designation.spec_bytes(), q),
        decreases 5 - k,
    {
        if k <= n {
            if let Some(rest) = str_byte_range(designation, k, n) {
                return match parse_integer(rest, -2147483648, 2147483647) {
                    Some(v) => Some(v as i32),
                    None => None,
                };
            }
        }
        k = k + 1;
    }
    None
}

/// The parser knows the one kind of RICHTUNG row: designation (bytes 1-7)
/// and text (from byte 9 on).
pub open spec fn direction_parser_shape(p: RowParser) -> bool {
    let d = p.definitions();
    let c = d[0].columns();
    &&& d.len() == 1
    &&& c.len() == 2
    &&& column_is(c[0], 1, 7, ExpectedType::String)
    &&& column_is(c[1], 9, -1, ExpectedType::String)
}

/// The parser of RICHTUNG rows.
pub fn direction_row_parser() -> (res: RowParser)
    ensures
        direction_parser_shape(res),
{
    RowParser::new(
        vec![
            RowDefinition::from_columns(
                vec![
                    ColumnDefinition::new(1, 7, ExpectedType::String),
                    ColumnDefinition::new(9, -1, ExpectedType::String),
                ],
            ),
        ],
    )
}

/// The designation of the `i`-th row read.
pub open spec fn designation_at(out: Seq<(i32, Vec<ParsedValue>)>, i: int) -> Seq<char> {
    text_at(out[i].1@, 0)
}

/// The id of the `i`-th row read.
pub open spec fn direction_row_id(out: Seq<(i32, Vec<ParsedValue>)>, i: int) -> int {
    direction_id_of(designation_at(out, i))->0
}

/// Row `i` is the last of the first `n` rows read with id `q`.
pub open spec fn last_direction_with_id(out: Seq<(i32, Vec<ParsedValue>)>, n: int, q: i32, i: int) -> bool {
    &&& 0 <= i < n
    &&& direction_row_id(out, i) == q
    &&& forall|j: int| i < j < n ==> direction_row_id(out, j) != q
}

/// The first `n` rows read give the storage and the designations: every
/// designation holds an id; the storage holds, for each id, the direction
/// of the last row with that id; each designation names the id of the last
/// row that has it.
pub open spec fn directions_built(
    out: Seq<(i32, Vec<ParsedValue>)>,
    n: int,
    view: Map<i32, Direction>,
    pk: Map<Seq<char>, i32>,
) -> bool {
    &&& forall|i: int| 0 <= i < n ==> direction_id_of(#[trigger] designation_at(out, i)) is Some
    &&& forall|q: i32| #[trigger]
        view.contains_key(q) <==> exists|i: int| 0 <= i < n && direction_row_id(out, i) == q
    &&& forall|q: i32| #[trigger]
        view.contains_key(q) ==> exists|i: int|
            last_direction_with_id(out, n, q, i) && view[q].spec_id() == q && view[q].name_text()
                == text_at(out[i].1@, 1)
    &&& forall|d: Seq<char>| #[trigger]
        pk.contains_key(d) <==> exists|i: int| 0 <= i < n && designation_at(out, i) == d
    &&& forall|d: Seq<char>| #[trigger] pk.contains_key(d) ==> direction_id_of(d) == Some(pk[d] as int)
}

/// What loading RICHTUNG with the parser gives: a syntax error with the first
/// row that it cannot read; else the directions and designations (see
/// `directions_built`), or an integer error with the designation of the
/// first row whose id cannot be read.
pub open spec fn directions_loaded(
    p: RowParser,
    rows: Seq<String>,
    res: PResult<(ResourceStorage<Direction>, FxHashMap<String, i32>)>,
) -> bool {
    if forall|i: int| 0 <= i < rows.len() ==> row_readable(p, #[trigger] rows[i]) {
        exists|out: Seq<(i32, Vec<ParsedValue>)>|
            #[trigger] rows_read(p, rows, out) && match res {
                Ok((storage, pk)) => directions_built(
                    out,
                    out.len() as int,
                    storage@,
                    designation_map_contents(pk),
                ),
                Err(e) => exists|i: int|
                    0 <= i < out.len() && direction_id_of(designation_at(out, i)) is None && (forall|
                        j: int,
                    |
                        0 <= j < i ==> direction_id_of(#[trigger] designation_at(out, j)) is Some)
                        && (e matches ParsingError::ParseInt(s) && s@ == designation_at(out, i)),
            }
    } else {
        exists|i: int|
            0 <= i < rows.len() && !row_readable(p, rows[i]) && (forall|j: int|
                0 <= j < i ==> row_readable(p, #[trigger] rows[j])) && res == Err::<
                (ResourceStorage<Direction>, FxHashMap<String, i32>),
                ParsingError,
            >(ParsingError::Syntax(rows[i]))
    }
}

proof fn lemma_direction_row(p: RowParser, row: String, x: (i32, Vec<ParsedValue>))
    requires
        direction_parser_shape(p),
        row_readable(p, row),
        row_values(p, row, x),
    ensures
        x.1@.len() == 2,
        x.1@[0]@ is String,
        x.1@[1]@ is String,
{
    reveal(row_values);
    let v = x.1@;
    assert(values_view(v).len() == 2);
    assert(v[0]@ == values_view(v)[0]);
    assert(v[1]@ == values_view(v)[1]);
}

/// Loads RICHTUNG from its rows: the directions under their ids and the id
/// that each designation names.
#[verifier::rlimit(50)]
pub fn parse_direction_rows(rows: &Vec<String>) -> (res: PResult<
    (ResourceStorage<Direction>, FxHashMap<String, i32>),
>)
    ensures
        exists|p: RowParser| direction_parser_shape(p) && directions_loaded(p, rows@, res),
{
    let parser = direction_row_parser();
    let out = match read_rows(&parser, rows) {
        Err(e) => {
            assert(directions_loaded(parser, rows@, Err(e)));
            return Err(e);
        },
        Ok(out) => out,
    };
    let ghost all = out@;
    assert forall|i: int| 0 <= i < rows@.len() implies row_readable(parser, #[trigger] rows@[i]) by {}
    let mut data: FxHashMap<i32, Direction> = fx_map_new();
    let mut pk = designation_map_new();
    let mut k: usize = 0;
    while k < out.len()
        invariant
            0 <= k <= out@.len(),
            out@ == all,
            direction_parser_shape(parser),
            rows_read(parser, rows@, all),
            directions_built(all, k as int, data@, designation_map_contents(pk)),
        decreases out@.len() - k,
    {
        proof {
            assert(row_readable(parser, rows@[k as int]));
            lemma_direction_row(parser, rows@[k as int], all[k as int]);
        }
        let designation = text_of(&out[k].1[0]);
        let name = text_of(&out[k].1[1]);
        let id = match designation_id(designation.as_str()) {
            None => {
                assert(designation_at(all, k as int) == designation@);
                let res = Err(ParsingError::ParseInt(designation));
                assert(rows_read(parser, rows@, all));
                assert(directions_loaded(parser, rows@, res));
                return res;
            },
            Some(id) => id,
        };
        let ghost before = data@;
        let ghost pk_before = designation_map_contents(pk);
        fx_map_insert(&mut data, id, Direction::new(id, name));
        designation_map_insert(&mut pk, designation, id);
        proof {
            let n = k + 1;
            assert(direction_row_id(all, k as int) == id);
            assert forall|q: i32| #[trigger]
                data@.contains_key(q) implies exists|i: int|
                last_direction_with_id(all, n, q, i) && data@[q].spec_id() == q
                    && data@[q].name_text() == text_at(all[i].1@, 1) by {
                if q == id {
                    assert(last_direction_with_id(all, n, q, k as int));
                } else {
                    let i = choose|i: int|
                        last_direction_with_id(all, k as int, q, i) && before[q].spec_id() == q
                            && before[q].name_text() == text_at(all[i].1@, 1);
                    assert(last_direction_with_id(all, n, q, i));
                }
            }
            assert forall|q: i32|
                (exists|i: int| 0 <= i < n && direction_row_id(all, i) == q) implies #[trigger]
                data@.contains_key(q) by {
                if q != id {
                    let i = choose|i: int| 0 <= i < n && direction_row_id(all, i) == q;
                    assert(i < k);
                }
            }
            assert forall|d: Seq<char>|
                (exists|i: int| 0 <= i < n && designation_at(all, i) == d) implies #[trigger]
                designation_map_contents(pk).contains_key(d) by {
                if d != designation@ {
                    let i = choose|i: int| 0 <= i < n && designation_at(all, i) == d;
                    assert(i < k);
                }
            }
        }
        k = k + 1;
    }
    let res = (ResourceStorage::new(data), pk);
    assert(directions_loaded(parser, rows@, Ok(res)));
    Ok(res)
}

} // verus!
