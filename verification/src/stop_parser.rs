//! The BAHNHOF file: the stops. A row holds the stop's id (bytes 1-7) and
//! its designations (from byte 13 on), written as inline values
//! `value<key>` (see `inline_map`): 1 the name, 2 the long name, 3 the
//! abbreviation, 4 the synonyms. A later row with the same id replaces an
//! earlier one.
use crate::attribute_parser::column_is;
use crate::error::{PResult, ParsingError};
use crate::fields::{designations_of, parse_designations};
use crate::fxmap::{fx_map_insert, fx_map_new};
use crate::journey_parser::{int_at, int_of, text_at, text_of};
use crate::models::{Stop, StopView};
use crate::parser::{entry_key, entry_parts, inline_map, inline_readable, remove_char, split_chars, split_on, texts};
use crate::parsing::{
    read_rows,
    row_readable,
    row_values,
    rows_read,
    values_view,
    ColumnDefinition,
    ExpectedType,
    ParsedValue,
    RowDefinition,
    RowParser,
};
use crate::storage::ResourceStorage;
use crate::text::parse_i32;
use rustc_hash::FxHashMap;
use vstd::prelude::*;
use vstd::string::StrSliceExecFns;

verus! {

/// The parser knows the one kind of BAHNHOF row: id (bytes 1-7) and
/// designations (from byte 13 on).
pub open spec fn stop_parser_shape(p: RowParser) -> bool {
    let d = p.definitions();
    let c = d[0].columns();
    &&& d.len() == 1
    &&& c.len() == 2
    &&& column_is(c[0], 1, 7, ExpectedType::Integer32)
    &&& column_is(c[1], 13, -1, ExpectedType::String)
}

/// The parser of BAHNHOF rows.
pub fn stop_row_parser() -> (res: RowParser)
    ensures
        stop_parser_shape(res),
{
    RowParser::new(
        vec![
            RowDefinition::from_columns(
                vec![
                    ColumnDefinition::new(1, 7, ExpectedType::Integer32),
                    ColumnDefinition::new(13, -1, ExpectedType::String),
                ],
            ),
        ],
    )
}

/// The designations field can be read and gives a name.
pub open spec fn designations_readable(d: Seq<char>) -> bool {
    inline_readable(split_on(d, '>')) && inline_map(split_on(d, '>')).contains_key(1)
}

/// Whether the designations field can be read and gives a name.
fn designations_check(d: &str) -> (res: bool)
    ensures
        res == designations_readable(d@),
{
    let pieces = split_chars(d, '>');
    let ghost all = split_on(d@, '>');
    let mut i: usize = 0;
    while i < pieces.len()
        invariant
            0 <= i <= pieces@.len(),
            texts(pieces@) == all,
            all == split_on(d@, '>'),
            forall|q: int| 0 <= q < i && (#[trigger] all[q]).len() > 0 ==> entry_key(all[q]) is Some,
        decreases pieces@.len() - i,
    {
        assert(pieces@[i as int]@ == all[i as int]);
        if pieces[i].as_str().unicode_len() > 0 {
            let clean = remove_char(pieces[i].as_str(), '$');
            let parts = split_chars(clean.as_str(), '<');
            let ok = if parts.len() >= 2 {
                proof {
                    vstd::utf8::encode_utf8_decode_utf8(parts@[1]@);
                }
                assert(parts@[1]@ == entry_parts(all[i as int])[1]);
                parse_i32(parts[1].as_str()).is_some()
            } else {
                false
            };
            if !ok {
                assert(all[i as int].len() > 0 && entry_key(all[i as int]) is None);
                assert(i < all.len());
                assert(!inline_readable(all));
                return false;
            }
        }
        i = i + 1;
    }
    assert(inline_readable(all));
    let m = crate::parser::parse_inline_values(d);
    m.contains_key(&1)
}

/// The stop that a row with id `id` and designations `d` gives.
pub open spec fn stop_of(id: i32, d: Seq<char>) -> StopView {
    let n = designations_of(inline_map(split_on(d, '>')));
    StopView {
        id,
        name: n.0,
        long_name: n.1,
        abbreviation: n.2,
        synonyms: n.3,
        exchange_priority: 8,
        exchange_flag: 0,
        exchange_time: None,
        restrictions: 0,
        sloid: Seq::empty(),
        boarding_areas: Seq::empty(),
    }
}

/// The id of the `i`-th row read.
pub open spec fn stop_row_id(out: Seq<(i32, Vec<ParsedValue>)>, i: int) -> i32 {
    int_at(out[i].1@, 0)
}

/// Row `i` is the last of the first `n` rows read with id `q`.
pub open spec fn last_stop_row(out: Seq<(i32, Vec<ParsedValue>)>, n: int, q: i32, i: int) -> bool {
    &&& 0 <= i < n
    &&& stop_row_id(out, i) == q
    &&& forall|j: int| i < j < n ==> stop_row_id(out, j) != q
}

/// The storage holds, for each id of the first `n` rows read, the stop of
/// the last row with that id; each of these rows has readable designations.
pub open spec fn stops_built(out: Seq<(i32, Vec<ParsedValue>)>, n: int, view: Map<i32, Stop>) -> bool {
    &&& forall|i: int| 0 <= i < n ==> designations_readable(text_at(#[trigger] out[i].1@, 1))
    &&& forall|q: i32| #[trigger]
        view.contains_key(q) <==> exists|i: int| 0 <= i < n && stop_row_id(out, i) == q
    &&& forall|q: i32| #[trigger]
        view.contains_key(q) ==> exists|i: int|
            last_stop_row(out, n, q, i) && view[q]@ == stop_of(q, text_at(out[i].1@, 1))
}

/// What loading BAHNHOF with the parser gives: a syntax error with the first
/// row that it cannot read, or with the designations of the first row whose
/// designations cannot be read or give no name; else the stops.
pub open spec fn stops_loaded(p: RowParser, rows: Seq<String>, res: PResult<ResourceStorage<Stop>>) -> bool {
    if forall|i: int| 0 <= i < rows.len() ==> row_readable(p, #[trigger] rows[i]) {
        exists|out: Seq<(i32, Vec<ParsedValue>)>|
            #[trigger] rows_read(p, rows, out) && match res {
                Ok(storage) => stops_built(out, out.len() as int, storage@),
                Err(e) => exists|i: int|
                    0 <= i < out.len() && !designations_readable(text_at(out[i].1@, 1)) && (forall|
                        j: int,
                    | 0 <= j < i ==> designations_readable(text_at(#[trigger] out[j].1@, 1)))
                        && (e matches ParsingError::Syntax(s) && s@ == text_at(out[i].1@, 1)),
            }
    } else {
        exists|i: int|
            0 <= i < rows.len() && !row_readable(p, rows[i]) && (forall|j: int|
                0 <= j < i ==> row_readable(p, #[trigger] rows[j])) && res == Err::<
                ResourceStorage<Stop>,
                ParsingError,
            >(ParsingError::Syntax(rows[i]))
    }
}

proof fn lemma_stop_row(p: RowParser, row: String, x: (i32, Vec<ParsedValue>))
    requires
        stop_parser_shape(p),
        row_readable(p, row),
        row_values(p, row, x),
    ensures
        x.1@.len() == 2,
        x.1@[0]@ is Integer32,
        x.1@[1]@ is String,
{
    reveal(row_values);
    let v = x.1@;
    assert(values_view(v).len() == 2);
    assert(v[0]@ == values_view(v)[0]);
    assert(v[1]@ == values_view(v)[1]);
}

/// Loads BAHNHOF from its rows.
#[verifier::rlimit(50)]
pub fn parse_stop_rows(rows: &Vec<String>) -> (res: PResult<ResourceStorage<Stop>>)
    ensures
        exists|p: RowParser| stop_parser_shape(p) && stops_loaded(p, rows@, res),
{
    let parser = stop_row_parser();
    let out = match read_rows(&parser, rows) {
        Err(e) => {
            assert(stops_loaded(parser, rows@, Err(e)));
            return Err(e);
        },
        Ok(out) => out,
    };
    let ghost all = out@;
    assert forall|i: int| 0 <= i < rows@.len() implies row_readable(parser, #[trigger] rows@[i]) by {}
    let mut data: FxHashMap<i32, Stop> = fx_map_new();
    let mut k: usize = 0;
    while k < out.len()
        invariant
            0 <= k <= out@.len(),
            out@ == all,
            stop_parser_shape(parser),
            rows_read(parser, rows@, all),
            stops_built(all, k as int, data@),
        decreases out@.len() - k,
    {
        proof {
            assert(row_readable(parser, rows@[k as int]));
            lemma_stop_row(parser, rows@[k as int], all[k as int]);
        }
        let id = int_of(&out[k].1[0]);
        let designations = text_of(&out[k].1[1]);
        if !designations_check(designations.as_str()) {
            let res = Err(ParsingError::Syntax(designations));
            assert(stops_loaded(parser, rows@, res));
            return res;
        }
        let ghost d = designations@;
        let (name, long_name, abbreviation, synonyms) = parse_designations(designations);
        let stop = Stop::new(id, name, long_name, abbreviation, synonyms);
        assert(stop@ == stop_of(id, d));
        let ghost before = data@;
        fx_map_insert(&mut data, id, stop);
        proof {
            let n = k + 1;
            assert(stop_row_id(all, k as int) == id);
            assert forall|q: i32| #[trigger]
                data@.contains_key(q) implies exists|i: int|
                last_stop_row(all, n, q, i) && data@[q]@ == stop_of(q, text_at(all[i].1@, 1)) by {
                if q == id {
                    assert(last_stop_row(all, n, q, k as int));
                } else {
                    let i = choose|i: int|
                        last_stop_row(all, k as int, q, i) && before[q]@ == stop_of(
                            q,
                            text_at(all[i].1@, 1),
                        );
                    assert(last_stop_row(all, n, q, i));
                }
            }
            assert forall|q: i32|
                (exists|i: int| 0 <= i < n && stop_row_id(all, i) == q) implies #[trigger]
                data@.contains_key(q) by {
                if q != id {
                    let i = choose|i: int| 0 <= i < n && stop_row_id(all, i) == q;
                    assert(i < k);
                }
            }
        }
        k = k + 1;
    }
    let res = ResourceStorage::new(data);
    assert(stops_loaded(parser, rows@, Ok(res)));
    Ok(res)
}

} // verus!

verus! {

/// The stop id of the UMSTEIGB row that gives the default exchange times.
pub open spec fn default_row_stop() -> i32 {
    9999999
}

/// The parser knows the one kind of UMSTEIGB row: stop (bytes 1-7), the
/// exchange time for InterCity journeys (9-10) and for the others (12-13).
pub open spec fn stop_exchange_parser_shape(p: RowParser) -> bool {
    let d = p.definitions();
    let c = d[0].columns();
    &&& d.len() == 1
    &&& c.len() == 3
    &&& column_is(c[0], 1, 7, ExpectedType::Integer32)
    &&& column_is(c[1], 9, 10, ExpectedType::Integer16)
    &&& column_is(c[2], 12, 13, ExpectedType::Integer16)
}

/// The parser of UMSTEIGB rows.
pub fn stop_exchange_row_parser() -> (res: RowParser)
    ensures
        stop_exchange_parser_shape(res),
{
    RowParser::new(
        vec![
            RowDefinition::from_columns(
                vec![
                    ColumnDefinition::new(1, 7, ExpectedType::Integer32),
                    ColumnDefinition::new(9, 10, ExpectedType::Integer16),
                    ColumnDefinition::new(12, 13, ExpectedType::Integer16),
                ],
            ),
        ],
    )
}

/// The exchange times of the `i`-th row read.
pub open spec fn times_at(out: Seq<(i32, Vec<ParsedValue>)>, i: int) -> (i16, i16) {
    (crate::journey_parser::int16_at(out[i].1@, 1), crate::journey_parser::int16_at(out[i].1@, 2))
}

/// Among the first `n` rows read, the exchange times of the last one for
/// stop `q`, if any.
pub open spec fn last_times(out: Seq<(i32, Vec<ParsedValue>)>, n: int, q: i32) -> Option<(i16, i16)>
    decreases n,
{
    if n <= 0 {
        None
    } else if stop_row_id(out, n - 1) == q {
        Some(times_at(out, n - 1))
    } else {
        last_times(out, n - 1, q)
    }
}

/// The stops after the first `n` rows read: each stop that a row names (but
/// the default row) has the exchange times of the last such row.
pub open spec fn stops_with_times(
    before: Map<i32, Stop>,
    out: Seq<(i32, Vec<ParsedValue>)>,
    n: int,
    view: Map<i32, Stop>,
) -> bool {
    &&& view.dom() == before.dom()
    &&& forall|q: i32| #[trigger]
        view.contains_key(q) ==> view[q]@ == (if q != default_row_stop() && last_times(out, n, q) is Some {
            StopView { exchange_time: last_times(out, n, q), ..before[q]@ }
        } else {
            before[q]@
        })
}

/// Every row among the first `n` names the default row or a stop.
pub open spec fn rows_name_stops(before: Map<i32, Stop>, out: Seq<(i32, Vec<ParsedValue>)>, n: int) -> bool {
    forall|i: int|
        0 <= i < n ==> #[trigger] stop_row_id(out, i) == default_row_stop() || before.contains_key(
            stop_row_id(out, i),
        )
}

/// What applying UMSTEIGB to the stops gives: a syntax error with the first
/// row that the parser cannot read; an unknown id error with the first row
/// that names neither the default row nor a stop; an error where no row
/// gives the default; else the stops with their exchange times and the
/// default exchange times (of the last default row).
pub open spec fn stop_exchanges_loaded(
    p: RowParser,
    before: Map<i32, Stop>,
    rows: Seq<String>,
    res: PResult<(ResourceStorage<Stop>, (i16, i16))>,
) -> bool {
    if forall|i: int| 0 <= i < rows.len() ==> row_readable(p, #[trigger] rows[i]) {
        exists|out: Seq<(i32, Vec<ParsedValue>)>|
            #[trigger] rows_read(p, rows, out) && if rows_name_stops(before, out, out.len() as int) {
                match last_times(out, out.len() as int, default_row_stop()) {
                    None => res == Err::<(ResourceStorage<Stop>, (i16, i16)), ParsingError>(
                        ParsingError::MissingDefaultExchangeTime,
                    ),
                    Some(d) => res matches Ok((storage, default)) && default == d && stops_with_times(
                        before,
                        out,
                        out.len() as int,
                        storage@,
                    ),
                }
            } else {
                exists|i: int|
                    0 <= i < out.len() && !rows_name_stops(before, out, i + 1) && rows_name_stops(
                        before,
                        out,
                        i,
                    ) && res == Err::<(ResourceStorage<Stop>, (i16, i16)), ParsingError>(
                        ParsingError::UnknownId(rows[i]),
                    )
            }
    } else {
        exists|i: int|
            0 <= i < rows.len() && !row_readable(p, rows[i]) && (forall|j: int|
                0 <= j < i ==> row_readable(p, #[trigger] rows[j])) && res == Err::<
                (ResourceStorage<Stop>, (i16, i16)),
                ParsingError,
            >(ParsingError::Syntax(rows[i]))
    }
}

proof fn lemma_stop_exchange_row(p: RowParser, row: String, x: (i32, Vec<ParsedValue>))
    requires
        stop_exchange_parser_shape(p),
        row_readable(p, row),
        row_values(p, row, x),
    ensures
        x.1@.len() == 3,
        x.1@[0]@ is Integer32,
        x.1@[1]@ is Integer16,
        x.1@[2]@ is Integer16,
{
    reveal(row_values);
    let v = x.1@;
    assert(values_view(v).len() == 3);
    assert(v[0]@ == values_view(v)[0]);
    assert(v[1]@ == values_view(v)[1]);
    assert(v[2]@ == values_view(v)[2]);
}

/// Applies UMSTEIGB to the stops: the exchange times of each stop that a row
/// names, and the default exchange times (InterCity, others) of the row of
/// stop 9999999.
#[verifier::rlimit(50)]
pub fn apply_stop_exchange_rows(stops: ResourceStorage<Stop>, rows: &Vec<String>) -> (res: PResult<
    (ResourceStorage<Stop>, (i16, i16)),
>)
    ensures
        exists|p: RowParser|
            stop_exchange_parser_shape(p) && stop_exchanges_loaded(p, stops@, rows@, res),
{
    let ghost before = stops@;
    let parser = stop_exchange_row_parser();
    let out = match read_rows(&parser, rows) {
        Err(e) => {
            assert(stop_exchanges_loaded(parser, before, rows@, Err(e)));
            return Err(e);
        },
        Ok(out) => out,
    };
    let ghost all = out@;
    assert forall|i: int| 0 <= i < rows@.len() implies row_readable(parser, #[trigger] rows@[i]) by {}
    let mut data = stops.into_data();
    let mut default: Option<(i16, i16)> = None;
    let mut k: usize = 0;
    while k < out.len()
        invariant
            0 <= k <= out@.len(),
            out@ == all,
            out@.len() == rows@.len(),
            before == stops@,
            stop_exchange_parser_shape(parser),
            rows_read(parser, rows@, all),
            rows_name_stops(before, all, k as int),
            default == last_times(all, k as int, default_row_stop()),
            stops_with_times(before, all, k as int, data@),
        decreases out@.len() - k,
    {
        proof {
            assert(row_readable(parser, rows@[k as int]));
            lemma_stop_exchange_row(parser, rows@[k as int], all[k as int]);
        }
        let id = int_of(&out[k].1[0]);
        let times = (
            crate::journey_parser::int16_of(&out[k].1[1]),
            crate::journey_parser::int16_of(&out[k].1[2]),
        );
        assert(stop_row_id(all, k as int) == id);
        assert(times == times_at(all, k as int));
        if id == 9999999 {
            default = Some(times);
        } else {
            match crate::fxmap::fx_map_remove(&mut data, id) {
                None => {
                    let res = Err(ParsingError::UnknownId(rows[k].clone()));
                    assert(!rows_name_stops(before, all, k + 1));
                    assert(stop_exchanges_loaded(parser, before, rows@, res));
                    return res;
                },
                Some(mut stop) => {
                    stop.set_exchange_time(Some(times));
                    fx_map_insert(&mut data, id, stop);
                },
            }
        }
        proof {
            assert(rows_name_stops(before, all, k + 1));
            assert forall|q: i32| #[trigger] data@.contains_key(q) implies data@[q]@ == (if q
                != default_row_stop() && last_times(all, k + 1, q) is Some {
                StopView { exchange_time: last_times(all, k + 1, q), ..before[q]@ }
            } else {
                before[q]@
            }) by {}
            assert(data@.dom() =~= before.dom());
        }
        k = k + 1;
    }
    match default {
        None => {
            let res = Err(ParsingError::MissingDefaultExchangeTime);
            assert(stop_exchanges_loaded(parser, before, rows@, res));
            res
        },
        Some(d) => {
            let res = (ResourceStorage::new(data), d);
            assert(stop_exchanges_loaded(parser, before, rows@, Ok(res)));
            Ok(res)
        },
    }
}

} // verus!
