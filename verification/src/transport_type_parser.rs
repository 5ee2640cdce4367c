//! The ZUGART file: the transport types and their names.
//!
//! Rows of five kinds follow each other:
//! - A (`^.{3} [ 0-9]{2}`): a transport type, with its designation (bytes
//!   1-3), product class (5-6), tariff group (8), output control (10), short
//!   name (12-19), surcharge (21) and flag (23); it gets the next id (1, 2,
//!   ...) and its designation now names that id;
//! - B (`<` at byte 1): the language of the names that follow, written
//!   between the first and the last character (`Deutsch`, `Franzoesisch`,
//!   `Englisch`, `Italienisch`; `<text>` leaves the language as it is);
//! - C (`^class.+$`): the name (from byte 9 on) of the product class (bytes
//!   6-7), given to every transport type of that class, in the current
//!   language;
//! - D (`^option.+$`): nothing to take from it;
//! - E (`^category.+$`): the category name (from byte 14 on) of the last
//!   transport type, in the current language.
//!
//! A row of a kind other than A before the first A row is an error.
use crate::attribute_parser::{column_is, first_byte_matcher, i16_value, language_code, text_value};
use crate::error::{PResult, ParsingError};
use crate::fxmap::{designation_map_contents, designation_map_insert, designation_map_new, fx_map_insert, fx_map_new};
use crate::journey_parser::{int16_of, text_of};
use crate::models::{Language, LanguageMap, TransportType};
use crate::parsing::{
    read_rows,
    row_read,
    row_readable,
    row_values,
    values_view,
    ColumnDefinition,
    ExpectedType,
    ParsedValue,
    ParsedView,
    RowDefinition,
    RowMatcher,
    RowParser,
};
use crate::storage::ResourceStorage;
use crate::text::{str_byte_range, str_equals};
use rustc_hash::FxHashMap;
use vstd::prelude::*;
use vstd::utf8::encode_utf8;

verus! {

/// What a transport type holds: designation, product class, tariff group,
/// output control, short name, surcharge, flag, and its product class and
/// category names in each language that has one.
pub type TransportTypeRecord = (
    Seq<char>,
    i16,
    Seq<char>,
    i16,
    Seq<char>,
    i16,
    Seq<char>,
    Map<Language, Seq<char>>,
    Map<Language, Seq<char>>,
);

/// The state after some rows: the transport types (the `k`-th has id
/// `k + 1`), the id that each designation names, and the current language.
pub type TransportTypeState = (Seq<TransportTypeRecord>, Map<Seq<char>, i32>, Language);

/// Why the rows cannot be taken in.
pub enum TransportTypeFault {
    /// A language name that is not known (or the row's text, where the name
    /// cannot be cut out of it).
    Language(Seq<char>),
    /// A row of another kind before the first A row.
    MissingTypeA,
}

/// The language of a ZUGART language name.
pub open spec fn language_of_name(name: Seq<char>) -> Option<Language> {
    if name == "Deutsch"@ {
        Some(Language::German)
    } else if name == "Franzoesisch"@ {
        Some(Language::French)
    } else if name == "Englisch"@ {
        Some(Language::English)
    } else if name == "Italienisch"@ {
        Some(Language::Italian)
    } else {
        None
    }
}

/// The language named in a ZUGART language row.
fn language_from_name(name: &str) -> (res: Option<Language>)
    ensures
        res == language_of_name(name@),
{
    if str_equals(name, "Deutsch") {
        Some(Language::German)
    } else if str_equals(name, "Franzoesisch") {
        Some(Language::French)
    } else if str_equals(name, "Englisch") {
        Some(Language::English)
    } else if str_equals(name, "Italienisch") {
        Some(Language::Italian)
    } else {
        None
    }
}

/// The record with its product class name set in one language, where it is
/// of the class.
pub open spec fn with_class_name(r: TransportTypeRecord, class: i16, l: Language, name: Seq<char>) -> TransportTypeRecord {
    if r.1 == class {
        (r.0, r.1, r.2, r.3, r.4, r.5, r.6, r.7.insert(l, name), r.8)
    } else {
        r
    }
}

/// What one row of kind `row.0` with values `row.1` does to the state.
pub open spec fn transport_type_step(st: TransportTypeState, row: (i32, Seq<ParsedView>)) -> Result<
    TransportTypeState,
    TransportTypeFault,
> {
    let v = row.1;
    if row.0 == 1 {
        let d = text_value(v[0]);
        let rec: TransportTypeRecord = (
            d,
            i16_value(v[1]),
            text_value(v[2]),
            i16_value(v[3]),
            text_value(v[4]),
            i16_value(v[5]),
            text_value(v[6]),
            Map::empty(),
            Map::empty(),
        );
        Ok((st.0.push(rec), st.1.insert(d, (st.0.len() + 1) as i32), st.2))
    } else if st.0.len() == 0 {
        Err(TransportTypeFault::MissingTypeA)
    } else if row.0 == 2 {
        let t = text_value(v[0]);
        match language_code(t) {
            None => Err(TransportTypeFault::Language(t)),
            Some(name) => if name == "text"@ {
                Ok(st)
            } else {
                match language_of_name(name) {
                    Some(l) => Ok((st.0, st.1, l)),
                    None => Err(TransportTypeFault::Language(name)),
                }
            },
        }
    } else if row.0 == 3 {
        let class = i16_value(v[0]);
        let name = text_value(v[1]);
        Ok(
            (
                Seq::new(st.0.len(), |i: int| with_class_name(st.0[i], class, st.2, name)),
                st.1,
                st.2,
            ),
        )
    } else if row.0 == 5 {
        let k = st.0.len() - 1;
        let r = st.0[k];
        Ok(
            (
                st.0.update(k, (r.0, r.1, r.2, r.3, r.4, r.5, r.6, r.7, r.8.insert(st.2, text_value(v[1])))),
                st.1,
                st.2,
            ),
        )
    } else {
        Ok(st)
    }
}

/// The state after the rows, or the fault of the first row that cannot be
/// taken in.
pub open spec fn transport_types_after(rows: Seq<(i32, Seq<ParsedView>)>) -> Result<
    TransportTypeState,
    TransportTypeFault,
>
    decreases rows.len(),
{
    if rows.len() == 0 {
        Ok((Seq::empty(), Map::empty(), Language::German))
    } else {
        match transport_types_after(rows.drop_last()) {
            Ok(st) => transport_type_step(st, rows.last()),
            Err(f) => Err(f),
        }
    }
}

/// The names are those of the map.
pub open spec fn names_are(names: LanguageMap, m: Map<Language, Seq<char>>) -> bool {
    forall|l: Language| #[trigger]
        names.text_in(l) == (if m.contains_key(l) {
            Some(m[l])
        } else {
            None
        })
}

/// The transport type holds the record and has id `id`.
pub open spec fn transport_type_holds(t: TransportType, id: int, r: TransportTypeRecord) -> bool {
    &&& t.spec_id() == id
    &&& t.designation_text() == r.0
    &&& t.spec_product_class_id() == r.1
    &&& t.tariff_group_text() == r.2
    &&& t.spec_output_control() == r.3
    &&& t.short_name_text() == r.4
    &&& t.spec_surcharge() == r.5
    &&& t.flag_text() == r.6
    &&& names_are(t.spec_product_class_name(), r.7)
    &&& names_are(t.spec_category_name(), r.8)
}

/// The storage holds the records under the ids 1, 2, ...
pub open spec fn transport_storage_holds(view: Map<i32, TransportType>, recs: Seq<TransportTypeRecord>) -> bool {
    &&& forall|k: i32| #[trigger] view.contains_key(k) <==> 1 <= k <= recs.len()
    &&& forall|k: i32| #[trigger]
        view.contains_key(k) ==> transport_type_holds(view[k], k as int, recs[k - 1])
}

/// The error is the fault.
pub open spec fn transport_fault_is(e: ParsingError, f: TransportTypeFault) -> bool {
    match f {
        TransportTypeFault::Language(t) => e matches ParsingError::Language(s) && s@ == t,
        TransportTypeFault::MissingTypeA => e matches ParsingError::Unknown(s) && s@
            == "Type A row missing."@,
    }
}

/// The kinds of rows and the values they carry.
pub open spec fn transport_row_shape(row: (i32, Seq<ParsedView>)) -> bool {
    let v = row.1;
    ||| row.0 == 1 && v.len() == 7 && v[0] is String && v[1] is Integer16 && v[2] is String
        && v[3] is Integer16 && v[4] is String && v[5] is Integer16 && v[6] is String
    ||| row.0 == 2 && v.len() == 1 && v[0] is String
    ||| row.0 == 3 && v.len() == 2 && v[0] is Integer16 && v[1] is String
    ||| row.0 == 4
    ||| row.0 == 5 && v.len() == 2 && v[0] is Integer32 && v[1] is String
}

proof fn lemma_transport_step(rows: Seq<(i32, Seq<ParsedView>)>, k: int)
    requires
        0 <= k < rows.len(),
    ensures
        transport_types_after(rows.take(k + 1)) == (match transport_types_after(rows.take(k)) {
            Ok(st) => transport_type_step(st, rows[k]),
            Err(f) => Err(f),
        }),
{
    assert(rows.take(k + 1).drop_last() =~= rows.take(k));
}

proof fn lemma_transport_fault_stays(rows: Seq<(i32, Seq<ParsedView>)>, k: int, f: TransportTypeFault)
    requires
        0 <= k <= rows.len(),
        transport_types_after(rows.take(k)) == Err::<TransportTypeState, TransportTypeFault>(f),
    ensures
        transport_types_after(rows) == Err::<TransportTypeState, TransportTypeFault>(f),
    decreases rows.len() - k,
{
    if k == rows.len() {
        assert(rows.take(k) =~= rows);
    } else {
        lemma_transport_step(rows, k);
        lemma_transport_fault_stays(rows, k + 1, f);
    }
}

/// The kinds and values of rows read.
pub open spec fn transport_views(rows: Seq<(i32, Vec<ParsedValue>)>) -> Seq<(i32, Seq<ParsedView>)> {
    Seq::new(rows.len(), |i: int| (rows[i].0, values_view(rows[i].1@)))
}

/// Takes in the rows read from ZUGART (kind and values of each): the
/// transport types under their ids and the id that each designation names,
/// or the fault of the first row that cannot be taken in.
pub fn apply_transport_type_rows(rows: &Vec<(i32, Vec<ParsedValue>)>) -> (res: PResult<
    (ResourceStorage<TransportType>, FxHashMap<String, i32>),
>)
    requires
        rows@.len() < i32::MAX,
        forall|i: int|
            0 <= i < rows@.len() ==> transport_row_shape(#[trigger] transport_views(rows@)[i]),
    ensures
        match transport_types_after(transport_views(rows@)) {
            Ok(st) => res matches Ok((storage, map)) && transport_storage_holds(storage@, st.0)
                && designation_map_contents(map) == st.1,
            Err(f) => res matches Err(e) && transport_fault_is(e, f),
        },
{
    let ghost views = transport_views(rows@);
    let mut types: Vec<TransportType> = Vec::new();
    let mut map = designation_map_new();
    let mut language = Language::default_language();
    let mut k: usize = 0;
    assert(views.take(0) =~= Seq::<(i32, Seq<ParsedView>)>::empty());
    while k < rows.len()
        invariant
            0 <= k <= rows@.len(),
            rows@.len() < i32::MAX,
            types@.len() <= k,
            views == transport_views(rows@),
            forall|i: int| 0 <= i < rows@.len() ==> transport_row_shape(#[trigger] views[i]),
            transport_types_after(views.take(k as int)) matches Ok(st) && st.0.len() == types@.len()
                && st.1 == designation_map_contents(map) && st.2 == language && forall|i: int|
                0 <= i < types@.len() ==> transport_type_holds(#[trigger] types@[i], i + 1, st.0[i]),
        decreases rows@.len() - k,
    {
        let ghost st = transport_types_after(views.take(k as int))->Ok_0;
        proof {
            lemma_transport_step(views, k as int);
        }
        assert(views[k as int] == (rows@[k as int].0, values_view(rows@[k as int].1@)));
        let kind = rows[k].0;
        let values = &rows[k].1;
        assert(transport_row_shape(views[k as int]));
        assert forall|j: int| 0 <= j < values@.len() implies #[trigger] views[k as int].1[j]
            == values@[j]@ by {}
        if kind == 1 {
            let designation = text_of(&values[0]);
            let t = TransportType::new(
                (types.len() + 1) as i32,
                designation.clone(),
                int16_of(&values[1]),
                text_of(&values[2]),
                int16_of(&values[3]),
                text_of(&values[4]),
                int16_of(&values[5]),
                text_of(&values[6]),
            );
            let ghost gt = t;
            designation_map_insert(&mut map, designation, (types.len() + 1) as i32);
            let ghost before = types@;
            types.push(t);
            proof {
                let st2 = transport_types_after(views.take(k + 1))->Ok_0;
                assert(transport_type_holds(gt, before.len() + 1int, st2.0[before.len() as int]));
                assert forall|i: int| 0 <= i < types@.len() implies transport_type_holds(
                    #[trigger] types@[i],
                    i + 1,
                    st2.0[i],
                ) by {
                    if i < before.len() {
                        assert(types@[i] == before[i]);
                    }
                }
            }
        } else if types.len() == 0 {
            proof {
                lemma_transport_fault_stays(views, k + 1, TransportTypeFault::MissingTypeA);
            }
            return Err(ParsingError::Unknown("Type A row missing.".to_owned()));
        } else if kind == 2 {
            let text = text_of(&values[0]);
            let n = text.as_str().as_bytes().len();
            let cut = if n >= 2 {
                str_byte_range(text.as_str(), 1, n - 1)
            } else {
                None
            };
            match cut {
                None => {
                    proof {
                        lemma_transport_fault_stays(views, k + 1, TransportTypeFault::Language(text@));
                    }
                    return Err(ParsingError::Language(text));
                },
                Some(name) => {
                    proof {
                        vstd::utf8::encode_utf8_decode_utf8(name@);
                    }
                    assert(language_code(text@) == Some(name@));
                    if !str_equals(name, "text") {
                        match language_from_name(name) {
                            Some(l) => {
                                language = l;
                            },
                            None => {
                                proof {
                                    lemma_transport_fault_stays(
                                        views,
                                        k + 1,
                                        TransportTypeFault::Language(name@),
                                    );
                                }
                                return Err(ParsingError::Language(name.to_owned()));
                            },
                        }
                    }
                },
            }
        } else if kind == 3 {
            let class = int16_of(&values[0]);
            let name = text_of(&values[1]);
            let ghost before = types@;
            let mut i: usize = 0;
            while i < types.len()
                invariant
                    0 <= i <= types@.len(),
                    types@.len() == before.len(),
                    forall|q: int| i <= q < types@.len() ==> types@[q] == before[q],
                    forall|q: int|
                        0 <= q < i ==> transport_type_holds(
                            #[trigger] types@[q],
                            q + 1,
                            with_class_name(st.0[q], class, language, name@),
                        ),
                    forall|q: int|
                        0 <= q < before.len() ==> transport_type_holds(#[trigger] before[q], q + 1, st.0[q]),
                decreases types@.len() - i,
            {
                assert(transport_type_holds(before[i as int], i + 1, st.0[i as int]));
                if types[i].product_class_id() == class {
                    types[i].set_product_class_name(language, name.as_str());
                }
                i = i + 1;
            }
            proof {
                let st2 = transport_types_after(views.take(k + 1))->Ok_0;
                assert forall|q: int| 0 <= q < types@.len() implies transport_type_holds(
                    #[trigger] types@[q],
                    q + 1,
                    st2.0[q],
                ) by {}
            }
        } else if kind == 5 {
            let name = text_of(&values[1]);
            let last = types.len() - 1;
            let ghost before = types@;
            types[last].set_category_name(language, name.as_str());
            proof {
                let st2 = transport_types_after(views.take(k + 1))->Ok_0;
                assert forall|q: int| 0 <= q < types@.len() implies transport_type_holds(
                    #[trigger] types@[q],
                    q + 1,
                    st2.0[q],
                ) by {
                    if q != last {
                        assert(types@[q] == before[q]);
                    } else {
                        assert(transport_type_holds(before[q], q + 1, st.0[q]));
                    }
                }
            }
        }
        k = k + 1;
    }
    assert(views.take(rows@.len() as int) =~= views);
    let ghost st = transport_types_after(views)->Ok_0;
    let mut data: FxHashMap<i32, TransportType> = fx_map_new();
    let ghost all = types@;
    while types.len() > 0
        invariant
            all.len() == st.0.len(),
            types@.len() <= all.len(),
            types@ == all.take(types@.len() as int),
            forall|i: int| 0 <= i < all.len() ==> transport_type_holds(#[trigger] all[i], i + 1, st.0[i]),
            forall|q: i32| #[trigger] data@.contains_key(q) <==> types@.len() < q <= all.len(),
            forall|q: i32| #[trigger] data@.contains_key(q) ==> data@[q] == all[q - 1],
            all.len() < i32::MAX,
        decreases types@.len(),
    {
        let ghost n = types@.len();
        let t = types.pop().unwrap();
        proof {
            assert(all.take(n - 1) =~= all.take(n as int).drop_last());
            assert(t == all[n - 1]);
        }
        let id = t.id();
        fx_map_insert(&mut data, id, t);
    }
    Ok((ResourceStorage::new(data), map))
}

} // verus!

verus! {

/// The parser knows the five kinds of ZUGART rows (see the module's
/// documentation), in that order.
pub open spec fn transport_type_parser_shape(p: RowParser) -> bool {
    let d = p.definitions();
    &&& d.len() == 5
    &&& d[0].spec_id() == 1
    &&& d[0].spec_row_matcher() matches Some(m) && m.pattern_text() == Some("^.{3} [ 0-9]{2}"@)
    &&& d[0].columns().len() == 7
    &&& column_is(d[0].columns()[0], 1, 3, ExpectedType::String)
    &&& column_is(d[0].columns()[1], 5, 6, ExpectedType::Integer16)
    &&& column_is(d[0].columns()[2], 8, 8, ExpectedType::String)
    &&& column_is(d[0].columns()[3], 10, 10, ExpectedType::Integer16)
    &&& column_is(d[0].columns()[4], 12, 19, ExpectedType::String)
    &&& column_is(d[0].columns()[5], 21, 21, ExpectedType::Integer16)
    &&& column_is(d[0].columns()[6], 23, 23, ExpectedType::String)
    &&& d[1].spec_id() == 2
    &&& first_byte_matcher(d[1].spec_row_matcher(), "<"@)
    &&& d[1].columns().len() == 1
    &&& column_is(d[1].columns()[0], 1, -1, ExpectedType::String)
    &&& d[2].spec_id() == 3
    &&& d[2].spec_row_matcher() matches Some(m) && m.pattern_text() == Some("^class.+$"@)
    &&& d[2].columns().len() == 2
    &&& column_is(d[2].columns()[0], 6, 7, ExpectedType::Integer16)
    &&& column_is(d[2].columns()[1], 9, -1, ExpectedType::String)
    &&& d[3].spec_id() == 4
    &&& d[3].spec_row_matcher() matches Some(m) && m.pattern_text() == Some("^option.+$"@)
    &&& d[3].columns().len() == 0
    &&& d[4].spec_id() == 5
    &&& d[4].spec_row_matcher() matches Some(m) && m.pattern_text() == Some("^category.+$"@)
    &&& d[4].columns().len() == 2
    &&& column_is(d[4].columns()[0], 10, 12, ExpectedType::Integer32)
    &&& column_is(d[4].columns()[1], 14, -1, ExpectedType::String)
}

/// The parser of ZUGART rows.
pub fn transport_type_row_parser() -> (res: RowParser)
    ensures
        transport_type_parser_shape(res),
{
    RowParser::new(
        vec![
            RowDefinition::new(
                1,
                RowMatcher::from_pattern("^.{3} [ 0-9]{2}"),
                vec![
                    ColumnDefinition::new(1, 3, ExpectedType::String),
                    ColumnDefinition::new(5, 6, ExpectedType::Integer16),
                    ColumnDefinition::new(8, 8, ExpectedType::String),
                    ColumnDefinition::new(10, 10, ExpectedType::Integer16),
                    ColumnDefinition::new(12, 19, ExpectedType::String),
                    ColumnDefinition::new(21, 21, ExpectedType::Integer16),
                    ColumnDefinition::new(23, 23, ExpectedType::String),
                ],
            ),
            RowDefinition::new(
                2,
                RowMatcher::new(1, 1, "<", true),
                vec![ColumnDefinition::new(1, -1, ExpectedType::String)],
            ),
            RowDefinition::new(
                3,
                RowMatcher::from_pattern("^class.+$"),
                vec![
                    ColumnDefinition::new(6, 7, ExpectedType::Integer16),
                    ColumnDefinition::new(9, -1, ExpectedType::String),
                ],
            ),
            RowDefinition::new(4, RowMatcher::from_pattern("^option.+$"), Vec::new()),
            RowDefinition::new(
                5,
                RowMatcher::from_pattern("^category.+$"),
                vec![
                    ColumnDefinition::new(10, 12, ExpectedType::Integer32),
                    ColumnDefinition::new(14, -1, ExpectedType::String),
                ],
            ),
        ],
    )
}

/// The kind and values that the parser reads from each row.
pub open spec fn transport_rows_views(p: RowParser, rows: Seq<String>) -> Seq<(i32, Seq<ParsedView>)> {
    Seq::new(rows.len(), |i: int| row_read(p, encode_utf8(rows[i]@)))
}

/// What loading the rows of ZUGART with the parser gives: a syntax error
/// with the first row that the parser cannot read; else the transport types
/// and designations that the rows make (see `transport_types_after`), or the
/// fault of the first row that cannot be taken in.
pub open spec fn transport_types_loaded(
    p: RowParser,
    rows: Seq<String>,
    res: PResult<(ResourceStorage<TransportType>, FxHashMap<String, i32>)>,
) -> bool {
    if forall|i: int| 0 <= i < rows.len() ==> row_readable(p, #[trigger] rows[i]) {
        match transport_types_after(transport_rows_views(p, rows)) {
            Ok(st) => res matches Ok((storage, map)) && transport_storage_holds(storage@, st.0)
                && designation_map_contents(map) == st.1,
            Err(f) => res matches Err(e) && transport_fault_is(e, f),
        }
    } else {
        exists|i: int|
            0 <= i < rows.len() && !row_readable(p, rows[i]) && (forall|j: int|
                0 <= j < i ==> row_readable(p, #[trigger] rows[j])) && res == Err::<
                (ResourceStorage<TransportType>, FxHashMap<String, i32>),
                ParsingError,
            >(ParsingError::Syntax(rows[i]))
    }
}

proof fn lemma_transport_row_shape(p: RowParser, row: String, x: (i32, Vec<ParsedValue>))
    requires
        transport_type_parser_shape(p),
        row_readable(p, row),
        row_values(p, row, x),
    ensures
        transport_row_shape((x.0, values_view(x.1@))),
        (x.0, values_view(x.1@)) == row_read(p, encode_utf8(row@)),
{
    reveal(row_readable);
    reveal(row_values);
    let b = encode_utf8(row@);
    crate::parsing::lemma_matching_kind_in_range(p.definitions(), b, 0);
    let r = row_read(p, b);
    assert(values_view(x.1@) =~= r.1);
}

/// Loads ZUGART from its rows: the transport types under their ids (1, 2,
/// ... in the order of their rows) and the id that each designation names.
pub fn parse_transport_type_rows(rows: &Vec<String>) -> (res: PResult<
    (ResourceStorage<TransportType>, FxHashMap<String, i32>),
>)
    requires
        rows@.len() < i32::MAX,
    ensures
        exists|p: RowParser| transport_type_parser_shape(p) && transport_types_loaded(p, rows@, res),
{
    let parser = transport_type_row_parser();
    match read_rows(&parser, rows) {
        Err(e) => {
            assert(transport_types_loaded(parser, rows@, Err(e)));
            Err(e)
        },
        Ok(out) => {
            proof {
                assert forall|i: int| 0 <= i < out@.len() implies transport_row_shape(
                    #[trigger] transport_views(out@)[i],
                ) && transport_views(out@)[i] == transport_rows_views(parser, rows@)[i] by {
                    assert(row_readable(parser, rows@[i]));
                    lemma_transport_row_shape(parser, rows@[i], out@[i]);
                }
                assert(transport_views(out@) =~= transport_rows_views(parser, rows@));
                assert forall|i: int| 0 <= i < rows@.len() implies row_readable(
                    parser,
                    #[trigger] rows@[i],
                ) by {}
            }
            let res = apply_transport_type_rows(&out);
            assert(transport_types_loaded(parser, rows@, res));
            res
        },
    }
}

} // verus!
