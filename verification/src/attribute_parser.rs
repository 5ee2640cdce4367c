//! The ATTRIBUT file: the attributes of journeys and their descriptions.
//!
//! Rows of four kinds follow each other:
//! - A (`^.{2} [0-9] [0-9 ]{3} [0-9 ]{2}$`): an attribute, with its
//!   designation (bytes 1-2), stop scope (4), main sorting priority (6-8) and
//!   secondary sorting priority (10-11); it gets the next id (1, 2, ...) and
//!   its designation now names that id;
//! - B (`#` at byte 1): nothing to take from it;
//! - C (`<` at byte 1): the language of the descriptions that follow, written
//!   between the first and the last character (`<text>` leaves the language
//!   as it is);
//! - D (`^.{2} .+$`): the description (from byte 4 on) of the attribute that
//!   the designation (bytes 1-2) names, in the current language.
use crate::error::{PResult, ParsingError};
use crate::journey_parser::{int16_of, text_of};
use crate::fxmap::{
    designation_map_contents,
    designation_map_get,
    designation_map_insert,
    designation_map_new,
    fx_map_insert,
    fx_map_new,
};
use crate::models::{language_of_code, Attribute, Language};
use crate::parsing::{
    field,
    field_in_row,
    read_rows,
    row_read,
    row_readable,
    row_values,
    rows_read,
    values_view,
    ColumnDefinition,
    ExpectedType,
    ParsedValue,
    ParsedView,
    RowDefinition,
    RowMatcher,
    RowParser,
};
use crate::storage::ResourceStorage;
use crate::text::{str_byte_range, str_equals};
use rustc_hash::FxHashMap;
use vstd::prelude::*;
use vstd::string::StringSliceAdditionalSpecFns;
use vstd::utf8::encode_utf8;

verus! {

/// What an attribute holds: its designation, stop scope, main and secondary
/// sorting priorities, and its description in each language that has one.
pub type AttributeRecord = (Seq<char>, i16, i16, i16, Map<Language, Seq<char>>);

/// The state after some rows: the attributes (the `k`-th has id `k + 1`),
/// the id that each designation names, and the current language.
pub type AttributeState = (Seq<AttributeRecord>, Map<Seq<char>, i32>, Language);

/// Why the rows cannot be taken in.
pub enum AttributeFault {
    /// A language code that is not known (the text of the row's value where
    /// the code cannot be cut out of it).
    Language(Seq<char>),
    /// A description for a designation that no attribute has.
    UnknownDesignation(Seq<char>),
}

/// The text of a text value.
pub open spec fn text_value(v: ParsedView) -> Seq<char> {
    match v {
        ParsedView::String(t) => t,
        _ => Seq::empty(),
    }
}

/// The number of a 16-bit value.
pub open spec fn i16_value(v: ParsedView) -> i16 {
    match v {
        ParsedView::Integer16(x) => x,
        _ => 0,
    }
}

/// The language code of a C row's text: what stands between its first and
/// its last character, where that can be cut out.
pub open spec fn language_code(t: Seq<char>) -> Option<Seq<char>> {
    let e = encode_utf8(t);
    if e.len() >= 2 && field_in_row(e, 1, e.len() - 1) {
        Some(field(e, 1, e.len() - 1))
    } else {
        None
    }
}

/// The state before the first row.
pub open spec fn initial_attribute_state() -> AttributeState {
    (Seq::empty(), Map::empty(), Language::German)
}

/// What one row of kind `row.0` with values `row.1` does to the state.
pub open spec fn attribute_step(st: AttributeState, row: (i32, Seq<ParsedView>)) -> Result<
    AttributeState,
    AttributeFault,
> {
    let v = row.1;
    if row.0 == 1 {
        let d = text_value(v[0]);
        let rec: AttributeRecord = (d, i16_value(v[1]), i16_value(v[2]), i16_value(v[3]), Map::empty());
        Ok((st.0.push(rec), st.1.insert(d, (st.0.len() + 1) as i32), st.2))
    } else if row.0 == 3 {
        let t = text_value(v[0]);
        match language_code(t) {
            None => Err(AttributeFault::Language(t)),
            Some(code) => if code == "text"@ {
                Ok(st)
            } else {
                match language_of_code(code) {
                    Some(l) => Ok((st.0, st.1, l)),
                    None => Err(AttributeFault::Language(code)),
                }
            },
        }
    } else if row.0 == 4 {
        let d = text_value(v[0]);
        if st.1.contains_key(d) {
            let k = st.1[d] - 1;
            let r = st.0[k];
            Ok((st.0.update(k, (r.0, r.1, r.2, r.3, r.4.insert(st.2, text_value(v[1])))), st.1, st.2))
        } else {
            Err(AttributeFault::UnknownDesignation(d))
        }
    } else {
        Ok(st)
    }
}

/// The state after the rows, or the fault of the first row that cannot be
/// taken in.
pub open spec fn attributes_after(rows: Seq<(i32, Seq<ParsedView>)>) -> Result<
    AttributeState,
    AttributeFault,
>
    decreases rows.len(),
{
    if rows.len() == 0 {
        Ok(initial_attribute_state())
    } else {
        match attributes_after(rows.drop_last()) {
            Ok(st) => attribute_step(st, rows.last()),
            Err(f) => Err(f),
        }
    }
}

/// The attribute holds the record and has id `id`.
pub open spec fn attribute_holds(a: Attribute, id: int, r: AttributeRecord) -> bool {
    &&& a.spec_id() == id
    &&& a.designation_text() == r.0
    &&& a.spec_stop_scope() == r.1
    &&& a.spec_main_sorting_priority() == r.2
    &&& a.spec_secondary_sorting_priority() == r.3
    &&& forall|l: Language| #[trigger]
        a.description_in(l) == (if r.4.contains_key(l) {
            Some(r.4[l])
        } else {
            None
        })
}

/// The storage holds the records under the ids 1, 2, ...
pub open spec fn storage_holds(view: Map<i32, Attribute>, recs: Seq<AttributeRecord>) -> bool {
    &&& forall|k: i32| #[trigger] view.contains_key(k) <==> 1 <= k <= recs.len()
    &&& forall|k: i32| #[trigger]
        view.contains_key(k) ==> attribute_holds(view[k], k as int, recs[k - 1])
}

/// The error is the fault.
pub open spec fn fault_is(e: ParsingError, f: AttributeFault) -> bool {
    match f {
        AttributeFault::Language(t) => e matches ParsingError::Language(s) && s@ == t,
        AttributeFault::UnknownDesignation(d) => e matches ParsingError::UnknownId(s) && s@ == d,
    }
}

/// The kinds and values of rows read.
pub open spec fn parsed_views(rows: Seq<(i32, Vec<ParsedValue>)>) -> Seq<(i32, Seq<ParsedView>)> {
    Seq::new(rows.len(), |i: int| (rows[i].0, values_view(rows[i].1@)))
}

/// The kinds of rows and the values they carry.
pub open spec fn attribute_row_shape(row: (i32, Seq<ParsedView>)) -> bool {
    let v = row.1;
    ||| row.0 == 1 && v.len() == 4 && v[0] is String && v[1] is Integer16 && v[2] is Integer16
        && v[3] is Integer16
    ||| row.0 == 2
    ||| row.0 == 3 && v.len() == 1 && v[0] is String
    ||| row.0 == 4 && v.len() == 2 && v[0] is String && v[1] is String
}

/// Every designation names an attribute.
pub open spec fn ids_in_range(st: AttributeState) -> bool {
    forall|d: Seq<char>| #[trigger] st.1.contains_key(d) ==> 1 <= st.1[d] <= st.0.len()
}

proof fn lemma_after_step(rows: Seq<(i32, Seq<ParsedView>)>, k: int)
    requires
        0 <= k < rows.len(),
    ensures
        attributes_after(rows.take(k + 1)) == (match attributes_after(rows.take(k)) {
            Ok(st) => attribute_step(st, rows[k]),
            Err(f) => Err(f),
        }),
{
    assert(rows.take(k + 1).drop_last() =~= rows.take(k));
    assert(rows.take(k + 1).last() == rows[k]);
}

proof fn lemma_fault_stays(rows: Seq<(i32, Seq<ParsedView>)>, k: int, f: AttributeFault)
    requires
        0 <= k <= rows.len(),
        attributes_after(rows.take(k)) == Err::<AttributeState, AttributeFault>(f),
    ensures
        attributes_after(rows) == Err::<AttributeState, AttributeFault>(f),
    decreases rows.len() - k,
{
    if k == rows.len() {
        assert(rows.take(k) =~= rows);
    } else {
        lemma_after_step(rows, k);
        lemma_fault_stays(rows, k + 1, f);
    }
}

/// Takes in the rows read from ATTRIBUT (kind and values of each): the
/// attributes under their ids and the id that each designation names, or the
/// fault of the first row that cannot be taken in.
pub fn apply_attribute_rows(rows: &Vec<(i32, Vec<ParsedValue>)>) -> (res: PResult<
    (ResourceStorage<Attribute>, FxHashMap<String, i32>),
>)
    requires
        rows@.len() < i32::MAX,
        forall|i: int|
            0 <= i < rows@.len() ==> attribute_row_shape(#[trigger] parsed_views(rows@)[i]),
    ensures
        match attributes_after(parsed_views(rows@)) {
            Ok(st) => res matches Ok((storage, map)) && storage_holds(storage@, st.0)
                && designation_map_contents(map) == st.1,
            Err(f) => res matches Err(e) && fault_is(e, f),
        },
{
    let ghost views = parsed_views(rows@);
    let mut attrs: Vec<Attribute> = Vec::new();
    let mut map = designation_map_new();
    let mut language = Language::default_language();
    let mut k: usize = 0;
    assert(views.take(0) =~= Seq::<(i32, Seq<ParsedView>)>::empty());
    while k < rows.len()
        invariant
            0 <= k <= rows@.len(),
            rows@.len() < i32::MAX,
            attrs@.len() <= k,
            views == parsed_views(rows@),
            forall|i: int| 0 <= i < rows@.len() ==> attribute_row_shape(#[trigger] views[i]),
            attributes_after(views.take(k as int)) matches Ok(st) && st.0.len() == attrs@.len()
                && st.1 == designation_map_contents(map) && st.2 == language && ids_in_range(st)
                && forall|i: int|
                0 <= i < attrs@.len() ==> attribute_holds(#[trigger] attrs@[i], i + 1, st.0[i]),
        decreases rows@.len() - k,
    {
        let ghost st = attributes_after(views.take(k as int))->Ok_0;
        proof {
            lemma_after_step(views, k as int);
        }
        assert(views[k as int] == (rows@[k as int].0, values_view(rows@[k as int].1@)));
        let kind = rows[k].0;
        let values = &rows[k].1;
        assert(attribute_row_shape(views[k as int]));
        assert forall|j: int| 0 <= j < values@.len() implies #[trigger] views[k as int].1[j]
            == values@[j]@ by {}
        if kind == 1 {
            let designation = text_of(&values[0]);
            let stop_scope = int16_of(&values[1]);
            let main = int16_of(&values[2]);
            let secondary = int16_of(&values[3]);
            let id = (attrs.len() + 1) as i32;
            let a = Attribute::new(id, designation.clone(), stop_scope, main, secondary);
            let ghost ga = a;
            designation_map_insert(&mut map, designation, id);
            let ghost before = attrs@;
            attrs.push(a);
            proof {
                let v = views[k as int].1;
                assert(v[0] == values[0]@);
                assert(v[1] == values[1]@);
                assert(v[2] == values[2]@);
                assert(v[3] == values[3]@);
                let st2 = attributes_after(views.take(k + 1))->Ok_0;
                let rec: AttributeRecord = (
                    text_value(v[0]),
                    i16_value(v[1]),
                    i16_value(v[2]),
                    i16_value(v[3]),
                    Map::empty(),
                );
                assert(st2.0 == st.0.push(rec));
                assert(attribute_holds(ga, before.len() + 1int, rec));
                assert forall|i: int| 0 <= i < attrs@.len() implies attribute_holds(
                    #[trigger] attrs@[i],
                    i + 1,
                    st2.0[i],
                ) by {
                    if i < before.len() {
                        assert(attrs@[i] == before[i]);
                    }
                }
            }
        } else if kind == 3 {
            let text = text_of(&values[0]);
            let n = text.as_str().as_bytes().len();
            let cut = if n >= 2 {
                str_byte_range(text.as_str(), 1, n - 1)
            } else {
                None
            };
            match cut {
                None => {
                    proof {
                        lemma_fault_stays(views, k + 1, AttributeFault::Language(text@));
                    }
                    return Err(ParsingError::Language(text));
                },
                Some(code) => {
                    proof {
                        vstd::utf8::encode_utf8_decode_utf8(code@);
                    }
                    assert(language_code(text@) == Some(code@));
                    if !str_equals(code, "text") {
                        match Language::from_code(code) {
                            Some(l) => {
                                language = l;
                            },
                            None => {
                                proof {
                                    lemma_fault_stays(views, k + 1, AttributeFault::Language(code@));
                                }
                                return Err(ParsingError::Language(code.to_owned()));
                            },
                        }
                    }
                },
            }
        } else if kind == 4 {
            let designation = text_of(&values[0]);
            let description = text_of(&values[1]);
            match designation_map_get(&map, &designation) {
                None => {
                    proof {
                        lemma_fault_stays(
                            views,
                            k + 1,
                            AttributeFault::UnknownDesignation(designation@),
                        );
                    }
                    return Err(ParsingError::UnknownId(designation));
                },
                Some(id) => {
                    let idx = (id - 1) as usize;
                    let ghost before = attrs@;
                    attrs[idx].set_description(language, description.as_str());
                    proof {
                        let st2 = attributes_after(views.take(k + 1))->Ok_0;
                        let r = st.0[idx as int];
                        let r2 = (r.0, r.1, r.2, r.3, r.4.insert(language, description@));
                        assert(st2.0 == st.0.update(idx as int, r2));
                        assert(attrs@.len() == before.len());
                        assert forall|i: int| 0 <= i < attrs@.len() implies attribute_holds(
                            #[trigger] attrs@[i],
                            i + 1,
                            st2.0[i],
                        ) by {
                            if i != idx {
                                assert(attrs@[i] == before[i]);
                            } else {
                                assert(attribute_holds(before[i], i + 1, r));
                            }
                        }
                    }
                },
            }
        }
        k = k + 1;
    }
    assert(views.take(rows@.len() as int) =~= views);
    let ghost st = attributes_after(views)->Ok_0;
    let mut data: FxHashMap<i32, Attribute> = fx_map_new();
    let ghost all = attrs@;
    while attrs.len() > 0
        invariant
            all.len() == st.0.len(),
            attrs@.len() <= all.len(),
            attrs@ == all.take(attrs@.len() as int),
            forall|i: int| 0 <= i < all.len() ==> attribute_holds(#[trigger] all[i], i + 1, st.0[i]),
            forall|q: i32| #[trigger]
                data@.contains_key(q) <==> attrs@.len() < q <= all.len(),
            forall|q: i32| #[trigger] data@.contains_key(q) ==> data@[q] == all[q - 1],
            all.len() < i32::MAX,
        decreases attrs@.len(),
    {
        let ghost n = attrs@.len();
        let a = attrs.pop().unwrap();
        proof {
            assert(all.take(n - 1) =~= all.take(n as int).drop_last());
            assert(a == all[n - 1]);
        }
        let id = a.id();
        fx_map_insert(&mut data, id, a);
    }
    Ok((ResourceStorage::new(data), map))
}

} // verus!

verus! {

/// The pattern of the rows that make an attribute.
pub open spec fn attribute_row_pattern() -> Seq<char> {
    "^.{2} [0-9] [0-9 ]{3} [0-9 ]{2}$"@
}

/// The pattern of the rows that hold a description.
pub open spec fn description_row_pattern() -> Seq<char> {
    "^.{2} .+$"@
}

/// The column runs from byte `start` to byte `stop` and holds a value of
/// type `t`.
pub open spec fn column_is(c: ColumnDefinition, start: int, stop: int, t: ExpectedType) -> bool {
    c.spec_start() == start && c.spec_stop() == stop && c.spec_expected_type() == t
}

/// The matcher compares byte 1 with `value`.
pub open spec fn first_byte_matcher(m: Option<RowMatcher>, value: Seq<char>) -> bool {
    m matches Some(m) && m.pattern_text() is None && m.spec_start() == 1 && m.spec_length() == 1
        && m.value_text() == value && m.spec_should_equal_value()
}

/// The parser knows the four kinds of ATTRIBUT rows (see the module's
/// documentation), in that order.
pub open spec fn attribute_parser_shape(p: RowParser) -> bool {
    let d = p.definitions();
    &&& d.len() == 4
    &&& d[0].spec_id() == 1
    &&& d[0].spec_row_matcher() matches Some(m) && m.pattern_text() == Some(attribute_row_pattern())
    &&& d[0].columns().len() == 4
    &&& column_is(d[0].columns()[0], 1, 2, ExpectedType::String)
    &&& column_is(d[0].columns()[1], 4, 4, ExpectedType::Integer16)
    &&& column_is(d[0].columns()[2], 6, 8, ExpectedType::Integer16)
    &&& column_is(d[0].columns()[3], 10, 11, ExpectedType::Integer16)
    &&& d[1].spec_id() == 2
    &&& first_byte_matcher(d[1].spec_row_matcher(), "#"@)
    &&& d[1].columns().len() == 0
    &&& d[2].spec_id() == 3
    &&& first_byte_matcher(d[2].spec_row_matcher(), "<"@)
    &&& d[2].columns().len() == 1
    &&& column_is(d[2].columns()[0], 1, -1, ExpectedType::String)
    &&& d[3].spec_id() == 4
    &&& d[3].spec_row_matcher() matches Some(m) && m.pattern_text() == Some(description_row_pattern())
    &&& d[3].columns().len() == 2
    &&& column_is(d[3].columns()[0], 1, 2, ExpectedType::String)
    &&& column_is(d[3].columns()[1], 4, -1, ExpectedType::String)
}

/// The parser of ATTRIBUT rows.
pub fn attribute_row_parser() -> (res: RowParser)
    ensures
        attribute_parser_shape(res),
{
    RowParser::new(
        vec![
            RowDefinition::new(
                1,
                RowMatcher::from_pattern("^.{2} [0-9] [0-9 ]{3} [0-9 ]{2}$"),
                vec![
                    ColumnDefinition::new(1, 2, ExpectedType::String),
                    ColumnDefinition::new(4, 4, ExpectedType::Integer16),
                    ColumnDefinition::new(6, 8, ExpectedType::Integer16),
                    ColumnDefinition::new(10, 11, ExpectedType::Integer16),
                ],
            ),
            RowDefinition::new(2, RowMatcher::new(1, 1, "#", true), Vec::new()),
            RowDefinition::new(
                3,
                RowMatcher::new(1, 1, "<", true),
                vec![ColumnDefinition::new(1, -1, ExpectedType::String)],
            ),
            RowDefinition::new(
                4,
                RowMatcher::from_pattern("^.{2} .+$"),
                vec![
                    ColumnDefinition::new(1, 2, ExpectedType::String),
                    ColumnDefinition::new(4, -1, ExpectedType::String),
                ],
            ),
        ],
    )
}

/// The kind and values that the parser reads from each row.
pub open spec fn rows_views(p: RowParser, rows: Seq<String>) -> Seq<(i32, Seq<ParsedView>)> {
    Seq::new(rows.len(), |i: int| row_read(p, encode_utf8(rows[i]@)))
}

/// What loading the rows of ATTRIBUT with the parser gives: a syntax error
/// with the first row that the parser cannot read; else the attributes and
/// designations that the rows make (see `attributes_after`), or the fault of
/// the first row that cannot be taken in.
pub open spec fn attributes_loaded(
    p: RowParser,
    rows: Seq<String>,
    res: PResult<(ResourceStorage<Attribute>, FxHashMap<String, i32>)>,
) -> bool {
    if forall|i: int| 0 <= i < rows.len() ==> row_readable(p, #[trigger] rows[i]) {
        match attributes_after(rows_views(p, rows)) {
            Ok(st) => res matches Ok((storage, map)) && storage_holds(storage@, st.0)
                && designation_map_contents(map) == st.1,
            Err(f) => res matches Err(e) && fault_is(e, f),
        }
    } else {
        exists|i: int|
            0 <= i < rows.len() && !row_readable(p, rows[i]) && (forall|j: int|
                0 <= j < i ==> row_readable(p, #[trigger] rows[j])) && res == Err::<
                (ResourceStorage<Attribute>, FxHashMap<String, i32>),
                ParsingError,
            >(ParsingError::Syntax(rows[i]))
    }
}

/// A row that the ATTRIBUT parser reads has one of the four kinds, with its
/// values.
proof fn lemma_attribute_row_shape(p: RowParser, row: String, x: (i32, Vec<ParsedValue>))
    requires
        attribute_parser_shape(p),
        row_readable(p, row),
        row_values(p, row, x),
    ensures
        attribute_row_shape((x.0, values_view(x.1@))),
        (x.0, values_view(x.1@)) == row_read(p, encode_utf8(row@)),
{
    reveal(row_readable);
    reveal(row_values);
    let b = encode_utf8(row@);
    crate::parsing::lemma_matching_kind_in_range(p.definitions(), b, 0);
    let r = row_read(p, b);
    assert(values_view(x.1@) =~= r.1);
}

/// Loads ATTRIBUT from its rows: the attributes under their ids (1, 2, ...
/// in the order of their rows) and the id that each designation names.
pub fn parse_attribute_rows(rows: &Vec<String>) -> (res: PResult<
    (ResourceStorage<Attribute>, FxHashMap<String, i32>),
>)
    requires
        rows@.len() < i32::MAX,
    ensures
        exists|p: RowParser| attribute_parser_shape(p) && attributes_loaded(p, rows@, res),
{
    let parser = attribute_row_parser();
    let read = read_rows(&parser, rows);
    match read {
        Err(e) => {
            assert(attributes_loaded(parser, rows@, Err(e)));
            Err(e)
        },
        Ok(out) => {
            proof {
                assert forall|i: int| 0 <= i < out@.len() implies attribute_row_shape(
                    #[trigger] parsed_views(out@)[i],
                ) && parsed_views(out@)[i] == rows_views(parser, rows@)[i] by {
                    assert(row_readable(parser, rows@[i]));
                    lemma_attribute_row_shape(parser, rows@[i], out@[i]);
                }
                assert(parsed_views(out@) =~= rows_views(parser, rows@));
                assert forall|i: int| 0 <= i < rows@.len() implies row_readable(
                    parser,
                    #[trigger] rows@[i],
                ) by {}
            }
            let res = apply_attribute_rows(&out);
            assert(attributes_loaded(parser, rows@, res));
            res
        },
    }
}

} // verus!
