//! The INFOTEXT_DE, INFOTEXT_EN, INFOTEXT_FR and INFOTEXT_IT files: the
//! information texts. The ids are those of INFOTEXT_DE (bytes 1-9); each
//! file then gives the text in its language (from byte 11 on) of the ids it
//! lists, a later row replacing an earlier one.
use crate::attribute_parser::column_is;
use crate::error::{PResult, ParsingError};
use crate::fxmap::{fx_map_get, fx_map_insert, fx_map_new, fx_map_remove};
use crate::journey_parser::{int_at, int_of, text_at, text_of};
use crate::models::{InformationText, Language};
use crate::parsing::{
    read_rows,
    row_readable,
    row_values,
    rows_read,
    values_view,
    ColumnDefinition,
    ExpectedType,
    ParsedValue,
    RowDefinition,
    RowParser,
};
use rustc_hash::FxHashMap;
use vstd::prelude::*;

verus! {

/// The parser of the ids: bytes 1-9, a 32-bit number.
pub open spec fn text_id_parser_shape(p: RowParser) -> bool {
    let d = p.definitions();
    &&& d.len() == 1
    &&& d[0].columns().len() == 1
    &&& column_is(d[0].columns()[0], 1, 9, ExpectedType::Integer32)
}

/// The parser of the texts: the id (bytes 1-9) and the text (from byte 11
/// on).
pub open spec fn text_content_parser_shape(p: RowParser) -> bool {
    let d = p.definitions();
    &&& d.len() == 1
    &&& d[0].columns().len() == 2
    &&& column_is(d[0].columns()[0], 1, 9, ExpectedType::Integer32)
    &&& column_is(d[0].columns()[1], 11, -1, ExpectedType::String)
}

/// A syntax error with the first row that the parser cannot read.
pub open spec fn first_unreadable_row<T>(p: RowParser, rows: Seq<String>, res: PResult<T>) -> bool {
    exists|i: int|
        0 <= i < rows.len() && !row_readable(p, rows[i]) && (forall|j: int|
            0 <= j < i ==> row_readable(p, #[trigger] rows[j])) && res == Err::<T, ParsingError>(
            ParsingError::Syntax(rows[i]),
        )
}

/// What reading the ids gives: a syntax error with the first row that the
/// parser cannot read; else an information text without content for each id
/// of the rows.
pub open spec fn text_ids_loaded(
    p: RowParser,
    rows: Seq<String>,
    res: PResult<FxHashMap<i32, InformationText>>,
) -> bool {
    if forall|i: int| 0 <= i < rows.len() ==> row_readable(p, #[trigger] rows[i]) {
        exists|out: Seq<(i32, Vec<ParsedValue>)>|
            #[trigger] rows_read(p, rows, out) && (res matches Ok(m) && (forall|q: i32| #[trigger]
                m@.contains_key(q) <==> exists|i: int| 0 <= i < out.len() && int_at(out[i].1@, 0) == q)
                && (forall|q: i32| #[trigger]
                m@.contains_key(q) ==> m@[q].spec_id() == q && forall|l: Language| #[trigger]
                    m@[q].content_in(l) is None))
    } else {
        first_unreadable_row(p, rows, res)
    }
}

/// Reads the ids of the information texts (from INFOTEXT_DE): a text
/// without content for each.
pub fn parse_information_text_ids(rows: &Vec<String>) -> (res: PResult<FxHashMap<i32, InformationText>>)
    ensures
        exists|p: RowParser| text_id_parser_shape(p) && text_ids_loaded(p, rows@, res),
{
    let parser = RowParser::new(
        vec![RowDefinition::from_columns(vec![ColumnDefinition::new(1, 9, ExpectedType::Integer32)])],
    );
    assert(text_id_parser_shape(parser));
    let out = match read_rows(&parser, rows) {
        Err(e) => {
            assert(text_ids_loaded(parser, rows@, Err(e)));
            return Err(e);
        },
        Ok(out) => out,
    };
    let ghost all = out@;
    assert forall|i: int| 0 <= i < rows@.len() implies row_readable(parser, #[trigger] rows@[i]) by {}
    let mut data: FxHashMap<i32, InformationText> = fx_map_new();
    let mut k: usize = 0;
    while k < out.len()
        invariant
            0 <= k <= out@.len(),
            out@ == all,
            text_id_parser_shape(parser),
            rows_read(parser, rows@, all),
            forall|q: i32| #[trigger]
                data@.contains_key(q) <==> exists|i: int| 0 <= i < k && int_at(all[i].1@, 0) == q,
            forall|q: i32| #[trigger]
                data@.contains_key(q) ==> data@[q].spec_id() == q && forall|l: Language| #[trigger]
                    data@[q].content_in(l) is None,
        decreases out@.len() - k,
    {
        proof {
            assert(row_readable(parser, rows@[k as int]));
            reveal(row_values);
            assert(values_view(all[k as int].1@).len() == 1);
            assert(all[k as int].1@[0]@ == values_view(all[k as int].1@)[0]);
        }
        let id = int_of(&out[k].1[0]);
        fx_map_insert(&mut data, id, InformationText::new(id));
        proof {
            assert(int_at(all[k as int].1@, 0) == id);
            assert forall|q: i32|
                (exists|i: int| 0 <= i < k + 1 && int_at(all[i].1@, 0) == q) implies #[trigger]
                data@.contains_key(q) by {
                if q != id {
                    let i = choose|i: int| 0 <= i < k + 1 && int_at(all[i].1@, 0) == q;
                    assert(i < k);
                }
            }
        }
        k = k + 1;
    }
    let res = Ok(data);
    assert(text_ids_loaded(parser, rows@, res));
    res
}

/// Among the first `n` rows read, the text of the last one with id `q`.
pub open spec fn last_text(out: Seq<(i32, Vec<ParsedValue>)>, n: int, q: i32) -> Option<Seq<char>>
    decreases n,
{
    if n <= 0 {
        None
    } else if int_at(out[n - 1].1@, 0) == q {
        Some(text_at(out[n - 1].1@, 1))
    } else {
        last_text(out, n - 1, q)
    }
}

/// The texts after the first `n` rows read: each text that a row names has
/// the content of the last such row in `language`; the rest is kept.
pub open spec fn contents_set(
    before: Map<i32, InformationText>,
    out: Seq<(i32, Vec<ParsedValue>)>,
    n: int,
    language: Language,
    view: Map<i32, InformationText>,
) -> bool {
    &&& view.dom() == before.dom()
    &&& forall|q: i32| #[trigger]
        view.contains_key(q) ==> view[q].spec_id() == before[q].spec_id() && (forall|l: Language| #[trigger]
            view[q].content_in(l) == (if l == language && last_text(out, n, q) is Some {
                last_text(out, n, q)
            } else {
                before[q].content_in(l)
            }))
}

/// The first `n` rows read name texts that exist.
pub open spec fn ids_known(before: Map<i32, InformationText>, out: Seq<(i32, Vec<ParsedValue>)>, n: int) -> bool {
    forall|i: int| 0 <= i < n ==> before.contains_key(#[trigger] int_at(out[i].1@, 0))
}

/// What applying a file of texts in `language` gives: a syntax error with the
/// first row that the parser cannot read; an unknown id error with the first
/// row whose id has no text; else the texts with their content set.
pub open spec fn contents_loaded(
    p: RowParser,
    before: Map<i32, InformationText>,
    rows: Seq<String>,
    language: Language,
    res: PResult<FxHashMap<i32, InformationText>>,
) -> bool {
    if forall|i: int| 0 <= i < rows.len() ==> row_readable(p, #[trigger] rows[i]) {
        exists|out: Seq<(i32, Vec<ParsedValue>)>|
            #[trigger] rows_read(p, rows, out) && if ids_known(before, out, out.len() as int) {
                (res matches Ok(m) && contents_set(before, out, out.len() as int, language, m@))
            } else {
                exists|i: int|
                    0 <= i < out.len() && ids_known(before, out, i) && !before.contains_key(
                        int_at(out[i].1@, 0),
                    ) && res == Err::<FxHashMap<i32, InformationText>, ParsingError>(
                        ParsingError::UnknownId(rows[i]),
                    )
            }
    } else {
        first_unreadable_row(p, rows, res)
    }
}

/// Sets the content in `language` of the texts that the rows (of the
/// INFOTEXT file of that language) name.
#[verifier::rlimit(50)]
pub fn apply_information_texts(
    data: FxHashMap<i32, InformationText>,
    rows: &Vec<String>,
    language: Language,
) -> (res: PResult<FxHashMap<i32, InformationText>>)
    ensures
        exists|p: RowParser|
            text_content_parser_shape(p) && contents_loaded(p, data@, rows@, language, res),
{
    let ghost before = data@;
    let parser = RowParser::new(
        vec![
            RowDefinition::from_columns(
                vec![
                    ColumnDefinition::new(1, 9, ExpectedType::Integer32),
                    ColumnDefinition::new(11, -1, ExpectedType::String),
                ],
            ),
        ],
    );
    assert(text_content_parser_shape(parser));
    let out = match read_rows(&parser, rows) {
        Err(e) => {
            assert(contents_loaded(parser, before, rows@, language, Err(e)));
            return Err(e);
        },
        Ok(out) => out,
    };
    let ghost all = out@;
    assert forall|i: int| 0 <= i < rows@.len() implies row_readable(parser, #[trigger] rows@[i]) by {}
    let mut texts = data;
    let mut k: usize = 0;
    while k < out.len()
        invariant
            0 <= k <= out@.len(),
            out@ == all,
            out@.len() == rows@.len(),
            before == data@,
            text_content_parser_shape(parser),
            rows_read(parser, rows@, all),
            ids_known(before, all, k as int),
            contents_set(before, all, k as int, language, texts@),
        decreases out@.len() - k,
    {
        proof {
            assert(row_readable(parser, rows@[k as int]));
            reveal(row_values);
            assert(values_view(all[k as int].1@).len() == 2);
            assert(all[k as int].1@[0]@ == values_view(all[k as int].1@)[0]);
            assert(all[k as int].1@[1]@ == values_view(all[k as int].1@)[1]);
        }
        let id = int_of(&out[k].1[0]);
        let text = text_of(&out[k].1[1]);
        assert(int_at(all[k as int].1@, 0) == id);
        match fx_map_remove(&mut texts, id) {
            None => {
                let res = Err(ParsingError::UnknownId(rows[k].clone()));
                assert(!before.contains_key(int_at(all[k as int].1@, 0)));
                assert(contents_loaded(parser, before, rows@, language, res));
                return res;
            },
            Some(mut t) => {
                t.set_content(language, text.as_str());
                fx_map_insert(&mut texts, id, t);
            },
        }
        proof {
            assert(ids_known(before, all, k + 1));
            assert(texts@.dom() =~= before.dom());
        }
        k = k + 1;
    }
    let res = Ok(texts);
    assert(contents_loaded(parser, before, rows@, language, res));
    res
}

} // verus!
