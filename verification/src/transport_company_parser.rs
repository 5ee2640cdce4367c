//! The BETRIEB_DE, BETRIEB_EN, BETRIEB_FR and BETRIEB_IT files: the
//! transport companies. Each file has two kinds of rows, told by byte 7:
//! `:` rows give a company's id (bytes 1-5) and administrations (the words
//! from byte 9 on); `K` rows give a company's id and its short, long and
//! full names in the file's language (from byte 9 on, see
//! `parse_designations`). The companies are those of the `:` rows of
//! BETRIEB_DE (a later row replacing an earlier one with the same id); each
//! file then names them in its language.
use crate::attribute_parser::column_is;
use crate::companies::{designation_marker, parse_designations, regex_split_pieces};
use crate::error::{PResult, ParsingError};
use crate::fields::{parse_administrations, words};
use crate::fxmap::{fx_map_insert, fx_map_new, fx_map_remove};
use crate::journey_parser::{int_at, int_of, text_at, text_of};
use crate::models::{Language, TransportCompany};
use crate::parser::without_char;
use crate::parsing::{
    read_rows,
    row_readable,
    row_values,
    rows_read,
    values_view,
    ColumnDefinition,
    ExpectedType,
    ParsedValue,
    RowDefinition,
    RowMatcher,
    RowParser,
};
use rustc_hash::FxHashMap;
use vstd::prelude::*;

verus! {

/// The matcher compares byte 7 with `value`.
pub open spec fn byte_7_matcher(d: RowDefinition, value: Seq<char>) -> bool {
    d.spec_row_matcher() matches Some(m) && m.pattern_text() is None && m.spec_start() == 7
        && m.spec_length() == 1 && m.value_text() == value && m.spec_should_equal_value()
}

/// The parser knows both kinds of rows; the kind with id `with_columns`
/// (1 for `K`, 2 for `:`) has the columns id (bytes 1-5) and text (from
/// byte 9 on), the other none.
pub open spec fn company_parser_shape(p: RowParser, with_columns: i32) -> bool {
    let d = p.definitions();
    &&& d.len() == 2
    &&& d[0].spec_id() == 1 && byte_7_matcher(d[0], "K"@)
    &&& d[1].spec_id() == 2 && byte_7_matcher(d[1], ":"@)
    &&& forall|k: int|
        0 <= k < 2 ==> if k + 1 == with_columns {
            &&& (#[trigger] d[k]).columns().len() == 2
            &&& column_is(d[k].columns()[0], 1, 5, ExpectedType::Integer32)
            &&& column_is(d[k].columns()[1], 9, -1, ExpectedType::String)
        } else {
            d[k].columns().len() == 0
        }
}

/// The parser of BETRIEB rows whose kind `with_columns` carries the values.
fn company_row_parser(with_columns: i32) -> (res: RowParser)
    requires
        with_columns == 1 || with_columns == 2,
    ensures
        company_parser_shape(res, with_columns),
{
    let columns = || -> (v: Vec<ColumnDefinition>)
        ensures
            v@.len() == 2,
            column_is(v@[0], 1, 5, ExpectedType::Integer32),
            column_is(v@[1], 9, -1, ExpectedType::String),
        {
            vec![
                ColumnDefinition::new(1, 5, ExpectedType::Integer32),
                ColumnDefinition::new(9, -1, ExpectedType::String),
            ]
        };
    let (k_columns, colon_columns) = if with_columns == 1 {
        (columns(), Vec::new())
    } else {
        (Vec::new(), columns())
    };
    let res = RowParser::new(
        vec![
            RowDefinition::new(1, RowMatcher::new(7, 1, "K", true), k_columns),
            RowDefinition::new(2, RowMatcher::new(7, 1, ":", true), colon_columns),
        ],
    );
    assert(forall|k: int| 0 <= k < 2 ==> #[trigger] res.definitions()[k] == res.definitions()[k]);
    res
}

/// A syntax error with the first row that the parser cannot read.
pub open spec fn first_unread<T>(p: RowParser, rows: Seq<String>, res: PResult<T>) -> bool {
    exists|i: int|
        0 <= i < rows.len() && !row_readable(p, rows[i]) && (forall|j: int|
            0 <= j < i ==> row_readable(p, #[trigger] rows[j])) && res == Err::<T, ParsingError>(
            ParsingError::Syntax(rows[i]),
        )
}

/// Among the first `n` rows read, the text of the last row of kind `kind`
/// with id `q`.
pub open spec fn last_of_kind(out: Seq<(i32, Vec<ParsedValue>)>, n: int, kind: i32, q: i32) -> Option<
    Seq<char>,
>
    decreases n,
{
    if n <= 0 {
        None
    } else if out[n - 1].0 == kind && int_at(out[n - 1].1@, 0) == q {
        Some(text_at(out[n - 1].1@, 1))
    } else {
        last_of_kind(out, n - 1, kind, q)
    }
}

/// The companies after the first `n` rows read: one for each id of a `:`
/// row, with the administrations of the last such row and no names.
pub open spec fn companies_made(out: Seq<(i32, Vec<ParsedValue>)>, n: int, m: Map<i32, TransportCompany>) -> bool {
    &&& forall|q: i32| #[trigger] m.contains_key(q) <==> last_of_kind(out, n, 2, q) is Some
    &&& forall|q: i32| #[trigger]
        m.contains_key(q) ==> m[q].spec_id() == q && m[q].administrations_text() == words(
            last_of_kind(out, n, 2, q)->0,
        ) && forall|l: Language| #[trigger]
            m[q].spec_short_name().text_in(l) is None && m[q].spec_long_name().text_in(l) is None
                && m[q].spec_full_name().text_in(l) is None
}

/// What reading BETRIEB_DE for the companies gives: a syntax error with the
/// first row that the parser cannot read; else the companies.
pub open spec fn companies_loaded(p: RowParser, rows: Seq<String>, res: PResult<FxHashMap<i32, TransportCompany>>) -> bool {
    if forall|i: int| 0 <= i < rows.len() ==> row_readable(p, #[trigger] rows[i]) {
        exists|out: Seq<(i32, Vec<ParsedValue>)>|
            #[trigger] rows_read(p, rows, out) && (res matches Ok(m) && companies_made(
                out,
                out.len() as int,
                m@,
            ))
    } else {
        first_unread(p, rows, res)
    }
}

proof fn lemma_company_row(p: RowParser, with_columns: i32, row: String, x: (i32, Vec<ParsedValue>))
    requires
        company_parser_shape(p, with_columns),
        row_readable(p, row),
        row_values(p, row, x),
    ensures
        x.0 == 1 || x.0 == 2,
        x.0 == with_columns ==> x.1@.len() == 2 && x.1@[0]@ is Integer32 && x.1@[1]@ is String,
{
    reveal(row_readable);
    reveal(row_values);
    let b = vstd::utf8::encode_utf8(row@);
    crate::parsing::lemma_matching_kind_in_range(p.definitions(), b, 0);
    let k = p.kind_of(b)->0;
    assert(p.definitions()[k] == p.definitions()[k]);
    let v = x.1@;
    if x.0 == with_columns {
        assert(values_view(v).len() == 2);
        assert(v[0]@ == values_view(v)[0]);
        assert(v[1]@ == values_view(v)[1]);
    }
}

/// Reads the companies from the rows of BETRIEB_DE: one for each id of a `:`
/// row, with its administrations and no names yet.
pub fn parse_transport_company_ids(rows: &Vec<String>) -> (res: PResult<FxHashMap<i32, TransportCompany>>)
    ensures
        exists|p: RowParser| company_parser_shape(p, 2) && companies_loaded(p, rows@, res),
{
    let parser = company_row_parser(2);
    let out = match read_rows(&parser, rows) {
        Err(e) => {
            assert(companies_loaded(parser, rows@, Err(e)));
            return Err(e);
        },
        Ok(out) => out,
    };
    let ghost all = out@;
    assert forall|i: int| 0 <= i < rows@.len() implies row_readable(parser, #[trigger] rows@[i]) by {}
    let mut data: FxHashMap<i32, TransportCompany> = fx_map_new();
    let mut k: usize = 0;
    while k < out.len()
        invariant
            0 <= k <= out@.len(),
            out@ == all,
            company_parser_shape(parser, 2),
            rows_read(parser, rows@, all),
            companies_made(all, k as int, data@),
        decreases out@.len() - k,
    {
        proof {
            assert(row_readable(parser, rows@[k as int]));
            lemma_company_row(parser, 2, rows@[k as int], all[k as int]);
        }
        if out[k].0 == 2 {
            let id = int_of(&out[k].1[0]);
            let administrations = parse_administrations(text_of(&out[k].1[1]));
            let mut c = TransportCompany::new(id);
            c.set_administrations(administrations);
            fx_map_insert(&mut data, id, c);
        }
        k = k + 1;
    }
    let res = Ok(data);
    assert(companies_loaded(parser, rows@, res));
    res
}

/// The short, long and full names that a designations field gives (see
/// `parse_designations`).
pub open spec fn company_names(d: Seq<char>) -> Option<(Seq<char>, Seq<char>, Seq<char>)> {
    match regex_split_pieces(designation_marker(), d) {
        Some(p) => if p.len() >= 3 {
            Some((without_char(p[0], '"'), without_char(p[1], '"'), without_char(p[2], '"')))
        } else {
            None
        },
        None => None,
    }
}

/// The `i`-th row read can be taken in: a `:` row, or a `K` row whose names
/// can be read and whose company exists.
pub open spec fn name_row_ok(before: Map<i32, TransportCompany>, out: Seq<(i32, Vec<ParsedValue>)>, i: int) -> bool {
    out[i].0 != 1 || (company_names(text_at(out[i].1@, 1)) is Some && before.contains_key(
        int_at(out[i].1@, 0),
    ))
}

/// The companies named by the first `n` rows read: each that a `K` row names
/// has, in `language`, the names of the last such row; the rest is kept.
pub open spec fn names_set(
    before: Map<i32, TransportCompany>,
    out: Seq<(i32, Vec<ParsedValue>)>,
    n: int,
    language: Language,
    m: Map<i32, TransportCompany>,
) -> bool {
    &&& m.dom() == before.dom()
    &&& forall|q: i32| #[trigger]
        m.contains_key(q) ==> {
            let c = m[q];
            let b = before[q];
            let names = company_names(last_of_kind(out, n, 1, q)->0)->0;
            &&& c.spec_id() == b.spec_id()
            &&& c.administrations_text() == b.administrations_text()
            &&& forall|l: Language| #[trigger]
                c.spec_short_name().text_in(l) == (if l == language && last_of_kind(out, n, 1, q) is Some {
                    Some(names.0)
                } else {
                    b.spec_short_name().text_in(l)
                })
            &&& forall|l: Language| #[trigger]
                c.spec_long_name().text_in(l) == (if l == language && last_of_kind(out, n, 1, q) is Some {
                    Some(names.1)
                } else {
                    b.spec_long_name().text_in(l)
                })
            &&& forall|l: Language| #[trigger]
                c.spec_full_name().text_in(l) == (if l == language && last_of_kind(out, n, 1, q) is Some {
                    Some(names.2)
                } else {
                    b.spec_full_name().text_in(l)
                })
        }
}

/// What applying a BETRIEB file in `language` gives: a syntax error with the
/// first row that the parser cannot read; for the first `K` row that cannot
/// be taken in, a syntax error with its names field (where the names cannot
/// be read) or an unknown id error with the row; else the companies named.
pub open spec fn names_loaded(
    p: RowParser,
    before: Map<i32, TransportCompany>,
    rows: Seq<String>,
    language: Language,
    res: PResult<FxHashMap<i32, TransportCompany>>,
) -> bool {
    if forall|i: int| 0 <= i < rows.len() ==> row_readable(p, #[trigger] rows[i]) {
        exists|out: Seq<(i32, Vec<ParsedValue>)>|
            #[trigger] rows_read(p, rows, out) && if forall|i: int|
                0 <= i < out.len() ==> #[trigger] name_row_ok(before, out, i) {
                (res matches Ok(m) && names_set(before, out, out.len() as int, language, m@))
            } else {
                exists|i: int|
                    #![trigger name_row_ok(before, out, i)]
                    0 <= i < out.len() && !name_row_ok(before, out, i) && (forall|j: int|
                        0 <= j < i ==> #[trigger] name_row_ok(before, out, j)) && if company_names(
                        text_at(out[i].1@, 1),
                    ) is None {
                        (res matches Err(e) && e matches ParsingError::Syntax(s) && s@ == text_at(
                            out[i].1@,
                            1,
                        ))
                    } else {
                        res == Err::<FxHashMap<i32, TransportCompany>, ParsingError>(
                            ParsingError::UnknownId(rows[i]),
                        )
                    }
            }
    } else {
        first_unread(p, rows, res)
    }
}

/// Names the companies in `language` from the rows of the BETRIEB file of
/// that language.
#[verifier::rlimit(80)]
pub fn apply_transport_company_names(
    data: FxHashMap<i32, TransportCompany>,
    rows: &Vec<String>,
    language: Language,
) -> (res: PResult<FxHashMap<i32, TransportCompany>>)
    ensures
        exists|p: RowParser| company_parser_shape(p, 1) && names_loaded(p, data@, rows@, language, res),
{
    let ghost before = data@;
    let parser = company_row_parser(1);
    let out = match read_rows(&parser, rows) {
        Err(e) => {
            assert(names_loaded(parser, before, rows@, language, Err(e)));
            return Err(e);
        },
        Ok(out) => out,
    };
    let ghost all = out@;
    assert forall|i: int| 0 <= i < rows@.len() implies row_readable(parser, #[trigger] rows@[i]) by {}
    let mut companies = data;
    let mut k: usize = 0;
    while k < out.len()
        invariant
            0 <= k <= out@.len(),
            out@ == all,
            out@.len() == rows@.len(),
            before == data@,
            company_parser_shape(parser, 1),
            rows_read(parser, rows@, all),
            forall|i: int| 0 <= i < k ==> #[trigger] name_row_ok(before, all, i),
            names_set(before, all, k as int, language, companies@),
        decreases out@.len() - k,
    {
        proof {
            assert(row_readable(parser, rows@[k as int]));
            lemma_company_row(parser, 1, rows@[k as int], all[k as int]);
        }
        if out[k].0 == 1 {
            let id = int_of(&out[k].1[0]);
            let field = text_of(&out[k].1[1]);
            let ghost f = field@;
            let names = match parse_designations(field) {
                Some(n) => n,
                None => {
                    let res = Err(ParsingError::Syntax(text_of(&out[k].1[1])));
                    assert(!name_row_ok(before, all, k as int));
                    assert(names_loaded(parser, before, rows@, language, res));
                    return res;
                },
            };
            match fx_map_remove(&mut companies, id) {
                None => {
                    let res = Err(ParsingError::UnknownId(rows[k].clone()));
                    assert(!name_row_ok(before, all, k as int));
                    assert(names_loaded(parser, before, rows@, language, res));
                    return res;
                },
                Some(mut c) => {
                    c.set_short_name(language, names.0.as_str());
                    c.set_long_name(language, names.1.as_str());
                    c.set_full_name(language, names.2.as_str());
                    fx_map_insert(&mut companies, id, c);
                },
            }
            assert(name_row_ok(before, all, k as int));
        }
        proof {
            assert(companies@.dom() =~= before.dom());
        }
        k = k + 1;
    }
    let res = Ok(companies);
    assert(names_loaded(parser, before, rows@, language, res));
    res
}

} // verus!
