//! The FEIERTAG file: the holidays. A row holds the day (bytes 1-10, as
//! `%d.%m.%Y`) and the name in several languages (from byte 12 on), written
//! as `text<code>` pieces, each closed by `>` (such as
//! `Neujahr<deu>Nouvel an<fra>`). Each row makes one holiday, with the ids
//! 1, 2, ... in the order of the rows.
use crate::attribute_parser::column_is;
use crate::calendar::{parsed_day_number, Date};
use crate::error::{PResult, ParsingError};
use crate::fields::{holiday_entries, holiday_name_readable, pair_texts, parse_holiday_name};
use crate::fxmap::{fx_map_insert, fx_map_new};
use crate::journey_parser::{text_at, text_of};
use crate::models::{language_of_code, Holiday, Language, LanguageMap};
use crate::parser::{split_chars, split_on, texts};
use crate::parsing::{
    read_rows,
    row_readable,
    row_values,
    rows_read,
    values_view,
    ColumnDefinition,
    ExpectedType,
    ParsedValue,
    RowDefinition,
    RowParser,
};
use crate::storage::ResourceStorage;
use rustc_hash::FxHashMap;
use vstd::prelude::*;
use vstd::string::StrSliceExecFns;

verus! {

/// The parser knows the one kind of FEIERTAG row: day (bytes 1-10) and
/// names (from byte 12 on).
pub open spec fn holiday_parser_shape(p: RowParser) -> bool {
    let d = p.definitions();
    let c = d[0].columns();
    &&& d.len() == 1
    &&& c.len() == 2
    &&& column_is(c[0], 1, 10, ExpectedType::String)
    &&& column_is(c[1], 12, -1, ExpectedType::String)
}

/// The parser of FEIERTAG rows.
pub fn holiday_row_parser() -> (res: RowParser)
    ensures
        holiday_parser_shape(res),
{
    RowParser::new(
        vec![
            RowDefinition::from_columns(
                vec![
                    ColumnDefinition::new(1, 10, ExpectedType::String),
                    ColumnDefinition::new(12, -1, ExpectedType::String),
                ],
            ),
        ],
    )
}

/// The names by language that the (code, text) entries give, a later entry
/// replacing an earlier one in the same language; `None` where a code is
/// not a language.
pub open spec fn names_by_language(entries: Seq<(Seq<char>, Seq<char>)>) -> Option<Map<Language, Seq<char>>>
    decreases entries.len(),
{
    if entries.len() == 0 {
        Some(Map::empty())
    } else {
        match names_by_language(entries.drop_last()) {
            None => None,
            Some(m) => match language_of_code(entries.last().0) {
                Some(l) => Some(m.insert(l, entries.last().1)),
                None => None,
            },
        }
    }
}

/// The first code among the entries that is not a language.
pub open spec fn first_unknown_code(entries: Seq<(Seq<char>, Seq<char>)>) -> Seq<char>
    decreases entries.len(),
{
    if entries.len() == 0 {
        Seq::empty()
    } else if names_by_language(entries.drop_last()) is None {
        first_unknown_code(entries.drop_last())
    } else {
        entries.last().0
    }
}

/// Why a row cannot be taken in.
pub enum HolidayFault {
    /// The day is not a `%d.%m.%Y` day.
    Date(Seq<char>),
    /// A piece of the names has no `<`.
    Names(Seq<char>),
    /// A code that is not a language.
    Language(Seq<char>),
}

/// What a row with day `day` and names `names` gives: the day number and
/// the names by language, or the fault.
pub open spec fn holiday_of(day: Seq<char>, names: Seq<char>) -> Result<(int, Map<Language, Seq<char>>), HolidayFault> {
    match parsed_day_number(day, "%d.%m.%Y"@) {
        None => Err(HolidayFault::Date(day)),
        Some(n) => if !holiday_name_readable(split_on(names, '>')) {
            Err(HolidayFault::Names(names))
        } else {
            let entries = holiday_entries(split_on(names, '>'));
            match names_by_language(entries) {
                Some(m) => Ok((n, m)),
                None => Err(HolidayFault::Language(first_unknown_code(entries))),
            }
        },
    }
}

/// The error is the fault.
pub open spec fn holiday_fault_is(e: ParsingError, f: HolidayFault) -> bool {
    match f {
        HolidayFault::Date(t) => e matches ParsingError::ParseDate(s) && s@ == t,
        HolidayFault::Names(t) => e matches ParsingError::Syntax(s) && s@ == t,
        HolidayFault::Language(t) => e matches ParsingError::Language(s) && s@ == t,
    }
}

/// What the `i`-th row read gives.
pub open spec fn holiday_row(out: Seq<(i32, Vec<ParsedValue>)>, i: int) -> Result<(int, Map<Language, Seq<char>>), HolidayFault> {
    holiday_of(text_at(out[i].1@, 0), text_at(out[i].1@, 1))
}

/// The holiday holds the day and the names, with id `id`.
pub open spec fn holiday_holds(h: Holiday, id: i32, day: int, names: Map<Language, Seq<char>>) -> bool {
    &&& h.spec_id() == id
    &&& h.spec_date().day_number() == day
    &&& forall|l: Language| #[trigger]
        h.name_in(l) == (if names.contains_key(l) {
            Some(names[l])
        } else {
            None
        })
}

/// What loading FEIERTAG with the parser gives: a syntax error with the
/// first row that it cannot read; else the holiday of each row under the ids
/// 1, 2, ..., or the fault of the first row that cannot be taken in.
pub open spec fn holidays_loaded(p: RowParser, rows: Seq<String>, res: PResult<ResourceStorage<Holiday>>) -> bool {
    if forall|i: int| 0 <= i < rows.len() ==> row_readable(p, #[trigger] rows[i]) {
        exists|out: Seq<(i32, Vec<ParsedValue>)>|
            #[trigger] rows_read(p, rows, out) && match res {
                Ok(storage) => (forall|i: int| 0 <= i < out.len() ==> #[trigger] holiday_row(out, i) is Ok)
                    && (forall|k: i32| #[trigger] storage@.contains_key(k) <==> 1 <= k <= out.len())
                    && (forall|k: i32| #[trigger]
                    storage@.contains_key(k) ==> holiday_holds(
                        storage@[k],
                        k,
                        holiday_row(out, k - 1)->Ok_0.0,
                        holiday_row(out, k - 1)->Ok_0.1,
                    )),
                Err(e) => exists|i: int|
                    #![trigger holiday_row(out, i)]
                    0 <= i < out.len() && (forall|j: int| 0 <= j < i ==> #[trigger] holiday_row(out, j) is Ok)
                        && (holiday_row(out, i) matches Err(f) && holiday_fault_is(e, f)),
            }
    } else {
        exists|i: int|
            0 <= i < rows.len() && !row_readable(p, rows[i]) && (forall|j: int|
                0 <= j < i ==> row_readable(p, #[trigger] rows[j])) && res == Err::<
                ResourceStorage<Holiday>,
                ParsingError,
            >(ParsingError::Syntax(rows[i]))
    }
}

/// Whether the names field can be cut into `text<code>` pieces.
fn names_readable(names: &str) -> (res: bool)
    ensures
        res == holiday_name_readable(split_on(names@, '>')),
{
    let pieces = split_chars(names, '>');
    let ghost all = split_on(names@, '>');
    let mut i: usize = 0;
    while i < pieces.len()
        invariant
            0 <= i <= pieces@.len(),
            texts(pieces@) == all,
            all == split_on(names@, '>'),
            forall|q: int|
                0 <= q < i && (#[trigger] all[q]).len() > 0 ==> split_on(all[q], '<').len() >= 2,
        decreases pieces@.len() - i,
    {
        assert(pieces@[i as int]@ == all[i as int]);
        if pieces[i].as_str().unicode_len() > 0 {
            let parts = split_chars(pieces[i].as_str(), '<');
            if parts.len() < 2 {
                assert(all[i as int].len() > 0);
                assert(split_on(all[i as int], '<').len() == parts@.len());
                assert(i < all.len());
                assert(!holiday_name_readable(all));
                return false;
            }
        }
        i = i + 1;
    }
    true
}

/// The names by language of the entries (see `names_by_language`), or the
/// first code that is not a language.
fn names_map(entries: &Vec<(String, String)>) -> (res: Result<LanguageMap, String>)
    ensures
        match res {
            Ok(m) => names_by_language(pair_texts(entries@)) matches Some(nm) && forall|l: Language| #[trigger]
                m.text_in(l) == (if nm.contains_key(l) {
                    Some(nm[l])
                } else {
                    None
                }),
            Err(c) => names_by_language(pair_texts(entries@)) is None && c@ == first_unknown_code(
                pair_texts(entries@),
            ),
        },
{
    let ghost all = pair_texts(entries@);
    let mut m = LanguageMap::new();
    let mut i: usize = 0;
    assert(all.take(0) =~= Seq::<(Seq<char>, Seq<char>)>::empty());
    while i < entries.len()
        invariant
            0 <= i <= entries@.len(),
            all == pair_texts(entries@),
            names_by_language(all.take(i as int)) matches Some(nm) && forall|l: Language| #[trigger]
                m.text_in(l) == (if nm.contains_key(l) {
                    Some(nm[l])
                } else {
                    None
                }),
        decreases entries@.len() - i,
    {
        assert(all.take(i + 1).drop_last() =~= all.take(i as int));
        assert(all[i as int] == (entries@[i as int].0@, entries@[i as int].1@));
        match Language::from_code(entries[i].0.as_str()) {
            Some(l) => {
                m.set(l, entries[i].1.as_str());
            },
            None => {
                proof {
                    lemma_unknown_code_stays(all, i as int + 1);
                }
                return Err(entries[i].0.clone());
            },
        }
        i = i + 1;
    }
    assert(all.take(entries@.len() as int) =~= all);
    Ok(m)
}

/// Once a code is unknown, the names stay undefined and that code stays the
/// first unknown one.
proof fn lemma_unknown_code_stays(entries: Seq<(Seq<char>, Seq<char>)>, k: int)
    requires
        1 <= k <= entries.len(),
        names_by_language(entries.take(k - 1)) is Some,
        language_of_code(entries[k - 1].0) is None,
    ensures
        names_by_language(entries) is None,
        first_unknown_code(entries) == entries[k - 1].0,
    decreases entries.len() - k,
{
    if k == entries.len() {
        assert(entries.drop_last() =~= entries.take(k - 1));
    } else {
        assert(entries.drop_last().take(k - 1) =~= entries.take(k - 1));
        assert(entries.drop_last()[k - 1] == entries[k - 1]);
        lemma_unknown_code_stays(entries.drop_last(), k);
    }
}

proof fn lemma_holiday_row(p: RowParser, row: String, x: (i32, Vec<ParsedValue>))
    requires
        holiday_parser_shape(p),
        row_readable(p, row),
        row_values(p, row, x),
    ensures
        x.1@.len() == 2,
        x.1@[0]@ is String,
        x.1@[1]@ is String,
{
    reveal(row_values);
    let v = x.1@;
    assert(values_view(v).len() == 2);
    assert(v[0]@ == values_view(v)[0]);
    assert(v[1]@ == values_view(v)[1]);
}

/// Loads FEIERTAG from its rows.
#[verifier::rlimit(50)]
pub fn parse_holiday_rows(rows: &Vec<String>) -> (res: PResult<ResourceStorage<Holiday>>)
    requires
        rows@.len() < i32::MAX,
    ensures
        exists|p: RowParser| holiday_parser_shape(p) && holidays_loaded(p, rows@, res),
{
    let parser = holiday_row_parser();
    let out = match read_rows(&parser, rows) {
        Err(e) => {
            assert(holidays_loaded(parser, rows@, Err(e)));
            return Err(e);
        },
        Ok(out) => out,
    };
    let ghost all = out@;
    assert forall|i: int| 0 <= i < rows@.len() implies row_readable(parser, #[trigger] rows@[i]) by {}
    let mut data: FxHashMap<i32, Holiday> = fx_map_new();
    let mut k: usize = 0;
    while k < out.len()
        invariant
            0 <= k <= out@.len(),
            out@ == all,
            all.len() < i32::MAX,
            holiday_parser_shape(parser),
            rows_read(parser, rows@, all),
            forall|i: int| 0 <= i < k ==> #[trigger] holiday_row(all, i) is Ok,
            forall|q: i32| #[trigger] data@.contains_key(q) <==> 1 <= q <= k,
            forall|q: i32| #[trigger]
                data@.contains_key(q) ==> holiday_holds(
                    data@[q],
                    q,
                    holiday_row(all, q - 1)->Ok_0.0,
                    holiday_row(all, q - 1)->Ok_0.1,
                ),
        decreases out@.len() - k,
    {
        proof {
            assert(row_readable(parser, rows@[k as int]));
            lemma_holiday_row(parser, rows@[k as int], all[k as int]);
        }
        let day_text = text_of(&out[k].1[0]);
        let names_text = text_of(&out[k].1[1]);
        let day = match Date::parse(day_text.as_str(), "%d.%m.%Y") {
            Some(d) => d,
            None => {
                let res = Err(ParsingError::ParseDate(day_text));
                assert(holiday_row(all, k as int) matches Err(f) && holiday_fault_is(res->Err_0, f));
                assert(holidays_loaded(parser, rows@, res));
                return res;
            },
        };
        if !names_readable(names_text.as_str()) {
            let res = Err(ParsingError::Syntax(names_text));
            assert(holiday_row(all, k as int) matches Err(f) && holiday_fault_is(res->Err_0, f));
            assert(holidays_loaded(parser, rows@, res));
            return res;
        }
        let entries = parse_holiday_name(names_text);
        let names = match names_map(&entries) {
            Ok(m) => m,
            Err(code) => {
                let res = Err(ParsingError::Language(code));
                assert(holiday_row(all, k as int) matches Err(f) && holiday_fault_is(res->Err_0, f));
                assert(holidays_loaded(parser, rows@, res));
                return res;
            },
        };
        let id = (k + 1) as i32;
        let h = Holiday::new(id, day, names);
        assert(holiday_row(all, k as int) is Ok);
        assert(holiday_holds(h, id, holiday_row(all, k as int)->Ok_0.0, holiday_row(all, k as int)->Ok_0.1));
        fx_map_insert(&mut data, id, h);
        k = k + 1;
    }
    let res = ResourceStorage::new(data);
    assert(holidays_loaded(parser, rows@, Ok(res)));
    Ok(res)
}

} // verus!
