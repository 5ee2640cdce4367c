//! The LINIE file: the lines of the network.
//!
//! Each row starts with the line id in its first seven characters and a
//! space, then a row kind and its value:
//!
//! * `K` the line key, which creates the line,
//! * `W` the internal designation, `N T` the short name, `L T` the long
//!   name, `R T` the region name, `D T` the description,
//! * `F` the text color and `B` the background color, as three numbers of
//!   three characters each (`0000001 F 001 002 003`).
//!
//! A row other than `K` changes the line created by the `K` row of the same
//! id. Numbers are read from their fixed-width columns with the blanks
//! around them removed; a text value is the rest of the row, trimmed.
use crate::error::{HResult, HrdfError, PResult, ParsingError};
use crate::fxmap::{fx_map_insert, fx_map_new, fx_map_remove};
use crate::models::{Color, Line, LineView};
use crate::storage::ResourceStorage;
use crate::text::{integer_in_range, str_trim, trimmed};
use rustc_hash::FxHashMap;
use vstd::prelude::*;
use vstd::string::StrSliceExecFns;
use vstd::utf8::encode_utf8;

verus! {

/// A row of the LINIE file, as read.
#[derive(Debug)]
pub enum LineType {
    /// `K`: the line key.
    Kline { id: i32, name: String },
    /// `W`: the internal designation.
    Wline { id: i32, internal_designation: String },
    /// `N T`: the short name.
    NTline { id: i32, short_name: String },
    /// `L T`: the long name.
    LTline { id: i32, long_name: String },
    /// `R T`: the region name.
    RTline { id: i32, region_name: String },
    /// `D T`: the description.
    DTline { id: i32, description: String },
    /// `F`: the text color.
    Fline { id: i32, r: i16, g: i16, b: i16 },
    /// `B`: the background color.
    Bline { id: i32, r: i16, g: i16, b: i16 },
    /// `H`: the main line (not read).
    Hline,
    /// `I`: the information texts (not read).
    Iline,
}

/// Which text of a line a row sets.
pub enum TextField {
    Key,
    InternalDesignation,
    ShortName,
    LongName,
    RegionName,
    Description,
}

/// Which color of a line a row sets.
pub enum ColorField {
    Text,
    Background,
}

/// The meaning of a LINIE row.
pub enum LineRow {
    Text(i32, TextField, Seq<char>),
    Color(i32, ColorField, i16, i16, i16),
}

impl LineRow {
    pub open spec fn id(self) -> i32 {
        match self {
            LineRow::Text(id, _, _) => id,
            LineRow::Color(id, _, _, _, _) => id,
        }
    }
}

/// The number written in the characters `c`, blanks around it removed, if it
/// lies in `lo..=hi`.
pub open spec fn numeric_field(c: Seq<char>, lo: int, hi: int) -> Option<int> {
    integer_in_range(encode_utf8(trimmed(c)), lo, hi)
}

/// The line id of a row: its first seven characters.
pub open spec fn row_id(c: Seq<char>) -> Option<int> {
    if c.len() >= 7 {
        numeric_field(c.subrange(0, 7), i32::MIN as int, i32::MAX as int)
    } else {
        None
    }
}

/// The text kind that `r` starts with, and the length of its tag.
pub open spec fn text_tag(r: Seq<char>) -> Option<(TextField, int)> {
    if r.len() >= 2 && r[0] == 'K' && r[1] == ' ' {
        Some((TextField::Key, 2))
    } else if r.len() >= 4 && r[0] == 'N' && r[1] == ' ' && r[2] == 'T' && r[3] == ' ' {
        Some((TextField::ShortName, 4))
    } else if r.len() >= 4 && r[0] == 'L' && r[1] == ' ' && r[2] == 'T' && r[3] == ' ' {
        Some((TextField::LongName, 4))
    } else if r.len() >= 2 && r[0] == 'W' && r[1] == ' ' {
        Some((TextField::InternalDesignation, 2))
    } else if r.len() >= 4 && r[0] == 'D' && r[1] == ' ' && r[2] == 'T' && r[3] == ' ' {
        Some((TextField::Description, 4))
    } else if r.len() >= 4 && r[0] == 'R' && r[1] == ' ' && r[2] == 'T' && r[3] == ' ' {
        Some((TextField::RegionName, 4))
    } else {
        None
    }
}

/// A row that sets a text of a line: the id, a space, the tag and the value.
pub open spec fn text_row(c: Seq<char>) -> Option<LineRow> {
    match row_id(c) {
        Some(id) => if c.len() >= 8 && c[7] == ' ' {
            match text_tag(c.skip(8)) {
                Some((f, n)) => Some(LineRow::Text(id as i32, f, trimmed(c.skip(8 + n)))),
                None => None,
            }
        } else {
            None
        },
        None => None,
    }
}

/// A number of a color row: three characters.
pub open spec fn color_part(r: Seq<char>, at: int) -> Option<int> {
    numeric_field(r.subrange(at, at + 3), i16::MIN as int, i16::MAX as int)
}

/// A row that sets a color of a line: the id, a space, `F ` or `B `, and
/// three numbers separated by single spaces.
pub open spec fn color_row(c: Seq<char>) -> Option<LineRow> {
    let r = c.skip(8);
    if row_id(c) is Some && c.len() >= 21 && c[7] == ' ' && (r[0] == 'F' || r[0] == 'B') && r[1]
        == ' ' && color_part(r, 2) is Some && r[5] == ' ' && color_part(r, 6) is Some && r[9]
        == ' ' && color_part(r, 10) is Some {
        Some(
            LineRow::Color(
                row_id(c)->0 as i32,
                if r[0] == 'F' {
                    ColorField::Text
                } else {
                    ColorField::Background
                },
                color_part(r, 2)->0 as i16,
                color_part(r, 6)->0 as i16,
                color_part(r, 10)->0 as i16,
            ),
        )
    } else {
        None
    }
}

/// What a row means: a text row if it reads as one, else a color row.
pub open spec fn line_row(c: Seq<char>) -> Option<LineRow> {
    if text_row(c) is Some {
        text_row(c)
    } else {
        color_row(c)
    }
}

impl LineType {
    /// The meaning of the row.
    pub open spec fn row(self) -> Option<LineRow> {
        match self {
            LineType::Kline { id, name } => Some(LineRow::Text(id, TextField::Key, name@)),
            LineType::Wline { id, internal_designation } => Some(
                LineRow::Text(id, TextField::InternalDesignation, internal_designation@),
            ),
            LineType::NTline { id, short_name } => Some(
                LineRow::Text(id, TextField::ShortName, short_name@),
            ),
            LineType::LTline { id, long_name } => Some(
                LineRow::Text(id, TextField::LongName, long_name@),
            ),
            LineType::RTline { id, region_name } => Some(
                LineRow::Text(id, TextField::RegionName, region_name@),
            ),
            LineType::DTline { id, description } => Some(
                LineRow::Text(id, TextField::Description, description@),
            ),
            LineType::Fline { id, r, g, b } => Some(LineRow::Color(id, ColorField::Text, r, g, b)),
            LineType::Bline { id, r, g, b } => Some(
                LineRow::Color(id, ColorField::Background, r, g, b),
            ),
            LineType::Hline => None,
            LineType::Iline => None,
        }
    }
}

/// The number in the characters `from..from + len` of `input`, blanks
/// around it removed.
fn read_number(input: &str, n: usize, from: usize, len: usize, lo: i64, hi: i64) -> (res: Option<i64>)
    requires
        n == input@.len(),
        from + len <= n,
        lo == i32::MIN || lo == i16::MIN,
        hi == i32::MAX || hi == i16::MAX,
    ensures
        match res {
            Some(v) => numeric_field(input@.subrange(from as int, from + len), lo as int, hi as int)
                == Some(v as int),
            None => numeric_field(input@.subrange(from as int, from + len), lo as int, hi as int) is None,
        },
{
    let part = input.substring_char(from, from + len);
    let t = str_trim(part);
    crate::text::parse_integer(t, lo, hi)
}

/// The row's characters from `from` on, trimmed, as a string.
fn read_text(input: &str, n: usize, from: usize) -> (res: String)
    requires
        n == input@.len(),
        from <= n,
    ensures
        res@ == trimmed(input@.skip(from as int)),
{
    let rest = input.substring_char(from, n);
    assert(input@.subrange(from as int, n as int) =~= input@.skip(from as int));
    str_trim(rest).to_owned()
}

/// Whether the character at `i` is `c`.
fn char_is(input: &str, n: usize, i: usize, c: char) -> (res: bool)
    requires
        n == input@.len(),
    ensures
        res == (i < n && input@[i as int] == c),
{
    i < n && input.get_char(i) == c
}

/// Reads a row that sets a text of a line (`K`, `W`, `N T`, `L T`, `D T` or
/// `R T`). The rest of the row is the value, so nothing is left over.
pub fn row_k_nt_lt_dt_rt_w_combinator(input: &str) -> (res: PResult<(&str, Option<LineType>)>)
    ensures
        match res {
            Ok((rest, t)) => {
                &&& text_row(input@) is Some
                &&& rest@.len() == 0
                &&& t matches Some(lt)
                &&& lt.row() == text_row(input@)
            },
            Err(e) => {
                &&& text_row(input@) is None
                &&& e matches ParsingError::Syntax(s)
                &&& s@ == input@
            },
        },
{
    let n = input.unicode_len();
    let id = if n >= 7 {
        read_number(input, n, 0, 7, -2147483648, 2147483647)
    } else {
        None
    };
    if id.is_none() || !char_is(input, n, 7, ' ') {
        return Err(ParsingError::Syntax(input.to_owned()));
    }
    let id = id.unwrap() as i32;
    let ghost r = input@.skip(8);
    assert(n >= 8);
    assert forall|k: int| 0 <= k < r.len() implies r[k] == input@[8 + k] by {}
    let t = if char_is(input, n, 8, 'K') && char_is(input, n, 9, ' ') {
        Some(LineType::Kline { id, name: read_text(input, n, 10) })
    } else if char_is(input, n, 8, 'N') && char_is(input, n, 9, ' ') && char_is(input, n, 10, 'T')
        && char_is(input, n, 11, ' ') {
        Some(LineType::NTline { id, short_name: read_text(input, n, 12) })
    } else if char_is(input, n, 8, 'L') && char_is(input, n, 9, ' ') && char_is(input, n, 10, 'T')
        && char_is(input, n, 11, ' ') {
        Some(LineType::LTline { id, long_name: read_text(input, n, 12) })
    } else if char_is(input, n, 8, 'W') && char_is(input, n, 9, ' ') {
        Some(LineType::Wline { id, internal_designation: read_text(input, n, 10) })
    } else if char_is(input, n, 8, 'D') && char_is(input, n, 9, ' ') && char_is(input, n, 10, 'T')
        && char_is(input, n, 11, ' ') {
        Some(LineType::DTline { id, description: read_text(input, n, 12) })
    } else if char_is(input, n, 8, 'R') && char_is(input, n, 9, ' ') && char_is(input, n, 10, 'T')
        && char_is(input, n, 11, ' ') {
        Some(LineType::RTline { id, region_name: read_text(input, n, 12) })
    } else {
        None
    };
    match t {
        Some(t) => {
            proof {
                assert(input@.skip(8).skip(2) =~= input@.skip(10));
                if input@.len() >= 12 {
                    assert(input@.skip(8).skip(4) =~= input@.skip(12));
                }
            }
            Ok((input.substring_char(n, n), Some(t)))
        },
        None => Err(ParsingError::Syntax(input.to_owned())),
    }
}

/// Reads a row that sets a color of a line (`F` or `B`); what follows the
/// third number is left over.
pub fn row_f_b_combinator(input: &str) -> (res: PResult<(&str, Option<LineType>)>)
    ensures
        match res {
            Ok((rest, t)) => {
                &&& color_row(input@) is Some
                &&& rest@ == input@.skip(21)
                &&& t matches Some(lt)
                &&& lt.row() == color_row(input@)
            },
            Err(e) => {
                &&& color_row(input@) is None
                &&& e matches ParsingError::Syntax(s)
                &&& s@ == input@
            },
        },
{
    let n = input.unicode_len();
    if n < 21 {
        return Err(ParsingError::Syntax(input.to_owned()));
    }
    let ghost c = input@;
    let ghost r = input@.skip(8);
    assert forall|k: int| 0 <= k < r.len() implies r[k] == c[8 + k] by {}
    assert forall|a: int| 0 <= a <= 10 implies #[trigger] r.subrange(a, a + 3) =~= c.subrange(
        8 + a,
        8 + a + 3,
    ) by {}
    let id = read_number(input, n, 0, 7, -2147483648, 2147483647);
    let is_f = char_is(input, n, 8, 'F');
    let is_b = char_is(input, n, 8, 'B');
    if id.is_none() || !char_is(input, n, 7, ' ') || !(is_f || is_b) || !char_is(input, n, 9, ' ') {
        return Err(ParsingError::Syntax(input.to_owned()));
    }
    let red = read_number(input, n, 10, 3, -32768, 32767);
    if red.is_none() || !char_is(input, n, 13, ' ') {
        return Err(ParsingError::Syntax(input.to_owned()));
    }
    let green = read_number(input, n, 14, 3, -32768, 32767);
    if green.is_none() || !char_is(input, n, 17, ' ') {
        return Err(ParsingError::Syntax(input.to_owned()));
    }
    let blue = read_number(input, n, 18, 3, -32768, 32767);
    if blue.is_none() {
        return Err(ParsingError::Syntax(input.to_owned()));
    }
    let id = id.unwrap() as i32;
    let r = red.unwrap() as i16;
    let g = green.unwrap() as i16;
    let b = blue.unwrap() as i16;
    let rest = input.substring_char(21, n);
    assert(input@.subrange(21, n as int) =~= input@.skip(21));
    if is_f {
        Ok((rest, Some(LineType::Fline { id, r, g, b })))
    } else {
        Ok((rest, Some(LineType::Bline { id, r, g, b })))
    }
}

/// The views of the lines of a map.
pub open spec fn lines_view(m: Map<i32, Line>) -> Map<i32, LineView> {
    m.map_values(|l: Line| l@)
}

/// A line as its `K` row creates it.
pub open spec fn fresh_line(id: i32, name: Seq<char>) -> LineView {
    LineView {
        id,
        name,
        short_name: Seq::empty(),
        long_name: Seq::empty(),
        region_name: Seq::empty(),
        internal_designation: Seq::empty(),
        description: Seq::empty(),
        text_color: Color::spec_black(),
        background_color: Color::spec_black(),
        infotext_id: -1i32,
    }
}

/// The line `v` after a row other than `K` set one of its values.
pub open spec fn updated_line(v: LineView, row: LineRow) -> LineView {
    match row {
        LineRow::Text(_, f, s) => match f {
            TextField::Key => v,
            TextField::InternalDesignation => LineView { internal_designation: s, ..v },
            TextField::ShortName => LineView { short_name: s, ..v },
            TextField::LongName => LineView { long_name: s, ..v },
            TextField::RegionName => LineView { region_name: s, ..v },
            TextField::Description => LineView { description: s, ..v },
        },
        LineRow::Color(_, f, r, g, b) => match f {
            ColorField::Text => LineView { text_color: Color::spec_new(r, g, b), ..v },
            ColorField::Background => LineView { background_color: Color::spec_new(r, g, b), ..v },
        },
    }
}

/// Whether the row is a `K` row.
pub open spec fn is_key_row(row: LineRow) -> bool {
    row matches LineRow::Text(_, TextField::Key, _)
}

/// The lines after the row `c`, or `None` when the row does not read or
/// names a line that its `K` row has not created (or one stored under
/// another id).
pub open spec fn apply_row(m: Map<i32, LineView>, c: Seq<char>) -> Option<Map<i32, LineView>> {
    match line_row(c) {
        None => None,
        Some(row) => if is_key_row(row) {
            match row {
                LineRow::Text(id, _, name) => Some(m.insert(id, fresh_line(id, name))),
                _ => None,
            }
        } else if m.contains_key(row.id()) && m[row.id()].id == row.id() {
            Some(m.insert(row.id(), updated_line(m[row.id()], row)))
        } else {
            None
        },
    }
}

/// A message for a row whose line has no `K` row.
#[verifier::external_body]
fn missing_line_message(id: i32) -> String {
    format!("For id: {id}, type K row missing.")
}

/// A message for a line stored under another id than its own.
#[verifier::external_body]
fn line_id_mismatch_message(id: i32, stored: i32) -> String {
    format!("Line id not corresponding, {id}, {stored}")
}

/// Applies one LINIE row to the lines read so far.
pub fn parse_line(line: &str, data: &mut FxHashMap<i32, Line>) -> (res: PResult<()>)
    ensures
        match apply_row(lines_view(old(data)@), line@) {
            Some(m) => res is Ok && lines_view(final(data)@) == m,
            None => res is Err && final(data)@ == old(data)@,
        },
        line_row(line@) is None <==> res matches Err(ParsingError::Syntax(_)),
        res matches Err(ParsingError::Syntax(s)) ==> s@ == line@,
        line_row(line@) is Some && res is Err ==> res matches Err(ParsingError::UnknownId(_)),
{
    let ghost old_map = data@;
    let first = row_k_nt_lt_dt_rt_w_combinator(line);
    let parsed = match first {
        Ok((_, t)) => t,
        Err(_) => match row_f_b_combinator(line) {
            Ok((_, t)) => t,
            Err(e) => {
                return Err(e);
            },
        },
    };
    let row = match parsed {
        Some(row) => row,
        None => {
            return Err(ParsingError::MissingLineType);
        },
    };
    let ghost lr = row.row()->0;
    assert(line_row(line@) == Some(lr));
    if let LineType::Kline { id, name } = row {
        fx_map_insert(data, id, Line::new(id, name));
        assert(lines_view(data@) =~= lines_view(old_map).insert(id, fresh_line(id, lr->Text_2)));
        return Ok(());
    }
    let id: i32 = match &row {
        LineType::Kline { id, .. } => *id,
        LineType::Wline { id, .. } => *id,
        LineType::NTline { id, .. } => *id,
        LineType::LTline { id, .. } => *id,
        LineType::RTline { id, .. } => *id,
        LineType::DTline { id, .. } => *id,
        LineType::Fline { id, .. } => *id,
        LineType::Bline { id, .. } => *id,
        LineType::Hline => {
            return Err(ParsingError::MissingLineType);
        },
        LineType::Iline => {
            return Err(ParsingError::MissingLineType);
        },
    };
    assert(id == lr.id());
    let mut current = match fx_map_remove(data, id) {
        Some(l) => l,
        None => {
            assert(data@ =~= old_map);
            return Err(ParsingError::UnknownId(missing_line_message(id)));
        },
    };
    if current.id() != id {
        let stored = current.id();
        fx_map_insert(data, id, current);
        assert(data@ =~= old_map);
        return Err(ParsingError::UnknownId(line_id_mismatch_message(id, stored)));
    }
    let ghost before = current@;
    match row {
        LineType::Wline { internal_designation, .. } => current.set_internal_designation(
            internal_designation,
        ),
        LineType::NTline { short_name, .. } => current.set_short_name(short_name),
        LineType::LTline { long_name, .. } => current.set_long_name(long_name),
        LineType::RTline { region_name, .. } => current.set_region_name(region_name),
        LineType::DTline { description, .. } => current.set_description(description),
        LineType::Fline { r, g, b, .. } => current.set_text_color(Color::new(r, g, b)),
        LineType::Bline { r, g, b, .. } => current.set_background_color(Color::new(r, g, b)),
        _ => {},
    }
    assert(current@ == updated_line(before, lr));
    fx_map_insert(data, id, current);
    assert(lines_view(data@) =~= lines_view(old_map).insert(id, updated_line(before, lr)));
    Ok(())
}

/// The lines that the rows `rows` describe, read in order from no line at
/// all, blank rows skipped; or the index of the first row that fails.
pub open spec fn apply_rows(rows: Seq<Seq<char>>) -> Result<Map<i32, LineView>, int>
    decreases rows.len(),
{
    if rows.len() == 0 {
        Ok(Map::empty())
    } else {
        match apply_rows(rows.drop_last()) {
            Err(i) => Err(i),
            Ok(m) => if trimmed(rows.last()).len() == 0 {
                Ok(m)
            } else {
                match apply_row(m, rows.last()) {
                    Some(m2) => Ok(m2),
                    None => Err(rows.len() - 1),
                }
            },
        }
    }
}

/// Once a row fails, the rows after it change nothing.
proof fn lemma_apply_rows_failed(rows: Seq<Seq<char>>, i: int, j: int)
    requires
        0 <= i < j <= rows.len(),
        apply_rows(rows.subrange(0, i + 1)) == Err::<Map<i32, LineView>, int>(i),
    ensures
        apply_rows(rows.subrange(0, j)) == Err::<Map<i32, LineView>, int>(i),
    decreases j - i,
{
    if j > i + 1 {
        lemma_apply_rows_failed(rows, i, j - 1);
        assert(rows.subrange(0, j).drop_last() =~= rows.subrange(0, j - 1));
    }
}

/// The characters of each row.
pub open spec fn rows_view(rows: Seq<String>) -> Seq<Seq<char>> {
    rows.map_values(|r: String| r@)
}

/// Reads the rows of the LINIE file `file`. The error of a failing row
/// names the file, the row and its index among all rows.
pub fn parse(file: &str, rows: &Vec<String>) -> (res: HResult<ResourceStorage<Line>>)
    ensures
        match apply_rows(rows_view(rows@)) {
            Ok(m) => res matches Ok(s) && lines_view(s@) == m,
            Err(i) => {
                &&& 0 <= i < rows@.len()
                &&& apply_rows(rows_view(rows@).subrange(0, i)) is Ok
                &&& apply_row(apply_rows(rows_view(rows@).subrange(0, i))->Ok_0, rows@[i]@) is None
                &&& res matches Err(HrdfError::Parsing { error, file: f, line, line_number })
                &&& f@ == file@
                &&& line@ == rows@[i]@
                &&& line_number == i
                &&& (line_row(rows@[i]@) is None <==> error matches ParsingError::Syntax(_))
            },
        },
{
    let mut data: FxHashMap<i32, Line> = fx_map_new();
    assert(lines_view(data@) =~= Map::empty());
    assert(rows_view(rows@).subrange(0, 0) =~= Seq::empty());
    let mut i: usize = 0;
    while i < rows.len()
        invariant
            0 <= i <= rows@.len(),
            apply_rows(rows_view(rows@).subrange(0, i as int)) == Ok::<Map<i32, LineView>, int>(
                lines_view(data@),
            ),
        decreases rows@.len() - i,
    {
        let ghost prefix = rows_view(rows@).subrange(0, i as int);
        let ghost next = rows_view(rows@).subrange(0, i + 1);
        assert(next.drop_last() =~= prefix);
        let row = &rows[i];
        if !str_trim(row.as_str()).is_empty() {
            match parse_line(row.as_str(), &mut data) {
                Ok(()) => {},
                Err(error) => {
                    proof {
                        lemma_apply_rows_failed(rows_view(rows@), i as int, rows@.len() as int);
                        assert(rows_view(rows@).subrange(0, rows@.len() as int) =~= rows_view(
                            rows@,
                        ));
                    }
                    return Err(
                        HrdfError::Parsing {
                            error,
                            file: file.to_owned(),
                            line: row.clone(),
                            line_number: i,
                        },
                    );
                },
            }
        }
        i = i + 1;
    }
    assert(rows_view(rows@).subrange(0, rows@.len() as int) =~= rows_view(rows@));
    Ok(ResourceStorage::new(data))
}

} // verus!
