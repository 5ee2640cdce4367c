//! Fixed-column rows: which kind a row is, and the values of its columns.
//!
//! Columns are given by byte positions, counted from 1. A row's kind is told
//! by a matcher that compares a few of its bytes with a value.
use crate::error::{PResult, ParsingError};
use crate::text::{integer_in_range, parse_integer, str_byte_range, str_equals, str_trim, trimmed};
use vstd::prelude::*;
use vstd::string::StringSliceAdditionalSpecFns;
use vstd::utf8::{decode_utf8, encode_utf8};

verus! {

/// The type of a column.
#[derive(Clone, Copy, Debug, PartialEq, Eq, Structural)]
pub enum ExpectedType {
    Float,
    Integer16,
    Integer32,
    String,
    OptionInteger16,
    OptionInteger32,
}

/// The value of a column. A float column keeps its text, trimmed: its
/// number is read where floating point is at hand.
#[derive(Debug)]
pub enum ParsedValue {
    Float(String),
    Integer16(i16),
    Integer32(i32),
    String(String),
    OptionInteger16(Option<i16>),
    OptionInteger32(Option<i32>),
}

/// What a column value holds.
pub enum ParsedView {
    Float(Seq<char>),
    Integer16(i16),
    Integer32(i32),
    String(Seq<char>),
    OptionInteger16(Option<i16>),
    OptionInteger32(Option<i32>),
}

impl View for ParsedValue {
    type V = ParsedView;

    open spec fn view(&self) -> ParsedView {
        match self {
            ParsedValue::Float(s) => ParsedView::Float(s@),
            ParsedValue::Integer16(x) => ParsedView::Integer16(*x),
            ParsedValue::Integer32(x) => ParsedView::Integer32(*x),
            ParsedValue::String(s) => ParsedView::String(s@),
            ParsedValue::OptionInteger16(x) => ParsedView::OptionInteger16(*x),
            ParsedValue::OptionInteger32(x) => ParsedView::OptionInteger32(*x),
        }
    }
}

/// The characters of the bytes `start..stop` of a row.
pub open spec fn field(b: Seq<u8>, start: int, stop: int) -> Seq<char> {
    decode_utf8(b.subrange(start, stop))
}

/// The bytes `start..stop` can be taken out of the row: they lie in it and
/// both ends are character boundaries.
pub open spec fn field_in_row(b: Seq<u8>, start: int, stop: int) -> bool {
    0 <= start <= stop <= b.len() && vstd::utf8::is_char_boundary(b, start)
        && vstd::utf8::is_char_boundary(b, stop)
}

/// What `regex::Regex::is_match` answers for the pattern on the text, where
/// the pattern compiles (`None` where `regex::Regex::new` refuses it).
pub uninterp spec fn regex_match_outcome(pattern: Seq<char>, text: Seq<char>) -> Option<bool>;

/// Compiles `pattern` with `regex::Regex::new` and, where it compiles, tells
/// whether it matches somewhere in `text` (`Regex::is_match`). The contract
/// names the answer and says nothing more of it: what a regular expression
/// matches is the `regex` crate's to decide.
#[verifier::external_body]
fn regex_is_match(pattern: &str, text: &str) -> (res: Option<bool>)
    ensures
        res == regex_match_outcome(pattern@, text@),
{
    regex::Regex::new(pattern).ok().map(|re| re.is_match(text))
}

/// Tells a kind of row, in one of two ways. With a pattern, the row is of the
/// kind when the regular expression matches it. Without one, it compares
/// `length` bytes from byte `start` (counted from 1) with `value`: the row is
/// of the kind when they are equal (or, with `should_equal_value` false, when
/// they differ).
pub struct RowMatcher {
    start: usize,
    length: usize,
    value: String,
    should_equal_value: bool,
    pattern: Option<String>,
}

impl RowMatcher {
    pub closed spec fn spec_start(self) -> usize {
        self.start
    }

    pub closed spec fn spec_length(self) -> usize {
        self.length
    }

    pub closed spec fn value_text(self) -> Seq<char> {
        self.value@
    }

    pub closed spec fn spec_should_equal_value(self) -> bool {
        self.should_equal_value
    }

    pub closed spec fn pattern_text(self) -> Option<Seq<char>> {
        match self.pattern {
            Some(p) => Some(p@),
            None => None,
        }
    }

    /// The matcher can look at the row: its pattern compiles, or its bytes
    /// lie in the row.
    pub open spec fn applies_to(self, b: Seq<u8>) -> bool {
        match self.pattern_text() {
            Some(p) => regex_match_outcome(p, decode_utf8(b)) is Some,
            None => self.spec_start() >= 1 && field_in_row(
                b,
                self.spec_start() - 1,
                self.spec_start() - 1 + self.spec_length(),
            ),
        }
    }

    /// The row is of the matcher's kind.
    pub open spec fn matches(self, b: Seq<u8>) -> bool {
        match self.pattern_text() {
            Some(p) => regex_match_outcome(p, decode_utf8(b)) == Some(true),
            None => self.spec_should_equal_value() == (field(
                b,
                self.spec_start() - 1,
                self.spec_start() - 1 + self.spec_length(),
            ) == self.value_text()),
        }
    }

    /// A matcher.
    pub fn new(start: usize, length: usize, value: &str, should_equal_value: bool) -> (res: RowMatcher)
        ensures
            res.spec_start() == start,
            res.spec_length() == length,
            res.value_text() == value@,
            res.spec_should_equal_value() == should_equal_value,
            res.pattern_text() is None,
    {
        RowMatcher { start, length, value: value.to_owned(), should_equal_value, pattern: None }
    }

    /// A matcher that tells its rows by a regular expression.
    pub fn from_pattern(pattern: &str) -> (res: RowMatcher)
        ensures
            res.pattern_text() == Some(pattern@),
    {
        RowMatcher {
            start: 0,
            length: 0,
            value: String::new(),
            should_equal_value: true,
            pattern: Some(pattern.to_owned()),
        }
    }

    /// Whether the matcher can look at the row.
    pub fn can_look_at(&self, row: &str) -> (res: bool)
        ensures
            res == self.applies_to(row.spec_bytes()),
    {
        if let Some(p) = &self.pattern {
            proof {
                vstd::utf8::encode_utf8_decode_utf8(row@);
            }
            return regex_is_match(p.as_str(), row).is_some();
        }
        let n = row.as_bytes().len();
        if self.start == 0 {
            return false;
        }
        let start = self.start - 1;
        if self.length > usize::MAX - start {
            assert(start + self.length > n);
            return false;
        }
        str_byte_range(row, start, start + self.length).is_some()
    }

    /// Whether the row is of the matcher's kind.
    pub fn match_row(&self, row: &str) -> (res: bool)
        requires
            self.applies_to(row.spec_bytes()),
        ensures
            res == self.matches(row.spec_bytes()),
    {
        if let Some(p) = &self.pattern {
            proof {
                vstd::utf8::encode_utf8_decode_utf8(row@);
            }
            return match regex_is_match(p.as_str(), row) {
                Some(b) => b,
                None => false,
            };
        }
        let n = row.as_bytes().len();
        let start = self.start - 1;
        let target = match str_byte_range(row, start, start + self.length) {
            Some(t) => t,
            None => {
                assert(false);
                return false;
            },
        };
        proof {
            vstd::utf8::encode_utf8_decode_utf8(target@);
        }
        self.should_equal_value == str_equals(target, self.value.as_str())
    }
}

/// A column: bytes `start` to `stop` (counted from 1, both included; a stop
/// of -1 means the end of the row) and the type of its value.
pub struct ColumnDefinition {
    start: usize,
    stop: isize,
    expected_type: ExpectedType,
}

impl ColumnDefinition {
    pub closed spec fn spec_start(self) -> usize {
        self.start
    }

    pub closed spec fn spec_stop(self) -> isize {
        self.stop
    }

    pub closed spec fn spec_expected_type(self) -> ExpectedType {
        self.expected_type
    }

    /// A column.
    pub fn new(start: usize, stop: isize, expected_type: ExpectedType) -> (res: ColumnDefinition)
        ensures
            res.spec_start() == start,
            res.spec_stop() == stop,
            res.spec_expected_type() == expected_type,
    {
        ColumnDefinition { start, stop, expected_type }
    }

    /// The byte where the column ends (exclusive) in a row of `len` bytes.
    pub open spec fn end_in(self, len: int) -> int {
        if self.spec_stop() == -1 {
            len
        } else {
            self.spec_stop() as int
        }
    }

    /// The column's text in the row, blanks around it removed.
    pub open spec fn text_in(self, b: Seq<u8>) -> Seq<char> {
        trimmed(field(b, self.spec_start() - 1, self.end_in(b.len() as int)))
    }

    /// The column can be read from the row: its bytes lie in it, and an
    /// integer column holds an integer of its type.
    pub open spec fn readable_in(self, b: Seq<u8>) -> bool {
        &&& self.spec_start() >= 1
        &&& (self.spec_stop() == -1 || self.spec_stop() >= 0)
        &&& field_in_row(b, self.spec_start() - 1, self.end_in(b.len() as int))
        &&& (self.spec_expected_type() == ExpectedType::Integer16 ==> integer_in_range(
            encode_utf8(self.text_in(b)),
            i16::MIN as int,
            i16::MAX as int,
        ) is Some)
        &&& (self.spec_expected_type() == ExpectedType::Integer32 ==> integer_in_range(
            encode_utf8(self.text_in(b)),
            i32::MIN as int,
            i32::MAX as int,
        ) is Some)
    }

    /// The value of the column in the row.
    pub open spec fn value_in(self, b: Seq<u8>) -> ParsedView {
        let t = self.text_in(b);
        let e = encode_utf8(t);
        match self.spec_expected_type() {
            ExpectedType::Float => ParsedView::Float(t),
            ExpectedType::Integer16 => ParsedView::Integer16(
                integer_in_range(e, i16::MIN as int, i16::MAX as int)->0 as i16,
            ),
            ExpectedType::Integer32 => ParsedView::Integer32(
                integer_in_range(e, i32::MIN as int, i32::MAX as int)->0 as i32,
            ),
            ExpectedType::String => ParsedView::String(t),
            ExpectedType::OptionInteger16 => ParsedView::OptionInteger16(
                match integer_in_range(e, i16::MIN as int, i16::MAX as int) {
                    Some(v) => Some(v as i16),
                    None => None,
                },
            ),
            ExpectedType::OptionInteger32 => ParsedView::OptionInteger32(
                match integer_in_range(e, i32::MIN as int, i32::MAX as int) {
                    Some(v) => Some(v as i32),
                    None => None,
                },
            ),
        }
    }

    /// Whether the column can be read from the row.
    pub fn can_read(&self, row: &str) -> (res: bool)
        ensures
            res == self.readable_in(row.spec_bytes()),
    {
        if self.start == 0 {
            return false;
        }
        if self.stop != -1 && self.stop < 0 {
            return false;
        }
        let n = row.as_bytes().len();
        let start = self.start - 1;
        let stop: usize = if self.stop == -1 {
            n
        } else {
            self.stop as usize
        };
        let raw = match str_byte_range(row, start, stop) {
            Some(t) => t,
            None => {
                return false;
            },
        };
        proof {
            vstd::utf8::encode_utf8_decode_utf8(raw@);
        }
        let value = str_trim(raw);
        match self.expected_type {
            ExpectedType::Integer16 => parse_integer(value, -32768, 32767).is_some(),
            ExpectedType::Integer32 => parse_integer(value, -2147483648, 2147483647).is_some(),
            _ => true,
        }
    }

    /// Reads the column from the row.
    fn read(&self, row: &str) -> (res: ParsedValue)
        requires
            self.readable_in(row.spec_bytes()),
        ensures
            res@ == self.value_in(row.spec_bytes()),
    {
        let n = row.as_bytes().len();
        let start = self.start - 1;
        let stop: usize = if self.stop == -1 {
            n
        } else {
            self.stop as usize
        };
        let raw = match str_byte_range(row, start, stop) {
            Some(t) => t,
            None => {
                assert(false);
                return ParsedValue::String(String::new());
            },
        };
        proof {
            vstd::utf8::encode_utf8_decode_utf8(raw@);
        }
        let value = str_trim(raw);
        match self.expected_type {
            ExpectedType::Float => ParsedValue::Float(value.to_owned()),
            ExpectedType::Integer16 => match parse_integer(value, -32768, 32767) {
                Some(v) => ParsedValue::Integer16(v as i16),
                None => {
                    assert(false);
                    ParsedValue::Integer16(0)
                },
            },
            ExpectedType::Integer32 => match parse_integer(value, -2147483648, 2147483647) {
                Some(v) => ParsedValue::Integer32(v as i32),
                None => {
                    assert(false);
                    ParsedValue::Integer32(0)
                },
            },
            ExpectedType::String => ParsedValue::String(value.to_owned()),
            ExpectedType::OptionInteger16 => match parse_integer(value, -32768, 32767) {
                Some(v) => ParsedValue::OptionInteger16(Some(v as i16)),
                None => ParsedValue::OptionInteger16(None),
            },
            ExpectedType::OptionInteger32 => match parse_integer(value, -2147483648, 2147483647) {
                Some(v) => ParsedValue::OptionInteger32(Some(v as i32)),
                None => ParsedValue::OptionInteger32(None),
            },
        }
    }
}

/// A kind of row: its id, the matcher that tells it (where a file has more
/// than one kind), and its columns.
pub struct RowDefinition {
    id: i32,
    row_matcher: Option<RowMatcher>,
    row_configuration: Vec<ColumnDefinition>,
}

impl RowDefinition {
    pub closed spec fn spec_id(self) -> i32 {
        self.id
    }

    pub closed spec fn spec_row_matcher(self) -> Option<RowMatcher> {
        self.row_matcher
    }

    pub closed spec fn columns(self) -> Seq<ColumnDefinition> {
        self.row_configuration@
    }

    /// A kind of row told by `row_matcher`.
    pub fn new(id: i32, row_matcher: RowMatcher, row_configuration: Vec<ColumnDefinition>) -> (res:
        RowDefinition)
        ensures
            res.spec_id() == id,
            res.spec_row_matcher() == Some(row_matcher),
            res.columns() == row_configuration@,
    {
        RowDefinition { id, row_matcher: Some(row_matcher), row_configuration }
    }

    /// The only kind of row of a file: id 1, no matcher.
    pub fn from_columns(row_configuration: Vec<ColumnDefinition>) -> (res: RowDefinition)
        ensures
            res.spec_id() == 1,
            res.spec_row_matcher() is None,
            res.columns() == row_configuration@,
    {
        RowDefinition { id: 1, row_matcher: None, row_configuration }
    }
}

/// From the `i`-th kind on, the first whose matcher tells the row; `None`
/// where a kind before it has no matcher or cannot look at the row, or where
/// none tells it.
pub open spec fn matching_kind(defs: Seq<RowDefinition>, b: Seq<u8>, i: int) -> Option<int>
    decreases defs.len() - i,
{
    if i >= defs.len() || i < 0 {
        None
    } else {
        match defs[i].spec_row_matcher() {
            None => None,
            Some(m) => if !m.applies_to(b) {
                None
            } else if m.matches(b) {
                Some(i)
            } else {
                matching_kind(defs, b, i + 1)
            },
        }
    }
}

/// The kind found lies in the definitions, from the `i`-th on.
pub proof fn lemma_matching_kind_in_range(defs: Seq<RowDefinition>, b: Seq<u8>, i: int)
    ensures
        matching_kind(defs, b, i) matches Some(j) ==> i <= j < defs.len(),
    decreases defs.len() - i,
{
    if 0 <= i < defs.len() {
        lemma_matching_kind_in_range(defs, b, i + 1);
    }
}

/// A row read: the id of its kind, the bytes it takes in the file (with its
/// line break `\r\n`), and the values of its columns.
pub type ParsedRow = (i32, usize, Vec<ParsedValue>);

/// Reads rows of the kinds it knows.
pub struct RowParser {
    row_definitions: Vec<RowDefinition>,
}

impl RowParser {
    pub closed spec fn definitions(self) -> Seq<RowDefinition> {
        self.row_definitions@
    }

    /// The kind of the row: the only kind where there is one, else the first
    /// whose matcher tells it.
    pub open spec fn kind_of(self, b: Seq<u8>) -> Option<int> {
        if self.definitions().len() == 1 {
            Some(0)
        } else {
            matching_kind(self.definitions(), b, 0)
        }
    }

    /// A parser for the given kinds of rows.
    pub fn new(row_definitions: Vec<RowDefinition>) -> (res: RowParser)
        ensures
            res.definitions() == row_definitions@,
    {
        RowParser { row_definitions }
    }

    /// The kind of the row.
    pub fn row_definition(&self, row: &str) -> (res: &RowDefinition)
        requires
            self.kind_of(row.spec_bytes()) is Some,
        ensures
            *res == self.definitions()[self.kind_of(row.spec_bytes())->0],
    {
        if self.row_definitions.len() == 1 {
            return &self.row_definitions[0];
        }
        let ghost b = row.spec_bytes();
        let mut i: usize = 0;
        while i < self.row_definitions.len()
            invariant
                0 <= i <= self.row_definitions@.len(),
                b == row.spec_bytes(),
                self.row_definitions@.len() != 1,
                matching_kind(self.row_definitions@, b, 0) is Some,
                matching_kind(self.row_definitions@, b, 0) == matching_kind(
                    self.row_definitions@,
                    b,
                    i as int,
                ),
            decreases self.row_definitions@.len() - i,
        {
            let d = &self.row_definitions[i];
            match &d.row_matcher {
                Some(m) => {
                    if m.match_row(row) {
                        return d;
                    }
                },
                None => {
                    assert(false);
                },
            }
            i = i + 1;
        }
        assert(false);
        &self.row_definitions[0]
    }

    /// Every column of the row's kind can be read from it.
    pub open spec fn readable(self, b: Seq<u8>) -> bool {
        &&& self.kind_of(b) is Some
        &&& b.len() + 2 <= usize::MAX
        &&& forall|k: int|
            0 <= k < self.definitions()[self.kind_of(b)->0].columns().len() ==> (#[trigger] self.definitions()[self.kind_of(
                b,
            )->0].columns()[k]).readable_in(b)
    }

    /// Whether the row can be read: its kind is known and each of the kind's
    /// columns can be read from it.
    pub fn can_parse(&self, row: &str) -> (res: bool)
        ensures
            res == self.readable(row.spec_bytes()),
    {
        let ghost b = row.spec_bytes();
        if row.as_bytes().len() > usize::MAX - 2 {
            return false;
        }
        let mut k: usize = 0;
        let d: &RowDefinition;
        if self.row_definitions.len() == 1 {
            d = &self.row_definitions[0];
        } else {
            let mut i: usize = 0;
            loop
                invariant
                    0 <= i <= self.row_definitions@.len(),
                    b == row.spec_bytes(),
                    self.row_definitions@.len() != 1,
                    matching_kind(self.row_definitions@, b, 0) == matching_kind(self.row_definitions@, b, i as int),
                ensures
                    i < self.row_definitions@.len(),
                    matching_kind(self.row_definitions@, b, 0) == Some(i as int),
                decreases self.row_definitions@.len() - i,
            {
                if i >= self.row_definitions.len() {
                    return false;
                }
                let di = &self.row_definitions[i];
                match &di.row_matcher {
                    Some(m) => {
                        if !m.can_look_at(row) {
                            return false;
                        }
                        if m.match_row(row) {
                            break;
                        }
                    },
                    None => {
                        return false;
                    },
                }
                i = i + 1;
            }
            d = &self.row_definitions[i];
        }
        assert(*d == self.definitions()[self.kind_of(b)->0]);
        while k < d.row_configuration.len()
            invariant
                0 <= k <= d.row_configuration@.len(),
                b == row.spec_bytes(),
                self.kind_of(b) is Some,
                *d == self.definitions()[self.kind_of(b)->0],
                forall|q: int| 0 <= q < k ==> (#[trigger] d.columns()[q]).readable_in(b),
            decreases d.row_configuration@.len() - k,
        {
            if !d.row_configuration[k].can_read(row) {
                assert(!d.columns()[k as int].readable_in(b));
                return false;
            }
            k = k + 1;
        }
        true
    }

    /// Reads the row: the id of its kind, the bytes it takes in the file
    /// (its length and 2 for `\r\n`), and the values of the kind's columns.
    pub fn parse(&self, row: &str) -> (res: ParsedRow)
        requires
            self.readable(row.spec_bytes()),
        ensures
            ({
                let d = self.definitions()[self.kind_of(row.spec_bytes())->0];
                &&& res.0 == d.spec_id()
                &&& res.1 == row.spec_bytes().len() + 2
                &&& res.2@.len() == d.columns().len()
                &&& forall|k: int|
                    0 <= k < res.2@.len() ==> (#[trigger] res.2@[k])@ == d.columns()[k].value_in(
                        row.spec_bytes(),
                    )
            }),
    {
        let d = self.row_definition(row);
        let bytes_read = row.as_bytes().len() + 2;
        let mut values: Vec<ParsedValue> = Vec::new();
        let mut k: usize = 0;
        while k < d.row_configuration.len()
            invariant
                0 <= k <= d.row_configuration@.len(),
                *d == self.definitions()[self.kind_of(row.spec_bytes())->0],
                self.readable(row.spec_bytes()),
                values@.len() == k,
                forall|q: int|
                    0 <= q < k ==> (#[trigger] values@[q])@ == d.columns()[q].value_in(row.spec_bytes()),
            decreases d.row_configuration@.len() - k,
        {
            assert(d.columns()[k as int].readable_in(row.spec_bytes()));
            let v = d.row_configuration[k].read(row);
            values.push(v);
            k = k + 1;
        }
        (d.id, bytes_read, values)
    }
}

/// The kind and the values that the parser reads from a row it can read.
pub open spec fn row_read(p: RowParser, b: Seq<u8>) -> (i32, Seq<ParsedView>) {
    let d = p.definitions()[p.kind_of(b)->0];
    (d.spec_id(), Seq::new(d.columns().len(), |k: int| d.columns()[k].value_in(b)))
}

/// What values hold.
pub open spec fn values_view(v: Seq<ParsedValue>) -> Seq<ParsedView> {
    v.map_values(|x: ParsedValue| x@)
}

/// The parser can read the row.
#[verifier::opaque]
pub open spec fn row_readable(p: RowParser, row: String) -> bool {
    p.readable(encode_utf8(row@))
}

/// `x` is the kind and the values that the parser reads from the row.
#[verifier::opaque]
pub open spec fn row_values(p: RowParser, row: String, x: (i32, Vec<ParsedValue>)) -> bool {
    x.0 == row_read(p, encode_utf8(row@)).0 && values_view(x.1@) == row_read(p, encode_utf8(row@)).1
}

/// `out` holds, for each row, the kind and the values that the parser
/// reads from it (see `row_read`).
pub open spec fn rows_read(p: RowParser, rows: Seq<String>, out: Seq<(i32, Vec<ParsedValue>)>) -> bool {
    out.len() == rows.len() && rows_read_upto(p, rows, out, rows.len() as int)
}

/// The first `n` rows are read into `out`.
pub open spec fn rows_read_upto(p: RowParser, rows: Seq<String>, out: Seq<(i32, Vec<ParsedValue>)>, n: int) -> bool {
    forall|i: int| 0 <= i < n ==> row_readable(p, #[trigger] rows[i]) && row_values(p, rows[i], out[i])
}

proof fn lemma_rows_read_push(
    p: RowParser,
    rows: Seq<String>,
    before: Seq<(i32, Vec<ParsedValue>)>,
    x: (i32, Vec<ParsedValue>),
    n: int,
)
    requires
        0 <= n < rows.len(),
        before.len() == n,
        rows_read_upto(p, rows, before, n),
        row_readable(p, rows[n]),
        row_values(p, rows[n], x),
    ensures
        rows_read_upto(p, rows, before.push(x), n + 1),
{
    let after = before.push(x);
    assert forall|i: int| 0 <= i < n + 1 implies row_readable(p, #[trigger] rows[i]) && row_values(
        p,
        rows[i],
        after[i],
    ) by {
        if i < n {
            assert(after[i] == before[i]);
        }
    }
}

/// Reads one row with the parser.
fn read_row(parser: &RowParser, row: &String) -> (res: Option<(i32, Vec<ParsedValue>)>)
    ensures
        res is Some <==> row_readable(*parser, *row),
        res matches Some(x) ==> row_values(*parser, *row, x),
{
    reveal(row_readable);
    reveal(row_values);
    let r = row.as_str();
    let ghost b = encode_utf8(row@);
    assert(r.spec_bytes() == b);
    if !parser.can_parse(r) {
        return None;
    }
    let (id, _, values) = parser.parse(r);
    assert(values_view(values@) =~= row_read(*parser, b).1);
    Some((id, values))
}

/// Reads every row with the parser. Fails at the first row that it cannot
/// read (see `RowParser::can_parse`), with a syntax error holding that row.
pub fn read_rows(parser: &RowParser, rows: &Vec<String>) -> (res: PResult<Vec<(i32, Vec<ParsedValue>)>>)
    ensures
        match res {
            Ok(out) => rows_read(*parser, rows@, out@),
            Err(e) => exists|i: int|
                0 <= i < rows@.len() && !row_readable(*parser, rows@[i]) && (forall|j: int|
                    0 <= j < i ==> row_readable(*parser, #[trigger] rows@[j])) && e == ParsingError::Syntax(
                    rows@[i],
                ),
        },
{
    let mut out: Vec<(i32, Vec<ParsedValue>)> = Vec::new();
    let mut i: usize = 0;
    while i < rows.len()
        invariant
            0 <= i <= rows@.len(),
            out@.len() == i,
            rows_read_upto(*parser, rows@, out@, i as int),
        decreases rows@.len() - i,
    {
        let read = read_row(parser, &rows[i]);
        if read.is_none() {
            let text = rows[i].clone();
            assert forall|j: int| 0 <= j < i implies row_readable(*parser, #[trigger] rows@[j]) by {
                assert(row_values(*parser, rows@[j], out@[j]));
            }
            return Err(ParsingError::Syntax(text));
        }
        let x = read.unwrap();
        let ghost before = out@;
        proof {
            lemma_rows_read_push(*parser, rows@, before, x, i as int);
        }
        out.push(x);
        assert(out@ == before.push(x));
        i = i + 1;
    }
    Ok(out)
}

} // verus!
