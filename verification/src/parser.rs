//! Plain fixed-column rows, and the inline values of a row (`value<key>`
//! pairs between `>` marks).
//!
//! A column is given by byte positions counted from 1, both included; a
//! column that reaches past the end of the row stops at its end. Values are
//! taken as they stand, blanks included.
use crate::parsing::{field, field_in_row};
use crate::text::{integer_in_range, parse_i32, str_byte_range};
use std::collections::HashMap;
use vstd::prelude::*;
use vstd::string::StringExecFns;
use vstd::string::StringSliceAdditionalSpecFns;
use vstd::string::StrSliceExecFns;
use vstd::utf8::encode_utf8;

verus! {

broadcast use vstd::std_specs::hash::group_hash_axioms;

/// The type of a column.
#[derive(Clone, Copy, Debug, PartialEq, Eq, Structural)]
pub enum ExpectedType {
    Integer32,
    String,
}

/// The value of a column.
#[derive(Debug)]
pub enum ParsedValue {
    Integer32(i32),
    String(String),
}

/// What a column value holds.
pub enum ParsedView {
    Integer32(i32),
    String(Seq<char>),
}

impl View for ParsedValue {
    type V = ParsedView;

    open spec fn view(&self) -> ParsedView {
        match self {
            ParsedValue::Integer32(x) => ParsedView::Integer32(*x),
            ParsedValue::String(s) => ParsedView::String(s@),
        }
    }
}

impl ParsedValue {
    /// The integer of an integer value.
    pub fn into_i32(self) -> (res: i32)
        requires
            self is Integer32,
        ensures
            self == ParsedValue::Integer32(res),
    {
        match self {
            ParsedValue::Integer32(x) => x,
            ParsedValue::String(_) => {
                assert(false);
                0
            },
        }
    }
}

/// A column: bytes `start` to `stop`, counted from 1, both included.
pub struct ColumnDefinition {
    start: usize,
    stop: usize,
    expected_type: ExpectedType,
}

impl ColumnDefinition {
    pub closed spec fn spec_start(self) -> usize {
        self.start
    }

    pub closed spec fn spec_stop(self) -> usize {
        self.stop
    }

    pub closed spec fn spec_expected_type(self) -> ExpectedType {
        self.expected_type
    }

    /// A column.
    pub fn new(start: usize, stop: usize, expected_type: ExpectedType) -> (res: ColumnDefinition)
        ensures
            res.spec_start() == start,
            res.spec_stop() == stop,
            res.spec_expected_type() == expected_type,
    {
        ColumnDefinition { start, stop, expected_type }
    }

    /// The byte where the column ends (exclusive) in a row of `len` bytes.
    pub open spec fn end_in(self, len: int) -> int {
        if self.spec_stop() < len {
            self.spec_stop() as int
        } else {
            len
        }
    }

    /// The bytes of the column in the row.
    pub open spec fn bytes_in(self, b: Seq<u8>) -> Seq<u8> {
        b.subrange(self.spec_start() - 1, self.end_in(b.len() as int))
    }

    /// The column can be read from the row: it starts within the row on a
    /// character boundary, ends on one, and an integer column holds an `i32`.
    pub open spec fn readable_in(self, b: Seq<u8>) -> bool {
        &&& self.spec_start() >= 1
        &&& field_in_row(b, self.spec_start() - 1, self.end_in(b.len() as int))
        &&& (self.spec_expected_type() == ExpectedType::Integer32 ==> integer_in_range(
            self.bytes_in(b),
            i32::MIN as int,
            i32::MAX as int,
        ) is Some)
    }

    /// The value of the column in the row.
    pub open spec fn value_in(self, b: Seq<u8>) -> ParsedView {
        match self.spec_expected_type() {
            ExpectedType::Integer32 => ParsedView::Integer32(
                integer_in_range(self.bytes_in(b), i32::MIN as int, i32::MAX as int)->0 as i32,
            ),
            ExpectedType::String => ParsedView::String(
                field(b, self.spec_start() - 1, self.end_in(b.len() as int)),
            ),
        }
    }

    /// Reads the column from the row.
    fn read(&self, row: &str) -> (res: ParsedValue)
        requires
            self.readable_in(row.spec_bytes()),
        ensures
            res@ == self.value_in(row.spec_bytes()),
    {
        let n = row.as_bytes().len();
        let start = self.start - 1;
        let stop = if self.stop < n {
            self.stop
        } else {
            n
        };
        let value = match str_byte_range(row, start, stop) {
            Some(t) => t,
            None => {
                assert(false);
                return ParsedValue::String(String::new());
            },
        };
        proof {
            vstd::utf8::encode_utf8_decode_utf8(value@);
        }
        match self.expected_type {
            ExpectedType::Integer32 => match parse_i32(value) {
                Some(v) => ParsedValue::Integer32(v),
                None => {
                    assert(false);
                    ParsedValue::Integer32(0)
                },
            },
            ExpectedType::String => ParsedValue::String(value.to_owned()),
        }
    }
}

/// Reads rows of one fixed layout.
pub struct DefaultRowParser {
    row_configuration: Vec<ColumnDefinition>,
}

impl DefaultRowParser {
    pub closed spec fn columns(self) -> Seq<ColumnDefinition> {
        self.row_configuration@
    }

    /// A parser for rows with the given columns.
    pub fn new(row_configuration: Vec<ColumnDefinition>) -> (res: DefaultRowParser)
        ensures
            res.columns() == row_configuration@,
    {
        DefaultRowParser { row_configuration }
    }

    /// The columns of the layout.
    pub fn row_configuration(&self) -> (res: &Vec<ColumnDefinition>)
        ensures
            res@ == self.columns(),
    {
        &self.row_configuration
    }

    /// Every column can be read from the row.
    pub open spec fn readable(self, b: Seq<u8>) -> bool {
        forall|k: int| 0 <= k < self.columns().len() ==> (#[trigger] self.columns()[k]).readable_in(b)
    }

    /// The values of the columns of the row, in order.
    pub fn parse(&self, row: &str) -> (res: Vec<ParsedValue>)
        requires
            self.readable(row.spec_bytes()),
        ensures
            res@.len() == self.columns().len(),
            forall|k: int|
                0 <= k < res@.len() ==> (#[trigger] res@[k])@ == self.columns()[k].value_in(
                    row.spec_bytes(),
                ),
    {
        let mut values: Vec<ParsedValue> = Vec::new();
        let mut k: usize = 0;
        while k < self.row_configuration.len()
            invariant
                0 <= k <= self.columns().len(),
                self.readable(row.spec_bytes()),
                values@.len() == k,
                forall|q: int|
                    0 <= q < k ==> (#[trigger] values@[q])@ == self.columns()[q].value_in(
                        row.spec_bytes(),
                    ),
            decreases self.columns().len() - k,
        {
            assert(self.columns()[k as int].readable_in(row.spec_bytes()));
            let v = self.row_configuration[k].read(row);
            values.push(v);
            k = k + 1;
        }
        values
    }
}

/// The pieces of `s` between the occurrences of `sep`, as `str::split`
/// gives them: an empty piece where two separators meet or at either end.
pub open spec fn split_on(s: Seq<char>, sep: char) -> Seq<Seq<char>>
    decreases s.len(),
{
    if s.len() == 0 {
        seq![Seq::<char>::empty()]
    } else {
        let p = split_on(s.drop_last(), sep);
        if s.last() == sep {
            p.push(Seq::<char>::empty())
        } else {
            p.update(p.len() - 1, p.last().push(s.last()))
        }
    }
}

/// `s` without the occurrences of `c`.
pub open spec fn without_char(s: Seq<char>, c: char) -> Seq<char>
    decreases s.len(),
{
    if s.len() == 0 {
        s
    } else if s.last() == c {
        without_char(s.drop_last(), c)
    } else {
        without_char(s.drop_last(), c).push(s.last())
    }
}

/// The parts of an inline value `value<key`, `$` signs removed.
pub open spec fn entry_parts(t: Seq<char>) -> Seq<Seq<char>> {
    split_on(without_char(t, '$'), '<')
}

/// The key of an inline value: the `i32` after its first `<`.
pub open spec fn entry_key(t: Seq<char>) -> Option<int> {
    if entry_parts(t).len() >= 2 {
        integer_in_range(encode_utf8(entry_parts(t)[1]), i32::MIN as int, i32::MAX as int)
    } else {
        None
    }
}

/// Every inline value among the pieces (the pieces that are not empty) has
/// a key.
pub open spec fn inline_readable(pieces: Seq<Seq<char>>) -> bool {
    forall|i: int| 0 <= i < pieces.len() && (#[trigger] pieces[i]).len() > 0 ==> entry_key(pieces[i]) is Some
}

/// The values of the pieces grouped by key, each group in the order of the
/// pieces; empty pieces are skipped.
pub open spec fn inline_map(pieces: Seq<Seq<char>>) -> Map<i32, Seq<Seq<char>>>
    decreases pieces.len(),
{
    if pieces.len() == 0 {
        Map::empty()
    } else {
        let m = inline_map(pieces.drop_last());
        let t = pieces.last();
        if t.len() == 0 {
            m
        } else {
            let k = entry_key(t)->0 as i32;
            let v = entry_parts(t)[0];
            if m.contains_key(k) {
                m.insert(k, m[k].push(v))
            } else {
                m.insert(k, seq![v])
            }
        }
    }
}

/// The texts of a vector of strings.
pub open spec fn texts(v: Seq<String>) -> Seq<Seq<char>> {
    v.map_values(|x: String| x@)
}

/// `s` cut at every `sep` (`str::split`).
pub(crate) fn split_chars(s: &str, sep: char) -> (res: Vec<String>)
    ensures
        texts(res@) == split_on(s@, sep),
{
    let n = s.unicode_len();
    let mut pieces: Vec<String> = Vec::new();
    let mut cur = String::new();
    let mut i: usize = 0;
    assert(s@.take(0) =~= Seq::<char>::empty());
    while i < n
        invariant
            n == s@.len(),
            0 <= i <= n,
            texts(pieces@).push(cur@) == split_on(s@.take(i as int), sep),
        decreases n - i,
    {
        let c = s.get_char(i);
        let ghost before = split_on(s@.take(i as int), sep);
        proof {
            assert(s@.take(i + 1).drop_last() =~= s@.take(i as int));
            assert(s@.take(i + 1).last() == c);
        }
        if c == sep {
            let ghost done = texts(pieces@);
            let ghost last = cur@;
            pieces.push(cur);
            cur = String::new();
            proof {
                assert(texts(pieces@) =~= done.push(last));
                assert(texts(pieces@).push(cur@) =~= before.push(Seq::<char>::empty()));
            }
        } else {
            let one = s.substring_char(i, i + 1);
            assert(one@ =~= seq![c]);
            let ghost last = cur@;
            cur.append(one);
            proof {
                assert(cur@ =~= last.push(c));
                assert(texts(pieces@).push(cur@) =~= before.update(before.len() - 1, before.last().push(c)));
            }
        }
        i = i + 1;
    }
    let ghost done = texts(pieces@);
    let ghost last = cur@;
    pieces.push(cur);
    assert(texts(pieces@) =~= done.push(last));
    assert(s@.take(n as int) =~= s@);
    pieces
}

/// `s` without the occurrences of `removed` (`str::replace` with an empty
/// replacement).
pub(crate) fn remove_char(s: &str, removed: char) -> (res: String)
    ensures
        res@ == without_char(s@, removed),
{
    let n = s.unicode_len();
    let mut out = String::new();
    let mut i: usize = 0;
    assert(s@.take(0) =~= Seq::<char>::empty());
    while i < n
        invariant
            n == s@.len(),
            0 <= i <= n,
            out@ == without_char(s@.take(i as int), removed),
        decreases n - i,
    {
        let c = s.get_char(i);
        proof {
            assert(s@.take(i + 1).drop_last() =~= s@.take(i as int));
            assert(s@.take(i + 1).last() == c);
        }
        if c != removed {
            let one = s.substring_char(i, i + 1);
            assert(one@ =~= seq![c]);
            let ghost before = out@;
            out.append(one);
            assert(out@ =~= before.push(c));
        }
        i = i + 1;
    }
    assert(s@.take(n as int) =~= s@);
    out
}

/// The inline values of a row (`value<key` items between `>` marks, `$`
/// signs dropped), grouped by key in the order they come.
pub fn parse_inline_values(item: &str) -> (res: HashMap<i32, Vec<String>>)
    requires
        inline_readable(split_on(item@, '>')),
    ensures
        res@.dom() == inline_map(split_on(item@, '>')).dom(),
        forall|k: i32| #[trigger] res@.contains_key(k) ==> texts(res@[k]@) == inline_map(
            split_on(item@, '>'),
        )[k],
{
    let ghost all = split_on(item@, '>');
    let pieces = split_chars(item, '>');
    let mut acc: HashMap<i32, Vec<String>> = HashMap::new();
    let mut i: usize = 0;
    assert(all.take(0) =~= Seq::<Seq<char>>::empty());
    while i < pieces.len()
        invariant
            texts(pieces@) == all,
            all == split_on(item@, '>'),
            inline_readable(all),
            0 <= i <= pieces@.len(),
            acc@.dom() == inline_map(all.take(i as int)).dom(),
            forall|k: i32| #[trigger] acc@.contains_key(k) ==> texts(acc@[k]@) == inline_map(
                all.take(i as int),
            )[k],
        decreases pieces@.len() - i,
    {
        let ghost m = inline_map(all.take(i as int));
        proof {
            assert(all.take(i + 1).drop_last() =~= all.take(i as int));
            assert(all.take(i + 1).last() == all[i as int]);
            assert(pieces@[i as int]@ == all[i as int]);
        }
        let piece = pieces[i].as_str();
        if piece.unicode_len() > 0 {
            assert(entry_key(all[i as int]) is Some);
            let clean = remove_char(piece, '$');
            let parts = split_chars(clean.as_str(), '<');
            assert(parts@.len() >= 2);
            assert(parts@[0]@ == entry_parts(all[i as int])[0]);
            assert(parts@[1]@ == entry_parts(all[i as int])[1]);
            let value = parts[0].clone();
            let key = match parse_i32(parts[1].as_str()) {
                Some(k) => k,
                None => {
                    proof {
                        vstd::utf8::encode_utf8_decode_utf8(parts@[1]@);
                    }
                    assert(false);
                    0
                },
            };
            proof {
                vstd::utf8::encode_utf8_decode_utf8(parts@[1]@);
                assert(key as int == entry_key(all[i as int])->0);
            }
            let ghost before = acc@;
            match acc.remove(&key) {
                Some(mut vs) => {
                    let ghost old_vs = texts(vs@);
                    vs.push(value);
                    assert(texts(vs@) =~= old_vs.push(parts@[0]@));
                    acc.insert(key, vs);
                },
                None => {
                    let mut vs: Vec<String> = Vec::new();
                    vs.push(value);
                    assert(texts(vs@) =~= seq![parts@[0]@]);
                    acc.insert(key, vs);
                },
            }
            proof {
                let m2 = inline_map(all.take(i + 1));
                assert(acc@.dom() =~= m2.dom());
                assert forall|k: i32| #[trigger] acc@.contains_key(k) implies texts(acc@[k]@) == m2[k] by {
                    if k != key {
                        assert(before.contains_key(k));
                    }
                }
            }
        }
        i = i + 1;
    }
    assert(all.take(pieces@.len() as int) =~= all);
    acc
}

/// Every key of the grouped inline values has at least one value.
pub proof fn lemma_inline_groups_nonempty(pieces: Seq<Seq<char>>)
    ensures
        forall|k: i32| #[trigger] inline_map(pieces).contains_key(k) ==> inline_map(pieces)[k].len() > 0,
    decreases pieces.len(),
{
    if pieces.len() > 0 {
        let rest = pieces.drop_last();
        lemma_inline_groups_nonempty(rest);
        let m = inline_map(rest);
        assert forall|k: i32| #[trigger] inline_map(pieces).contains_key(k) implies inline_map(pieces)[k].len() > 0 by {
            if m.contains_key(k) {
                assert(m[k].len() > 0);
            }
        }
    }
}

} // verus!
