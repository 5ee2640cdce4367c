//! The values packed into single fields of HRDF rows: bit fields written
//! in hexadecimal, lists separated by blanks, and the names of stops and
//! holidays.
use crate::error::{PResult, ParsingError};
use crate::parser::{
    inline_map, inline_readable, lemma_inline_groups_nonempty, parse_inline_values, split_chars, split_on, texts,
};
use crate::text::str_equals;
use crate::text::{integer_in_range, is_white_space, parse_i32};
use vstd::prelude::*;
use vstd::string::StrSliceExecFns;
use vstd::string::StringExecFns;
use vstd::utf8::encode_utf8;

verus! {

broadcast use vstd::std_specs::hash::group_hash_axioms;


/// The text without its first character (the empty text stays empty).
pub fn remove_first_char(value: &str) -> (res: &str)
    ensures
        res@ == if value@.len() == 0 {
            value@
        } else {
            value@.drop_first()
        },
{
    let n = value.unicode_len();
    if n == 0 {
        return value;
    }
    let r = value.substring_char(1, n);
    assert(value@.subrange(1, n as int) =~= value@.drop_first());
    r
}

/// The value of a hexadecimal digit (either case).
pub open spec fn hex_value(c: char) -> Option<u8> {
    if '0' <= c <= '9' {
        Some((c as u32 - '0' as u32) as u8)
    } else if 'a' <= c <= 'f' {
        Some((c as u32 - 'a' as u32 + 10) as u8)
    } else if 'A' <= c <= 'F' {
        Some((c as u32 - 'A' as u32 + 10) as u8)
    } else {
        None
    }
}

/// The four bits of a hexadecimal digit's value, the highest first.
pub open spec fn nibble(v: u8) -> Seq<u8> {
    seq![(v / 8) % 2, (v / 4) % 2, (v / 2) % 2, v % 2]
}

/// Every character is a hexadecimal digit.
pub open spec fn all_hex(s: Seq<char>) -> bool {
    forall|i: int| 0 <= i < s.len() ==> hex_value(#[trigger] s[i]) is Some
}

/// The bits of a hexadecimal number, four per digit, the highest first.
pub open spec fn hex_bits(s: Seq<char>) -> Seq<u8>
    decreases s.len(),
{
    if s.len() == 0 {
        Seq::empty()
    } else {
        hex_bits(s.drop_last()) + nibble(hex_value(s.last())->0)
    }
}

/// The first character that is not a hexadecimal digit.
pub open spec fn first_non_hex(s: Seq<char>) -> int
    decreases s.len(),
{
    if s.len() == 0 {
        0
    } else if hex_value(s[0]) is None {
        0
    } else {
        1 + first_non_hex(s.drop_first())
    }
}

/// The value of a hexadecimal digit.
fn hex_digit(c: char) -> (res: Option<u8>)
    ensures
        res == hex_value(c),
{
    if '0' <= c && c <= '9' {
        Some((c as u32 - '0' as u32) as u8)
    } else if 'a' <= c && c <= 'f' {
        Some((c as u32 - 'a' as u32 + 10) as u8)
    } else if 'A' <= c && c <= 'F' {
        Some((c as u32 - 'A' as u32 + 10) as u8)
    } else {
        None
    }
}

/// Where the scan of a hexadecimal number stops: at the end, or at a
/// character that is not a digit; the bits read up to there.
fn hex_scan(s: &str) -> (res: (Vec<u8>, usize))
    ensures
        res.1 <= s@.len(),
        res.0@ == hex_bits(s@.take(res.1 as int)),
        all_hex(s@.take(res.1 as int)),
        res.1 < s@.len() ==> hex_value(s@[res.1 as int]) is None,
{
    let n = s.unicode_len();
    let mut bits: Vec<u8> = Vec::new();
    let mut i: usize = 0;
    assert(s@.take(0) =~= Seq::<char>::empty());
    while i < n
        invariant
            n == s@.len(),
            0 <= i <= n,
            bits@ == hex_bits(s@.take(i as int)),
            all_hex(s@.take(i as int)),
        decreases n - i,
    {
        let c = s.get_char(i);
        let v = match hex_digit(c) {
            Some(v) => v,
            None => {
                return (bits, i);
            },
        };
        proof {
            assert(s@.take(i + 1).drop_last() =~= s@.take(i as int));
            assert(s@.take(i + 1).last() == c);
        }
        let ghost before = bits@;
        bits.push(v / 8 % 2);
        bits.push(v / 4 % 2);
        bits.push(v / 2 % 2);
        bits.push(v % 2);
        assert(bits@ =~= before + nibble(v));
        assert(all_hex(s@.take(i + 1))) by {
            assert forall|k: int| 0 <= k < i + 1 implies hex_value(#[trigger] s@.take(i + 1)[k]) is Some by {
                if k < i {
                    assert(s@.take(i + 1)[k] == s@.take(i as int)[k]);
                }
            }
        }
        i = i + 1;
    }
    assert(s@.take(n as int) =~= s@);
    (bits, n)
}

/// A bit field has four bits per hexadecimal digit, each 0 or 1.
pub proof fn lemma_hex_bits_shape(s: Seq<char>)
    ensures
        hex_bits(s).len() == 4 * s.len(),
        forall|i: int| 0 <= i < hex_bits(s).len() ==> #[trigger] hex_bits(s)[i] <= 1,
    decreases s.len(),
{
    if s.len() > 0 {
        let prefix = hex_bits(s.drop_last());
        lemma_hex_bits_shape(s.drop_last());
        let n = nibble(hex_value(s.last())->0);
        assert forall|i: int| 0 <= i < hex_bits(s).len() implies #[trigger] hex_bits(s)[i] <= 1 by {
            if i >= prefix.len() {
                assert(hex_bits(s)[i] == n[i - prefix.len()]);
            } else {
                assert(hex_bits(s)[i] == prefix[i]);
            }
        }
    }
}

/// The first non-digit found by a scan is the first one of the text.
proof fn lemma_first_non_hex(s: Seq<char>, k: int)
    requires
        0 <= k <= s.len(),
        all_hex(s.take(k)),
        k < s.len() ==> hex_value(s[k]) is None,
    ensures
        first_non_hex(s) == k,
    decreases s.len(),
{
    if s.len() > 0 && k > 0 {
        assert(s.take(k)[0] == s[0]);
        assert forall|i: int| 0 <= i < k - 1 implies hex_value(#[trigger] s.drop_first().take(k - 1)[i]) is Some by {
            assert(s.drop_first().take(k - 1)[i] == s.take(k)[i + 1]);
        }
        if k - 1 < s.drop_first().len() {
            assert(s.drop_first()[k - 1] == s[k]);
        }
        lemma_first_non_hex(s.drop_first(), k - 1);
    }
}

/// The bits of a hexadecimal number, four per digit, the highest first;
/// fails on the first character that is not a hexadecimal digit.
pub fn convert_hex_number_to_bits(hex_number: String) -> (res: PResult<Vec<u8>>)
    ensures
        match res {
            Ok(bits) => all_hex(hex_number@) && bits@ == hex_bits(hex_number@),
            Err(e) => !all_hex(hex_number@) && e == ParsingError::InvalidHexDigit(
                hex_number@[first_non_hex(hex_number@)],
            ),
        },
{
    let hex_number: &str = hex_number.as_str();
    let (bits, stop) = hex_scan(hex_number);
    proof {
        lemma_first_non_hex(hex_number@, stop as int);
    }
    if stop < hex_number.unicode_len() {
        Err(ParsingError::InvalidHexDigit(hex_number.get_char(stop)))
    } else {
        assert(hex_number@.take(stop as int) =~= hex_number@);
        Ok(bits)
    }
}

/// The bits of a bit field written in hexadecimal (every character a
/// digit), four per digit, the highest first.
pub fn parse_values(raw_values: String) -> (res: Vec<u8>)
    requires
        all_hex(raw_values@),
    ensures
        res@ == hex_bits(raw_values@),
{
    let raw_values: &str = raw_values.as_str();
    let (bits, stop) = hex_scan(raw_values);
    assert(raw_values@.take(stop as int) =~= raw_values@);
    bits
}

/// The words of `s`: its longest runs of characters that are not white
/// space, in order (`str::split_whitespace`).
pub open spec fn words(s: Seq<char>) -> Seq<Seq<char>>
    decreases s.len(),
{
    if s.len() == 0 {
        Seq::empty()
    } else {
        let w = words(s.drop_last());
        let c = s.last();
        if is_white_space(c) {
            w
        } else if s.len() >= 2 && !is_white_space(s[s.len() - 2]) {
            w.update(w.len() - 1, w.last().push(c))
        } else {
            w.push(seq![c])
        }
    }
}

/// A word: not empty, and no white space in it.
pub open spec fn is_word(w: Seq<char>) -> bool {
    w.len() > 0 && forall|j: int| 0 <= j < w.len() ==> !is_white_space(#[trigger] w[j])
}

/// The words of a text are never empty and hold no white space; a text
/// that ends in a character that is not white space has a last word.
pub proof fn lemma_words_are_words(s: Seq<char>)
    ensures
        forall|k: int| 0 <= k < words(s).len() ==> is_word(#[trigger] words(s)[k]),
        s.len() > 0 && !is_white_space(s.last()) ==> words(s).len() > 0,
    decreases s.len(),
{
    if s.len() > 0 {
        let rest = s.drop_last();
        lemma_words_are_words(rest);
        let w = words(rest);
        let c = s.last();
        if !is_white_space(c) {
            if s.len() >= 2 && !is_white_space(s[s.len() - 2]) {
                assert(rest.last() == s[s.len() - 2]);
                assert(w.len() > 0);
                let nw = w.last().push(c);
                assert(is_word(w[w.len() - 1]));
                assert forall|j: int| 0 <= j < nw.len() implies !is_white_space(#[trigger] nw[j]) by {
                    if j < nw.len() - 1 {
                        assert(nw[j] == w.last()[j]);
                    }
                }
                assert forall|k: int| 0 <= k < words(s).len() implies is_word(#[trigger] words(s)[k]) by {
                    if k < w.len() - 1 {
                        assert(words(s)[k] == w[k]);
                    }
                }
            } else {
                assert forall|k: int| 0 <= k < words(s).len() implies is_word(#[trigger] words(s)[k]) by {
                    if k < w.len() {
                        assert(words(s)[k] == w[k]);
                    } else {
                        assert(words(s)[k] =~= seq![c]);
                    }
                }
            }
        }
    }
}

/// The words of `s` (`str::split_whitespace`).
fn split_words(s: &str) -> (res: Vec<String>)
    ensures
        texts(res@) == words(s@),
{
    let n = s.unicode_len();
    let mut done: Vec<String> = Vec::new();
    let mut cur = String::new();
    let mut in_word = false;
    let mut i: usize = 0;
    assert(s@.take(0) =~= Seq::<char>::empty());
    while i < n
        invariant
            n == s@.len(),
            0 <= i <= n,
            in_word == (i > 0 && !is_white_space(s@[i - 1])),
            in_word ==> texts(done@).push(cur@) == words(s@.take(i as int)),
            !in_word ==> texts(done@) == words(s@.take(i as int)) && cur@ == Seq::<char>::empty(),
        decreases n - i,
    {
        let c = s.get_char(i);
        let ghost before = words(s@.take(i as int));
        proof {
            assert(s@.take(i + 1).drop_last() =~= s@.take(i as int));
            assert(s@.take(i + 1).last() == c);
            if i > 0 {
                assert(s@.take(i + 1)[i - 1] == s@[i - 1]);
            }
        }
        if crate::text::char_is_white_space(c) {
            if in_word {
                let ghost d = texts(done@);
                let ghost last = cur@;
                done.push(cur);
                cur = String::new();
                assert(texts(done@) =~= d.push(last));
            }
            in_word = false;
        } else {
            let one = s.substring_char(i, i + 1);
            assert(one@ =~= seq![c]);
            let ghost last = cur@;
            cur.append(one);
            proof {
                assert(cur@ =~= last.push(c));
                if in_word {
                    assert(texts(done@).push(cur@) =~= before.update(before.len() - 1, before.last().push(c)));
                } else {
                    assert(texts(done@).push(cur@) =~= before.push(seq![c]));
                }
            }
            in_word = true;
        }
        i = i + 1;
    }
    if in_word {
        let ghost d = texts(done@);
        let ghost last = cur@;
        done.push(cur);
        assert(texts(done@) =~= d.push(last));
    }
    assert(s@.take(n as int) =~= s@);
    done
}

/// The administrations of a transport company: the words of the field.
pub fn parse_administrations(raw_administrations: String) -> (res: Vec<String>)
    ensures
        texts(res@) == words(raw_administrations@),
{
    let raw_administrations: &str = raw_administrations.as_str();
    split_words(raw_administrations)
}

/// The numbers among the words `ws`, in order (words that are not an
/// `i32` are left out).
pub open spec fn numbers_of(ws: Seq<Seq<char>>) -> Seq<i32>
    decreases ws.len(),
{
    if ws.len() == 0 {
        Seq::empty()
    } else {
        let rest = numbers_of(ws.drop_last());
        match integer_in_range(encode_utf8(ws.last()), i32::MIN as int, i32::MAX as int) {
            Some(v) => rest.push(v as i32),
            None => rest,
        }
    }
}

/// The stop connections of a stop: the words of the field that are `i32`
/// numbers, in order.
pub fn parse_connections(connections: String) -> (res: Vec<i32>)
    ensures
        res@ == numbers_of(words(connections@)),
{
    let connections: &str = connections.as_str();
    let ws = split_words(connections);
    let ghost all = words(connections@);
    let mut res: Vec<i32> = Vec::new();
    let mut i: usize = 0;
    assert(all.take(0) =~= Seq::<Seq<char>>::empty());
    while i < ws.len()
        invariant
            texts(ws@) == all,
            0 <= i <= ws@.len(),
            res@ == numbers_of(all.take(i as int)),
        decreases ws@.len() - i,
    {
        proof {
            assert(all.take(i + 1).drop_last() =~= all.take(i as int));
            assert(all.take(i + 1).last() == ws@[i as int]@);
            vstd::utf8::encode_utf8_decode_utf8(ws@[i as int]@);
        }
        match parse_i32(ws[i].as_str()) {
            Some(v) => {
                res.push(v);
            },
            None => {},
        }
        i = i + 1;
    }
    assert(all.take(ws@.len() as int) =~= all);
    res
}

/// The names of a stop held in its inline values: key 1 gives the name,
/// 2 the long name, 3 the abbreviation (the first value of each) and 4 the
/// synonyms.
pub open spec fn designations_of(m: Map<i32, Seq<Seq<char>>>) -> (
    Seq<char>,
    Option<Seq<char>>,
    Option<Seq<char>>,
    Option<Seq<Seq<char>>>,
) {
    (
        m[1][0],
        if m.contains_key(2) {
            Some(m[2][0])
        } else {
            None
        },
        if m.contains_key(3) {
            Some(m[3][0])
        } else {
            None
        },
        if m.contains_key(4) {
            Some(m[4])
        } else {
            None
        },
    )
}

/// The names of a stop, from its designations field (see
/// `designations_of`); the field must give a name (key 1).
pub fn parse_designations(designations: String) -> (res: (String, Option<String>, Option<String>, Option<Vec<String>>))
    requires
        inline_readable(split_on(designations@, '>')),
        inline_map(split_on(designations@, '>')).contains_key(1),
    ensures
        ({
            let d = designations_of(inline_map(split_on(designations@, '>')));
            &&& res.0@ == d.0
            &&& match res.1 {
                Some(s) => d.1 == Some(s@),
                None => d.1 is None,
            }
            &&& match res.2 {
                Some(s) => d.2 == Some(s@),
                None => d.2 is None,
            }
            &&& match res.3 {
                Some(v) => d.3 == Some(texts(v@)),
                None => d.3 is None,
            }
        }),
{
    let designations: &str = designations.as_str();
    let ghost m = inline_map(split_on(designations@, '>'));
    proof {
        lemma_inline_groups_nonempty(split_on(designations@, '>'));
    }
    let data = parse_inline_values(designations);
    let name = match data.get(&1) {
        Some(v) => v[0].clone(),
        None => {
            assert(false);
            String::new()
        },
    };
    let long_name = match data.get(&2) {
        Some(v) => Some(v[0].clone()),
        None => None,
    };
    let abbreviation = match data.get(&3) {
        Some(v) => Some(v[0].clone()),
        None => None,
    };
    let synonyms = match data.get(&4) {
        Some(v) => {
            let c = v.clone();
            assert(c@ == v@);
            Some(c)
        },
        None => None,
    };
    proof {
        if data@.contains_key(1) {
            assert(texts(data@[1]@)[0] == data@[1]@[0]@);
        }
        if data@.contains_key(2) {
            assert(texts(data@[2]@)[0] == data@[2]@[0]@);
        }
        if data@.contains_key(3) {
            assert(texts(data@[3]@)[0] == data@[3]@[0]@);
        }
    }
    (name, long_name, abbreviation, synonyms)
}

/// The names of a stop, from its name field (see `parse_designations`).
pub fn parse_name(raw_name: String) -> (res: (String, Option<String>, Option<String>, Option<Vec<String>>))
    requires
        inline_readable(split_on(raw_name@, '>')),
        inline_map(split_on(raw_name@, '>')).contains_key(1),
    ensures
        ({
            let d = designations_of(inline_map(split_on(raw_name@, '>')));
            &&& res.0@ == d.0
            &&& match res.1 {
                Some(s) => d.1 == Some(s@),
                None => d.1 is None,
            }
            &&& match res.2 {
                Some(s) => d.2 == Some(s@),
                None => d.2 is None,
            }
            &&& match res.3 {
                Some(v) => d.3 == Some(texts(v@)),
                None => d.3 is None,
            }
        }),
{
    parse_designations(raw_name)
}

/// The (language, text) pairs of a holiday's name field (`text<language`
/// items between `>` marks), in order; empty items are skipped. Where a
/// language comes twice, the later text is the one that counts.
pub open spec fn holiday_entries(pieces: Seq<Seq<char>>) -> Seq<(Seq<char>, Seq<char>)>
    decreases pieces.len(),
{
    if pieces.len() == 0 {
        Seq::empty()
    } else {
        let rest = holiday_entries(pieces.drop_last());
        let t = pieces.last();
        if t.len() == 0 {
            rest
        } else {
            rest.push((split_on(t, '<')[1], split_on(t, '<')[0]))
        }
    }
}

/// Every item of a holiday's name field names its language.
pub open spec fn holiday_name_readable(pieces: Seq<Seq<char>>) -> bool {
    forall|i: int| 0 <= i < pieces.len() && (#[trigger] pieces[i]).len() > 0 ==> split_on(pieces[i], '<').len() >= 2
}

/// The views of (key, value) pairs of strings.
pub open spec fn pair_texts(v: Seq<(String, String)>) -> Seq<(Seq<char>, Seq<char>)> {
    v.map_values(|p: (String, String)| (p.0@, p.1@))
}

/// The (language, text) pairs of a holiday's name field (see
/// `holiday_entries`).
pub fn parse_holiday_name(holiday_name: String) -> (res: Vec<(String, String)>)
    requires
        holiday_name_readable(split_on(holiday_name@, '>')),
    ensures
        pair_texts(res@) == holiday_entries(split_on(holiday_name@, '>')),
{
    let holiday_name: &str = holiday_name.as_str();
    let ghost all = split_on(holiday_name@, '>');
    let pieces = split_chars(holiday_name, '>');
    let mut res: Vec<(String, String)> = Vec::new();
    let mut i: usize = 0;
    assert(all.take(0) =~= Seq::<Seq<char>>::empty());
    while i < pieces.len()
        invariant
            texts(pieces@) == all,
            holiday_name_readable(all),
            0 <= i <= pieces@.len(),
            pair_texts(res@) == holiday_entries(all.take(i as int)),
        decreases pieces@.len() - i,
    {
        proof {
            assert(all.take(i + 1).drop_last() =~= all.take(i as int));
            assert(all.take(i + 1).last() == all[i as int]);
            assert(pieces@[i as int]@ == all[i as int]);
        }
        let piece = pieces[i].as_str();
        if piece.unicode_len() > 0 {
            let parts = split_chars(piece, '<');
            assert(parts@.len() >= 2) by {
                assert(split_on(all[i as int], '<').len() >= 2);
            }
            let value = parts[0].clone();
            let key = parts[1].clone();
            let ghost before = pair_texts(res@);
            res.push((key, value));
            assert(pair_texts(res@) =~= before.push((parts@[1]@, parts@[0]@)));
        }
        i = i + 1;
    }
    assert(all.take(pieces@.len() as int) =~= all);
    res
}

/// The pieces of `s` between the occurrences of `a` followed by `b`, found
/// from the left without overlapping (as `str::split` with a two-character
/// pattern), `cur` being the start of the first piece.
pub open spec fn split_pair_from(s: Seq<char>, a: char, b: char, cur: Seq<char>) -> Seq<Seq<char>>
    decreases s.len(),
{
    if s.len() == 0 {
        seq![cur]
    } else if s.len() >= 2 && s[0] == a && s[1] == b {
        seq![cur] + split_pair_from(s.skip(2), a, b, Seq::empty())
    } else {
        split_pair_from(s.drop_first(), a, b, cur.push(s[0]))
    }
}

/// The pieces of `s` between the occurrences of `a` followed by `b`.
pub open spec fn split_pair(s: Seq<char>, a: char, b: char) -> Seq<Seq<char>> {
    split_pair_from(s, a, b, Seq::empty())
}

/// `s` cut at every `a` followed by `b`.
fn split_pair_chars(s: &str, a: char, b: char) -> (res: Vec<String>)
    ensures
        texts(res@) == split_pair(s@, a, b),
{
    let n = s.unicode_len();
    let mut pieces: Vec<String> = Vec::new();
    let mut cur = String::new();
    let mut i: usize = 0;
    assert(s@.skip(0) =~= s@);
    while i < n
        invariant
            n == s@.len(),
            0 <= i <= n,
            texts(pieces@) + split_pair_from(s@.skip(i as int), a, b, cur@) == split_pair(s@, a, b),
        decreases n - i,
    {
        let c = s.get_char(i);
        let ghost rest = s@.skip(i as int);
        assert(rest[0] == c);
        if i + 1 < n && c == a && s.get_char(i + 1) == b {
            assert(rest.len() >= 2 && rest[1] == s@[i + 1]);
            let ghost done = texts(pieces@);
            let ghost last = cur@;
            pieces.push(cur);
            cur = String::new();
            assert(rest.skip(2) =~= s@.skip(i + 2));
            assert(texts(pieces@) =~= done.push(last));
            assert(done + (seq![last] + split_pair_from(rest.skip(2), a, b, Seq::empty())) =~= texts(pieces@)
                + split_pair_from(s@.skip(i + 2), a, b, cur@));
            i = i + 2;
        } else {
            assert(!(rest.len() >= 2 && rest[0] == a && rest[1] == b)) by {
                if rest.len() >= 2 {
                    assert(rest[1] == s@[i + 1]);
                }
            }
            let one = s.substring_char(i, i + 1);
            assert(one@ =~= seq![c]);
            let ghost last = cur@;
            cur.append(one);
            assert(cur@ =~= last.push(c));
            assert(rest.drop_first() =~= s@.skip(i + 1));
            i = i + 1;
        }
    }
    let ghost done = texts(pieces@);
    let ghost last = cur@;
    pieces.push(cur);
    assert(texts(pieces@) =~= done.push(last));
    assert(s@.skip(n as int) =~= Seq::<char>::empty());
    pieces
}

/// The value given last, among the items of a platform field, to `key`
/// (an item is `key 'value`); empty items are skipped.
pub open spec fn last_value(items: Seq<Seq<char>>, key: Seq<char>) -> Option<Seq<char>>
    decreases items.len(),
{
    if items.len() == 0 {
        None
    } else {
        let t = items.last();
        if t.len() > 0 && split_pair(t, ' ', '\'')[0] == key {
            Some(split_pair(t, ' ', '\'')[1])
        } else {
            last_value(items.drop_last(), key)
        }
    }
}

/// The items of a platform field: the field with a blank added, cut at
/// every `' ` (a quote followed by a blank).
pub open spec fn platform_items(raw: Seq<char>) -> Seq<Seq<char>> {
    split_pair(raw.push(' '), '\'', ' ')
}

/// Every item of a platform field is a key and a value.
pub open spec fn platform_data_readable(raw: Seq<char>) -> bool {
    forall|i: int|
        0 <= i < platform_items(raw).len() && (#[trigger] platform_items(raw)[i]).len() > 0 ==> split_pair(
            platform_items(raw)[i],
            ' ',
            '\'',
        ).len() >= 2
}

/// Whether a platform field can be read (every item is a key and a value),
/// and then whether it gives a code (some item has the key `G`).
pub fn platform_data_check(raw_platform_data: &str) -> (res: Option<bool>)
    ensures
        res is Some <==> platform_data_readable(raw_platform_data@),
        res matches Some(b) ==> b == last_value(platform_items(raw_platform_data@), "G"@) is Some,
{
    let ghost items = platform_items(raw_platform_data@);
    let mut padded = raw_platform_data.to_string();
    padded.append(" ");
    proof {
        reveal_strlit(" ");
    }
    assert(padded@ =~= raw_platform_data@.push(' '));
    let pieces = split_pair_chars(padded.as_str(), '\'', ' ');
    let mut found = false;
    let mut i: usize = 0;
    assert(items.take(0) =~= Seq::<Seq<char>>::empty());
    while i < pieces.len()
        invariant
            texts(pieces@) == items,
            items == platform_items(raw_platform_data@),
            0 <= i <= pieces@.len(),
            forall|q: int|
                0 <= q < i && (#[trigger] items[q]).len() > 0 ==> split_pair(items[q], ' ', '\'').len()
                    >= 2,
            found == last_value(items.take(i as int), "G"@) is Some,
        decreases pieces@.len() - i,
    {
        proof {
            assert(items.take(i + 1).drop_last() =~= items.take(i as int));
            assert(items.take(i + 1).last() == items[i as int]);
            assert(pieces@[i as int]@ == items[i as int]);
        }
        let piece = pieces[i].as_str();
        if piece.unicode_len() > 0 {
            let parts = split_pair_chars(piece, ' ', '\'');
            if parts.len() < 2 {
                assert(i < items.len());
                assert(!platform_data_readable(raw_platform_data@));
                return None;
            }
            assert(parts@[0]@ == split_pair(items[i as int], ' ', '\'')[0]);
            if str_equals(parts[0].as_str(), "G") {
                found = true;
            }
        }
        i = i + 1;
    }
    assert(items.take(pieces@.len() as int) =~= items);
    Some(found)
}

/// The code (key `G`) and the sectors (key `A`, if given) of a platform,
/// from its field `G '1' A 'AB'`; the field must give a code.
pub fn parse_platform_data(raw_platform_data: String) -> (res: (String, Option<String>))
    requires
        platform_data_readable(raw_platform_data@),
        last_value(platform_items(raw_platform_data@), "G"@) is Some,
    ensures
        Some(res.0@) == last_value(platform_items(raw_platform_data@), "G"@),
        match res.1 {
            Some(s) => last_value(platform_items(raw_platform_data@), "A"@) == Some(s@),
            None => last_value(platform_items(raw_platform_data@), "A"@) is None,
        },
{
    let raw_platform_data: &str = raw_platform_data.as_str();
    let ghost items = platform_items(raw_platform_data@);
    let mut padded = raw_platform_data.to_string();
    padded.append(" ");
    proof {
        reveal_strlit(" ");
    }
    assert(padded@ =~= raw_platform_data@.push(' '));
    let pieces = split_pair_chars(padded.as_str(), '\'', ' ');
    let mut code: Option<String> = None;
    let mut sectors: Option<String> = None;
    let mut i: usize = 0;
    assert(items.take(0) =~= Seq::<Seq<char>>::empty());
    while i < pieces.len()
        invariant
            texts(pieces@) == items,
            items == platform_items(raw_platform_data@),
            platform_data_readable(raw_platform_data@),
            0 <= i <= pieces@.len(),
            match code {
                Some(s) => last_value(items.take(i as int), "G"@) == Some(s@),
                None => last_value(items.take(i as int), "G"@) is None,
            },
            match sectors {
                Some(s) => last_value(items.take(i as int), "A"@) == Some(s@),
                None => last_value(items.take(i as int), "A"@) is None,
            },
        decreases pieces@.len() - i,
    {
        proof {
            assert(items.take(i + 1).drop_last() =~= items.take(i as int));
            assert(items.take(i + 1).last() == items[i as int]);
            assert(pieces@[i as int]@ == items[i as int]);
        }
        let piece = pieces[i].as_str();
        if piece.unicode_len() > 0 {
            let parts = split_pair_chars(piece, ' ', '\'');
            assert(parts@.len() >= 2) by {
                assert(split_pair(items[i as int], ' ', '\'').len() >= 2);
            }
            assert(parts@[0]@ == split_pair(items[i as int], ' ', '\'')[0]);
            assert(parts@[1]@ == split_pair(items[i as int], ' ', '\'')[1]);
            if str_equals(parts[0].as_str(), "G") {
                code = Some(parts[1].clone());
            }
            if str_equals(parts[0].as_str(), "A") {
                sectors = Some(parts[1].clone());
            }
        }
        i = i + 1;
    }
    assert(items.take(pieces@.len() as int) =~= items);
    match code {
        Some(c) => (c, sectors),
        None => {
            assert(false);
            (String::new(), sectors)
        },
    }
}

} // verus!
