//! Text helpers: byte ranges of a row, trimming, and decimal integers.
use vstd::prelude::*;
use vstd::string::StrSliceExecFns;
use vstd::string::StringSliceAdditionalSpecFns;

verus! {

/// Rust's `char::is_whitespace`: the Unicode `White_Space` property.
pub open spec fn is_white_space(c: char) -> bool {
    let u = c as u32;
    ||| 0x09 <= u <= 0x0d
    ||| u == 0x20
    ||| u == 0x85
    ||| u == 0xa0
    ||| u == 0x1680
    ||| 0x2000 <= u <= 0x200a
    ||| u == 0x2028
    ||| u == 0x2029
    ||| u == 0x202f
    ||| u == 0x205f
    ||| u == 0x3000
}

/// `s` without its leading white space.
pub open spec fn trim_start(s: Seq<char>) -> Seq<char>
    decreases s.len(),
{
    if s.len() > 0 && is_white_space(s[0]) {
        trim_start(s.drop_first())
    } else {
        s
    }
}

/// `s` without its trailing white space.
pub open spec fn trim_end(s: Seq<char>) -> Seq<char>
    decreases s.len(),
{
    if s.len() > 0 && is_white_space(s.last()) {
        trim_end(s.drop_last())
    } else {
        s
    }
}

/// `s` without leading and trailing white space.
pub open spec fn trimmed(s: Seq<char>) -> Seq<char> {
    trim_end(trim_start(s))
}

/// Whether the character has the Unicode `White_Space` property.
pub fn char_is_white_space(c: char) -> (res: bool)
    ensures
        res == is_white_space(c),
{
    let u = c as u32;
    (0x09 <= u && u <= 0x0d) || u == 0x20 || u == 0x85 || u == 0xa0 || u == 0x1680 || (0x2000 <= u
        && u <= 0x200a) || u == 0x2028 || u == 0x2029 || u == 0x202f || u == 0x205f || u == 0x3000
}

/// Removing leading white space from `s.subrange(i, s.len())`, where the
/// characters before `i` are white space, is removing it from `s`.
proof fn lemma_trim_start_from(s: Seq<char>, i: int)
    requires
        0 <= i <= s.len(),
        forall|k: int| 0 <= k < i ==> is_white_space(#[trigger] s[k]),
    ensures
        trim_start(s) == trim_start(s.subrange(i, s.len() as int)),
    decreases i,
{
    if i > 0 {
        assert(s.drop_first().subrange(i - 1, s.drop_first().len() as int) =~= s.subrange(
            i,
            s.len() as int,
        ));
        lemma_trim_start_from(s.drop_first(), i - 1);
    } else {
        assert(s.subrange(0, s.len() as int) =~= s);
    }
}

/// Removing trailing white space from `s.subrange(0, j)`, where the
/// characters from `j` on are white space, is removing it from `s`.
proof fn lemma_trim_end_to(s: Seq<char>, j: int)
    requires
        0 <= j <= s.len(),
        forall|k: int| j <= k < s.len() ==> is_white_space(#[trigger] s[k]),
    ensures
        trim_end(s) == trim_end(s.subrange(0, j)),
    decreases s.len() - j,
{
    if j < s.len() {
        assert(s.drop_last().subrange(0, j) =~= s.subrange(0, j));
        lemma_trim_end_to(s.drop_last(), j);
    } else {
        assert(s.subrange(0, j) =~= s);
    }
}

/// The text without its leading and trailing white space (as `str::trim`
/// does).
pub(crate) fn str_trim(s: &str) -> (res: &str)
    ensures
        res@ == trimmed(s@),
{
    let n = s.unicode_len();
    let mut i: usize = 0;
    while i < n && char_is_white_space(s.get_char(i))
        invariant
            n == s@.len(),
            0 <= i <= n,
            forall|k: int| 0 <= k < i ==> is_white_space(#[trigger] s@[k]),
        decreases n - i,
    {
        i = i + 1;
    }
    let mut j: usize = n;
    while j > i && char_is_white_space(s.get_char(j - 1))
        invariant
            n == s@.len(),
            i <= j <= n,
            forall|k: int| j <= k < n ==> is_white_space(#[trigger] s@[k]),
        decreases j,
    {
        j = j - 1;
    }
    proof {
        let t = s@.subrange(i as int, n as int);
        lemma_trim_start_from(s@, i as int);
        if i < n {
            assert(!is_white_space(t[0]));
        }
        assert(trim_start(t) == t);
        let u = t.subrange(0, j - i);
        assert forall|k: int| j - i <= k < t.len() implies is_white_space(#[trigger] t[k]) by {
            assert(t[k] == s@[k + i]);
        }
        lemma_trim_end_to(t, j - i);
        if j > i {
            assert(u.last() == s@[j - 1]);
            assert(!is_white_space(u.last()));
        }
        assert(trim_end(u) == u);
        assert(u =~= s@.subrange(i as int, j as int));
    }
    s.substring_char(i, j)
}

/// `str::get` with a byte range: documented to return the bytes
/// `start..stop` as a string where indexing would succeed (the range lies in
/// the string and both ends are character boundaries), `None` otherwise.
#[verifier::external_body]
pub(crate) fn str_byte_range(s: &str, start: usize, stop: usize) -> (res: Option<&str>)
    ensures
        res is Some <==> (start <= stop && stop <= s.spec_bytes().len()
            && vstd::utf8::is_char_boundary(s.spec_bytes(), start as int)
            && vstd::utf8::is_char_boundary(s.spec_bytes(), stop as int)),
        res matches Some(t) ==> t.spec_bytes() == s.spec_bytes().subrange(start as int, stop as int),
{
    s.get(start..stop)
}

/// An ASCII decimal digit.
pub open spec fn is_digit(b: u8) -> bool {
    48 <= b <= 57
}

/// Every byte is an ASCII decimal digit.
pub open spec fn all_digits(b: Seq<u8>) -> bool {
    forall|i: int| 0 <= i < b.len() ==> is_digit(#[trigger] b[i])
}

/// The value of a sequence of decimal digits.
pub open spec fn digits_value(b: Seq<u8>) -> int
    decreases b.len(),
{
    if b.len() == 0 {
        0
    } else {
        digits_value(b.drop_last()) * 10 + (b.last() - 48)
    }
}

/// The integer that Rust's `from_str` reads from the bytes, before the range
/// check of the target type: an optional `+` or `-` followed by at least one
/// ASCII digit.
pub open spec fn integer_value(b: Seq<u8>) -> Option<int> {
    if b.len() > 0 && (b[0] == 45u8 || b[0] == 43u8) {
        let rest = b.drop_first();
        if rest.len() > 0 && all_digits(rest) {
            if b[0] == 45u8 {
                Some(-digits_value(rest))
            } else {
                Some(digits_value(rest))
            }
        } else {
            None
        }
    } else if b.len() > 0 && all_digits(b) {
        Some(digits_value(b))
    } else {
        None
    }
}

/// The value that `str::parse` gives for an integer type with range
/// `lo..=hi`.
pub open spec fn integer_in_range(b: Seq<u8>, lo: int, hi: int) -> Option<int> {
    match integer_value(b) {
        Some(v) => if lo <= v <= hi {
            Some(v)
        } else {
            None
        },
        None => None,
    }
}

proof fn lemma_digits_value_nonneg(b: Seq<u8>)
    requires
        all_digits(b),
    ensures
        digits_value(b) >= 0,
    decreases b.len(),
{
    if b.len() > 0 {
        lemma_digits_value_nonneg(b.drop_last());
    }
}

/// The value of a prefix of digits is at most the value of the whole.
proof fn lemma_digits_value_prefix(b: Seq<u8>, k: int)
    requires
        all_digits(b),
        0 <= k <= b.len(),
    ensures
        digits_value(b.subrange(0, k)) <= digits_value(b),
    decreases b.len() - k,
{
    if k < b.len() {
        lemma_digits_value_prefix(b, k + 1);
        let p = b.subrange(0, k + 1);
        assert(p.drop_last() =~= b.subrange(0, k));
        lemma_digits_value_nonneg(b.subrange(0, k));
    } else {
        assert(b.subrange(0, k) =~= b);
    }
}

/// Reads the decimal digits `b[start..]`; `None` when one is not a digit or
/// the value exceeds `limit`.
fn digits_up_to(b: &[u8], start: usize, limit: u64) -> (res: Option<u64>)
    requires
        start <= b@.len(),
        limit <= 0x1_0000_0000u64,
    ensures
        match res {
            Some(v) => all_digits(b@.subrange(start as int, b@.len() as int)) && v == digits_value(
                b@.subrange(start as int, b@.len() as int),
            ) && v <= limit,
            None => !all_digits(b@.subrange(start as int, b@.len() as int)) || digits_value(
                b@.subrange(start as int, b@.len() as int),
            ) > limit,
        },
{
    let ghost whole = b@.subrange(start as int, b@.len() as int);
    let mut acc: u64 = 0;
    let mut i = start;
    while i < b.len()
        invariant
            start <= i <= b@.len(),
            whole == b@.subrange(start as int, b@.len() as int),
            all_digits(b@.subrange(start as int, i as int)),
            acc == digits_value(b@.subrange(start as int, i as int)),
            acc <= limit,
            limit <= 0x1_0000_0000u64,
        decreases b@.len() - i,
    {
        let c = b[i];
        let ghost prev = b@.subrange(start as int, i as int);
        let ghost next = b@.subrange(start as int, i + 1);
        assert(next.drop_last() =~= prev);
        if c < 48 || c > 57 {
            assert(!is_digit(whole[i - start]));
            return None;
        }
        let v = acc * 10 + (c - 48) as u64;
        assert(v == digits_value(next));
        if v > limit {
            proof {
                if all_digits(whole) {
                    lemma_digits_value_prefix(whole, i + 1 - start);
                    assert(whole.subrange(0, i + 1 - start) =~= next);
                }
            }
            return None;
        }
        acc = v;
        i = i + 1;
    }
    assert(b@.subrange(start as int, i as int) =~= whole);
    Some(acc)
}

/// Rust's `str::parse` for an integer type whose range is `lo..=hi`
/// (here at most 32 bits wide).
pub fn parse_integer(s: &str, lo: i64, hi: i64) -> (res: Option<i64>)
    requires
        -0x8000_0000 <= lo <= 0,
        0 <= hi < 0x1_0000_0000,
    ensures
        match res {
            Some(v) => integer_in_range(s.spec_bytes(), lo as int, hi as int) == Some(v as int),
            None => integer_in_range(s.spec_bytes(), lo as int, hi as int) is None,
        },
{
    let b = s.as_bytes();
    let ghost bs = b@;
    if b.len() == 0 {
        return None;
    }
    if b[0] == 45 || b[0] == 43 {
        if b.len() == 1 {
            return None;
        }
        let negative = b[0] == 45;
        let limit: u64 = if negative {
            (0 - lo) as u64
        } else {
            hi as u64
        };
        let ghost rest = bs.drop_first();
        assert(bs.subrange(1, bs.len() as int) =~= rest);
        match digits_up_to(b, 1, limit) {
            Some(v) => {
                if negative {
                    Some(0 - (v as i64))
                } else {
                    Some(v as i64)
                }
            },
            None => None,
        }
    } else {
        assert(bs.subrange(0, bs.len() as int) =~= bs);
        match digits_up_to(b, 0, hi as u64) {
            Some(v) => Some(v as i64),
            None => {
                proof {
                    if all_digits(bs) {
                        lemma_digits_value_nonneg(bs);
                    }
                }
                None
            },
        }
    }
}

/// `str::parse::<i32>`.
pub fn parse_i32(s: &str) -> (res: Option<i32>)
    ensures
        match res {
            Some(v) => integer_in_range(s.spec_bytes(), i32::MIN as int, i32::MAX as int) == Some(
                v as int,
            ),
            None => integer_in_range(s.spec_bytes(), i32::MIN as int, i32::MAX as int) is None,
        },
{
    match parse_integer(s, -2147483648, 2147483647) {
        Some(v) => Some(v as i32),
        None => None,
    }
}

/// `str::parse::<i16>`.
pub fn parse_i16(s: &str) -> (res: Option<i16>)
    ensures
        match res {
            Some(v) => integer_in_range(s.spec_bytes(), i16::MIN as int, i16::MAX as int) == Some(
                v as int,
            ),
            None => integer_in_range(s.spec_bytes(), i16::MIN as int, i16::MAX as int) is None,
        },
{
    match parse_integer(s, -32768, 32767) {
        Some(v) => Some(v as i16),
        None => None,
    }
}

} // verus!

verus! {

/// Whether the two texts have the same characters.
pub(crate) fn str_equals(a: &str, b: &str) -> (res: bool)
    ensures
        res == (a@ == b@),
{
    let n = a.unicode_len();
    if n != b.unicode_len() {
        return false;
    }
    let mut i: usize = 0;
    while i < n
        invariant
            n == a@.len() == b@.len(),
            0 <= i <= n,
            forall|k: int| 0 <= k < i ==> a@[k] == b@[k],
        decreases n - i,
    {
        if a.get_char(i) != b.get_char(i) {
            return false;
        }
        i = i + 1;
    }
    assert(a@ =~= b@);
    true
}

/// The view of an optional string.
pub open spec fn opt_text(o: Option<String>) -> Option<Seq<char>> {
    match o {
        Some(s) => Some(s@),
        None => None,
    }
}

} // verus!
