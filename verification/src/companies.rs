//! The names of transport companies, as the designations field gives them:
//! `K "SBB" L "SBB" V "Schweizerische Bundesbahnen SBB"`.
use crate::parser::{remove_char, texts, without_char};
use vstd::prelude::*;

verus! {

/// What `regex::Regex::split` gives for `pattern` on `haystack` (the pieces
/// of the haystack between the matches), or `None` where `Regex::new`
/// refuses the pattern.
pub uninterp spec fn regex_split_pieces(pattern: Seq<char>, haystack: Seq<char>) -> Option<Seq<Seq<char>>>;

/// Calls `regex::Regex::new` on `pattern` and, where it compiles,
/// `Regex::split` on `haystack`, collecting the pieces as strings. The
/// contract only names the outcome: it depends on the two texts alone.
#[verifier::external_body]
fn regex_split(pattern: &str, haystack: &str) -> (res: Option<Vec<String>>)
    ensures
        match res {
            Some(v) => regex_split_pieces(pattern@, haystack@) == Some(texts(v@)),
            None => regex_split_pieces(pattern@, haystack@) is None,
        },
{
    match regex::Regex::new(pattern) {
        Ok(re) => Some(re.split(haystack).map(String::from).collect()),
        Err(_) => None,
    }
}

/// The markers between the names of a designations field.
pub open spec fn designation_marker() -> Seq<char> {
    " ?(K|L|V) "@
}

/// The short, long and full names from the pieces of a designations field:
/// its first three pieces, quotes removed.
pub fn designations_from_pieces(pieces: &Vec<String>) -> (res: (String, String, String))
    requires
        pieces@.len() >= 3,
    ensures
        res.0@ == without_char(pieces@[0]@, '"'),
        res.1@ == without_char(pieces@[1]@, '"'),
        res.2@ == without_char(pieces@[2]@, '"'),
{
    let short_name = remove_char(pieces[0].as_str(), '"');
    let long_name = remove_char(pieces[1].as_str(), '"');
    let full_name = remove_char(pieces[2].as_str(), '"');
    (short_name, long_name, full_name)
}

/// The short, long and full names of a transport company: the field cut at
/// the markers ` K `, ` L ` and ` V ` (the regular expression ` ?(K|L|V) `),
/// quotes removed; `None` where that gives fewer than three pieces.
pub fn parse_designations(designations: String) -> (res: Option<(String, String, String)>)
    ensures
        match regex_split_pieces(designation_marker(), designations@) {
            Some(p) => if p.len() >= 3 {
                res matches Some(t) && t.0@ == without_char(p[0], '"') && t.1@ == without_char(p[1], '"')
                    && t.2@ == without_char(p[2], '"')
            } else {
                res is None
            },
            None => res is None,
        },
{
    let designations: &str = designations.as_str();
    let pattern = " ?(K|L|V) ";
    let pieces = match regex_split(pattern, designations) {
        Some(p) => p,
        None => {
            return None;
        },
    };
    if pieces.len() < 3 {
        return None;
    }
    Some(designations_from_pieces(&pieces))
}

} // verus!
