//! Regular-expression search, done by the `regex` crate.

use vstd::prelude::*;

verus! {

/// What a search for `pattern` in `haystack` yields: `None` where the engine
/// refuses `pattern`, else the texts of the successive non-overlapping
/// matches, in the order in which the engine reports them.
pub uninterp spec fn regex_matches(pattern: Seq<char>, haystack: Seq<char>) -> Option<
    Seq<Seq<char>>,
>;

/// The views of a list of strings.
pub open spec fn texts(v: Seq<String>) -> Seq<Seq<char>> {
    Seq::new(v.len(), |i: int| v[i]@)
}

/// The views of an optional list of strings.
pub open spec fn optional_texts(r: Option<Vec<String>>) -> Option<Seq<Seq<char>>> {
    match r {
        Some(v) => Some(texts(v@)),
        None => None,
    }
}

/// Compiles `pattern` with `regex::Regex::new` and collects the text of every
/// match that `Regex::find_iter` reports in `haystack`. Nothing is proved of
/// the engine: the contract only names what it returns.
#[verifier::external_body]
pub(crate) fn find_all(pattern: &str, haystack: &str) -> (r: Option<Vec<String>>)
    ensures
        optional_texts(r) == regex_matches(pattern@, haystack@),
{
    match regex::Regex::new(pattern) {
        Ok(re) => Some(re.find_iter(haystack).map(|m| m.as_str().to_string()).collect()),
        Err(_) => None,
    }
}

} // verus!
