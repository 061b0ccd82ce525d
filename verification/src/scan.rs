//! Positional scanning over a sequence: the first position at which an item
//! of a class occurs, and the end of a range once a trailing class is
//! dropped.

use vstd::prelude::*;

verus! {

/// The first position at or after `from` whose item satisfies `stop`, or the
/// length of `s` where there is none.
pub open spec fn first_match<T>(s: Seq<T>, from: int, stop: spec_fn(T) -> bool) -> int
    decreases s.len() - from,
{
    if from < 0 || from >= s.len() || stop(s[from]) {
        from
    } else {
        first_match(s, from + 1, stop)
    }
}

/// The end of the range `lo..hi` of `s` once its trailing characters that
/// satisfy `skip` are dropped.
pub open spec fn last_kept(s: Seq<char>, lo: int, hi: int, skip: spec_fn(char) -> bool) -> int
    decreases hi - lo,
{
    if hi <= lo || hi > s.len() || !skip(s[hi - 1]) {
        hi
    } else {
        last_kept(s, lo, hi - 1, skip)
    }
}

/// The class of the characters that occur in `set`.
pub open spec fn one_of(set: Seq<char>) -> spec_fn(char) -> bool {
    |c: char| set.contains(c)
}

/// The class of every item but `c`.
pub open spec fn other_than<T>(c: T) -> spec_fn(T) -> bool {
    |x: T| x != c
}

/// The class of the single item `c`.
pub open spec fn exactly<T>(c: T) -> spec_fn(T) -> bool {
    |x: T| x == c
}

/// Space, tab and line feed: the blanks that the tree builder skips.
pub open spec fn is_blank(c: char) -> bool {
    c == ' ' || c == '\t' || c == '\n'
}

/// The class of the characters that are not blanks.
pub open spec fn non_blank() -> spec_fn(char) -> bool {
    |c: char| !is_blank(c)
}

/// `first_match` stays within the sequence, passes over no item of the
/// class, and stops on one unless it reaches the end.
pub proof fn lemma_first_match<T>(s: Seq<T>, from: int, stop: spec_fn(T) -> bool)
    requires
        0 <= from <= s.len(),
    ensures
        from <= first_match(s, from, stop) <= s.len(),
        forall|i: int| from <= i < first_match(s, from, stop) ==> !stop(#[trigger] s[i]),
        first_match(s, from, stop) < s.len() ==> stop(s[first_match(s, from, stop)]),
    decreases s.len() - from,
{
    if from < s.len() && !stop(s[from]) {
        lemma_first_match(s, from + 1, stop);
    }
}

/// A position that stops the scan, with nothing of the class before it, is
/// the one that `first_match` finds.
pub proof fn lemma_first_match_is<T>(s: Seq<T>, from: int, stop: spec_fn(T) -> bool, at: int)
    requires
        0 <= from <= at <= s.len(),
        forall|i: int| from <= i < at ==> !stop(#[trigger] s[i]),
        at < s.len() ==> stop(s[at]),
    ensures
        first_match(s, from, stop) == at,
    decreases at - from,
{
    if from < at {
        lemma_first_match_is(s, from + 1, stop, at);
    }
}

/// An end with only characters of the class behind it, and none just before
/// it, is the one that `last_kept` finds.
pub proof fn lemma_last_kept_is(s: Seq<char>, lo: int, hi: int, skip: spec_fn(char) -> bool, at: int)
    requires
        0 <= lo <= at <= hi <= s.len(),
        forall|i: int| at <= i < hi ==> skip(#[trigger] s[i]),
        at > lo ==> !skip(s[at - 1]),
    ensures
        last_kept(s, lo, hi, skip) == at,
    decreases hi - at,
{
    if at < hi {
        lemma_last_kept_is(s, lo, hi - 1, skip, at);
    }
}

/// Whether `c` occurs in `set`.
pub fn contains_char(set: &Vec<char>, c: char) -> (b: bool)
    ensures
        b == one_of(set@)(c),
{
    let mut i: usize = 0;
    while i < set.len()
        invariant
            i <= set.len(),
            forall|j: int| 0 <= j < i ==> set@[j] != c,
        decreases set.len() - i,
    {
        if set[i] == c {
            return true;
        }
        i = i + 1;
    }
    false
}

/// The first position at or after `from` that holds `c`, or the length of
/// `v` where there is none.
pub fn find_char(v: &Vec<char>, from: usize, c: char) -> (at: usize)
    requires
        from <= v.len(),
    ensures
        from <= at <= v.len(),
        at == first_match(v@, from as int, exactly(c)),
{
    let mut at: usize = from;
    while at < v.len() && v[at] != c
        invariant
            from <= at <= v.len(),
            forall|i: int| from <= i < at ==> !exactly(c)(#[trigger] v@[i]),
        decreases v.len() - at,
    {
        at = at + 1;
    }
    proof {
        lemma_first_match_is(v@, from as int, exactly(c), at as int);
    }
    at
}

/// Whether `c` is a space, a tab or a line feed.
pub fn blank(c: char) -> (b: bool)
    ensures
        b == is_blank(c),
{
    c == ' ' || c == '\t' || c == '\n'
}

} // verus!
