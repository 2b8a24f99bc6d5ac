//! Searching a sequence for a literal pattern.
//!
//! The specification functions are generic; the executable search works on
//! slices of any element type that can be compared exactly.

use vstd::prelude::*;

verus! {

/// `pat` occurs in `s` starting at index `i`.
pub open spec fn matches_at<T>(s: Seq<T>, pat: Seq<T>, i: int) -> bool {
    0 <= i && i + pat.len() <= s.len() && s.subrange(i, i + pat.len()) == pat
}

/// Index of the first occurrence of `pat` in `s` that starts at or after `from`.
pub open spec fn find<T>(s: Seq<T>, pat: Seq<T>, from: int) -> Option<int>
    decreases s.len() - from + 1,
{
    if from < 0 || from + pat.len() > s.len() {
        None
    } else if matches_at(s, pat, from) {
        Some(from)
    } else {
        find(s, pat, from + 1)
    }
}

/// `pat` occurs somewhere in `s`.
pub open spec fn contains_pattern<T>(s: Seq<T>, pat: Seq<T>) -> bool {
    find(s, pat, 0) is Some
}

/// What `find` returns is a match, and the earliest one at or after `from`.
pub proof fn lemma_find_first<T>(s: Seq<T>, pat: Seq<T>, from: int)
    requires
        0 <= from,
    ensures
        find(s, pat, from) matches Some(i) ==> from <= i && matches_at(s, pat, i) && forall|k: int|
            from <= k < i ==> !matches_at(s, pat, k),
        find(s, pat, from) is None ==> forall|k: int| from <= k ==> !matches_at(s, pat, k),
    decreases s.len() - from + 1,
{
    if from + pat.len() > s.len() {
    } else if matches_at(s, pat, from) {
    } else {
        lemma_find_first(s, pat, from + 1);
    }
}

/// A match at `i` with none in `from..i` is what `find` returns.
pub proof fn lemma_find_is<T>(s: Seq<T>, pat: Seq<T>, from: int, i: int)
    requires
        0 <= from <= i,
        matches_at(s, pat, i),
        forall|k: int| from <= k < i ==> !matches_at(s, pat, k),
    ensures
        find(s, pat, from) == Some(i),
    decreases i - from,
{
    if from < i {
        lemma_find_is(s, pat, from + 1, i);
    }
}

/// With no match in `from..i` and no room for one at `i`, `find` returns nothing.
pub proof fn lemma_find_is_none<T>(s: Seq<T>, pat: Seq<T>, from: int, i: int)
    requires
        0 <= from <= i,
        i + pat.len() > s.len(),
        forall|k: int| from <= k < i ==> !matches_at(s, pat, k),
    ensures
        find(s, pat, from) is None,
    decreases i - from,
{
    if from < i && from + pat.len() <= s.len() {
        lemma_find_is_none(s, pat, from + 1, i);
    }
}

/// An element type whose values can be compared exactly at run time.
pub trait Symbol: Copy {
    fn same(self, other: Self) -> (r: bool)
        ensures
            r == (self == other),
    ;
}

impl Symbol for u8 {
    fn same(self, other: u8) -> (r: bool) {
        self == other
    }
}

impl Symbol for char {
    fn same(self, other: char) -> (r: bool) {
        self == other
    }
}

/// Tests whether `pat` occurs in `s` at index `i`.
pub fn occurs_at<T: Symbol>(s: &[T], pat: &[T], i: usize) -> (r: bool)
    ensures
        r == matches_at(s@, pat@, i as int),
{
    if pat.len() > s.len() || i > s.len() - pat.len() {
        return false;
    }
    let mut j: usize = 0;
    while j < pat.len()
        invariant
            j <= pat.len(),
            i + pat.len() <= s.len(),
            forall|k: int| 0 <= k < j ==> s@[i + k] == pat@[k],
        decreases pat.len() - j,
    {
        if !s[i + j].same(pat[j]) {
            proof {
                let sub = s@.subrange(i as int, i + pat.len());
                assert(sub[j as int] == s@[i + j]);
            }
            return false;
        }
        j += 1;
    }
    assert(s@.subrange(i as int, i + pat.len()) =~= pat@);
    true
}

/// Finds the first occurrence of `pat` in `s` that starts at or after `from`.
pub fn find_in<T: Symbol>(s: &[T], pat: &[T], from: usize) -> (r: Option<usize>)
    ensures
        match r {
            Some(i) => find(s@, pat@, from as int) == Some(i as int),
            None => find(s@, pat@, from as int) is None,
        },
{
    if pat.len() > s.len() || from > s.len() - pat.len() {
        return None;
    }
    let last: usize = s.len() - pat.len();
    let mut i: usize = from;
    while i < last
        invariant
            from <= i <= last,
            last == s.len() - pat.len(),
            forall|k: int| from <= k < i ==> !matches_at(s@, pat@, k),
        decreases last - i,
    {
        if occurs_at(s, pat, i) {
            proof {
                lemma_find_is(s@, pat@, from as int, i as int);
            }
            return Some(i);
        }
        i += 1;
    }
    if occurs_at(s, pat, i) {
        proof {
            lemma_find_is(s@, pat@, from as int, i as int);
        }
        Some(i)
    } else {
        proof {
            lemma_find_is_none(s@, pat@, from as int, i + 1);
        }
        None
    }
}

} // verus!
