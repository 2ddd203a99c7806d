//! Verified helpers over strings: prefix tests, substring search, and
//! concatenation, stated over the `Seq<char>` views of `&str` and `String`.

use vstd::prelude::*;

verus! {

use vstd::string::StrSliceExecFns;
use vstd::string::StringExecFns;

/// `p` is a prefix of `s`.
pub open spec fn starts_with(s: Seq<char>, p: Seq<char>) -> bool {
    p.len() <= s.len() && s.subrange(0, p.len() as int) == p
}

/// The first position at or after `from` where `p` occurs inside `s`,
/// if there is one.
pub open spec fn find_at(s: Seq<char>, p: Seq<char>, from: int) -> Option<int>
    recommends
        0 <= from,
    decreases s.len() - from when 0 <= from
{
    if from + p.len() > s.len() {
        None
    } else if p.len() == 0 {
        Some(from)
    } else if s.subrange(from, from + p.len()) == p {
        Some(from)
    } else {
        find_at(s, p, from + 1)
    }
}

/// The first position where `p` occurs inside `s`, if any.
pub open spec fn find(s: Seq<char>, p: Seq<char>) -> Option<int> {
    find_at(s, p, 0)
}

/// Whether `s` begins with `p`, by character comparison.
pub fn str_starts_with(s: &str, p: &str) -> (r: bool)
    ensures
        r == starts_with(s@, p@),
{
    let sn: usize = s.unicode_len();
    let pn: usize = p.unicode_len();
    if pn > sn {
        assert(!starts_with(s@, p@));
        return false;
    }
    let mut i: usize = 0;
    while i < pn
        invariant
            i <= pn <= sn,
            sn == s@.len(),
            pn == p@.len(),
            forall|j: int| 0 <= j < i ==> s@[j] == p@[j],
        decreases pn - i,
    {
        if s.get_char(i) != p.get_char(i) {
            assert(s@.subrange(0, pn as int)[i as int] != p@[i as int]);
            return false;
        }
        i = i + 1;
    }
    assert(s@.subrange(0, pn as int) =~= p@);
    true
}

/// Whether `p` occurs in `s` starting exactly at position `at`.
pub(crate) fn matches_at(s: &str, p: &str, at: usize) -> (r: bool)
    requires
        at + p@.len() <= s@.len(),
    ensures
        r == (s@.subrange(at as int, at + p@.len()) == p@),
{
    let sn: usize = s.unicode_len();
    let pn: usize = p.unicode_len();
    let mut i: usize = 0;
    while i < pn
        invariant
            i <= pn,
            pn == p@.len(),
            sn == s@.len(),
            at + pn <= sn,
            forall|j: int| 0 <= j < i ==> s@[at + j] == p@[j],
        decreases pn - i,
    {
        if s.get_char(at + i) != p.get_char(i) {
            assert(s@.subrange(at as int, at + pn)[i as int] != p@[i as int]);
            return false;
        }
        i = i + 1;
    }
    assert(s@.subrange(at as int, at + pn) =~= p@);
    true
}

/// The first occurrence of `p` inside `s`, if any.
pub fn str_find(s: &str, p: &str) -> (r: Option<usize>)
    ensures
        match r {
            Some(i) => find(s@, p@) == Some(i as int),
            None => find(s@, p@) is None,
        },
{
    let sn: usize = s.unicode_len();
    let pn: usize = p.unicode_len();
    if pn > sn {
        assert(find_at(s@, p@, 0) is None);
        return None;
    }
    if pn == 0 {
        assert(s@.subrange(0, 0) =~= p@);
        return Some(0);
    }
    let mut i: usize = 0;
    while i <= sn - pn
        invariant
            1 <= pn <= sn,
            sn == s@.len(),
            pn == p@.len(),
            i <= sn - pn + 1,
            find_at(s@, p@, 0) == find_at(s@, p@, i as int),
        decreases sn - pn + 1 - i,
    {
        if matches_at(s, p, i) {
            return Some(i);
        }
        assert(find_at(s@, p@, i as int) == find_at(s@, p@, i + 1));
        i = i + 1;
    }
    assert(find_at(s@, p@, i as int) is None);
    None
}

/// A found occurrence lies inside `s`: if `p` occurs at `i`, then
/// `from <= i` and `i + p.len() <= s.len()`.
pub proof fn lemma_find_at_bounds(s: Seq<char>, p: Seq<char>, from: int)
    requires
        0 <= from,
        find_at(s, p, from) is Some,
    ensures
        from <= find_at(s, p, from)->Some_0,
        find_at(s, p, from)->Some_0 + p.len() <= s.len(),
    decreases s.len() - from,
{
    if from + p.len() > s.len() {
    } else if p.len() == 0 {
    } else if s.subrange(from, from + p.len()) == p {
    } else {
        lemma_find_at_bounds(s, p, from + 1);
    }
}

/// Whether two strings hold the same characters.
pub fn str_eq(a: &str, b: &str) -> (r: bool)
    ensures
        r == (a@ == b@),
{
    let an: usize = a.unicode_len();
    let bn: usize = b.unicode_len();
    if an != bn {
        return false;
    }
    let r = str_starts_with(a, b);
    proof {
        assert(a@.subrange(0, a@.len() as int) =~= a@);
    }
    r
}

/// A copy of a list of strings, character for character.
pub fn clone_strings(v: &Vec<String>) -> (r: Vec<String>)
    ensures
        r.deep_view() == v.deep_view(),
{
    let mut r: Vec<String> = Vec::new();
    let mut i: usize = 0;
    while i < v.len()
        invariant
            i <= v@.len(),
            r@.len() == i,
            forall|j: int| 0 <= j < i ==> r@[j]@ == v@[j]@,
        decreases v@.len() - i,
    {
        r.push(v[i].clone());
        i = i + 1;
    }
    assert(r.deep_view() =~= v.deep_view());
    r
}

/// Relies on `String::push` of std, which vstd gives no specification:
/// it appends exactly the one character to the string.
#[verifier::external_body]
pub(crate) fn push_char(s: &mut String, c: char)
    ensures
        final(s)@ == old(s)@.push(c),
{
    s.push(c);
}

/// The concatenation of two string slices.
pub fn str_concat(a: &str, b: &str) -> (r: String)
    ensures
        r@ == a@ + b@,
{
    let mut r = a.to_owned();
    r.append(b);
    r
}

} // verus!
