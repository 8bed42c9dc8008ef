//! Character-level text utilities: conversion between `str` and character
//! vectors, and a first-occurrence search with an exact contract.
use vstd::prelude::*;

verus! {

/// `p` occurs in `t` starting at index `i`.
pub open spec fn matches_at(t: Seq<char>, p: Seq<char>, i: int) -> bool {
    0 <= i && i + p.len() <= t.len() && t.subrange(i, i + p.len()) == p
}

/// `i` is the first index at or after `from` where `p` occurs in `t`.
pub open spec fn is_first_from(t: Seq<char>, p: Seq<char>, from: int, i: int) -> bool {
    &&& from <= i
    &&& matches_at(t, p, i)
    &&& forall|j: int| from <= j < i ==> !matches_at(t, p, j)
}

/// The first occurrence of `p` in `t` at or after `from`, if any.
pub open spec fn find_from(t: Seq<char>, p: Seq<char>, from: int) -> Option<int> {
    if exists|i: int| is_first_from(t, p, from, i) {
        Some(choose|i: int| is_first_from(t, p, from, i))
    } else {
        None
    }
}

/// `p` occurs somewhere in `t`.
pub open spec fn contains(t: Seq<char>, p: Seq<char>) -> bool {
    exists|i: int| matches_at(t, p, i)
}

/// The character `c` does not occur in `s`.
pub open spec fn lacks_char(s: Seq<char>, c: char) -> bool {
    forall|i: int| 0 <= i < s.len() ==> s[i] != c
}

/// There is at most one first occurrence, so `find_from` names it.
pub proof fn lemma_find_from_is(t: Seq<char>, p: Seq<char>, from: int, i: int)
    requires
        is_first_from(t, p, from, i),
    ensures
        find_from(t, p, from) == Some(i),
{
    let k = choose|k: int| is_first_from(t, p, from, k);
    assert(is_first_from(t, p, from, k));
    if k < i {
        assert(!matches_at(t, p, k));
    } else if i < k {
        assert(!matches_at(t, p, i));
    }
}

/// With no occurrence at or after `from`, `find_from` finds nothing.
pub proof fn lemma_find_from_none(t: Seq<char>, p: Seq<char>, from: int)
    requires
        forall|j: int| from <= j ==> !matches_at(t, p, j),
    ensures
        find_from(t, p, from) == None::<int>,
{
    if exists|i: int| is_first_from(t, p, from, i) {
        let k = choose|k: int| is_first_from(t, p, from, k);
        assert(matches_at(t, p, k));
    }
}

/// Relies on `String::push`, which appends one character to the string.
#[verifier::external_body]
pub(crate) fn push_char(s: &mut String, c: char)
    ensures
        final(s)@ == old(s)@.push(c),
{
    s.push(c);
}

/// The characters of `s`, in order.
pub fn chars_of(s: &str) -> (v: Vec<char>)
    ensures
        v@ == s@,
{
    broadcast use vstd::string::axiom_spec_iter;
    let mut v: Vec<char> = Vec::new();
    for c in it: s.chars()
        invariant
            it.seq() == s@,
            v@ == it.seq().take(it.index() as int),
    {
        v.push(c);
    }
    v
}

/// A string holding the characters of `v` in order.
pub fn string_of(v: &Vec<char>) -> (s: String)
    ensures
        s@ == v@,
{
    let mut s = String::new();
    let mut i: usize = 0;
    while i < v.len()
        invariant
            i <= v.len(),
            s@ == v@.take(i as int),
        decreases v.len() - i,
    {
        push_char(&mut s, v[i]);
        i = i + 1;
        assert(s@ =~= v@.take(i as int));
    }
    assert(v@.take(i as int) =~= v@);
    s
}

/// Whether `p` occurs in `t` at index `i`.
pub fn matches_at_exec(t: &Vec<char>, p: &Vec<char>, i: usize) -> (r: bool)
    ensures
        r == matches_at(t@, p@, i as int),
{
    if i > t.len() || p.len() > t.len() - i {
        return false;
    }
    let mut k: usize = 0;
    while k < p.len()
        invariant
            k <= p.len(),
            i + p.len() <= t.len(),
            forall|m: int| 0 <= m < k ==> t@[i + m] == p@[m],
        decreases p.len() - k,
    {
        if t[i + k] != p[k] {
            assert(t@.subrange(i as int, i + p.len())[k as int] != p@[k as int]);
            return false;
        }
        k = k + 1;
    }
    assert(t@.subrange(i as int, i + p.len()) =~= p@);
    true
}

/// The first index at or after `from` where `p` occurs in `t`.
pub fn find_from_exec(t: &Vec<char>, p: &Vec<char>, from: usize) -> (r: Option<usize>)
    ensures
        match r {
            Some(i) => find_from(t@, p@, from as int) == Some(i as int),
            None => find_from(t@, p@, from as int) == None::<int>,
        },
{
    if p.len() > t.len() || from > t.len() - p.len() {
        proof { lemma_find_from_none(t@, p@, from as int); }
        return None;
    }
    let last = t.len() - p.len();
    let mut i: usize = from;
    loop
        invariant
            from <= i <= last,
            last + p.len() == t.len(),
            forall|j: int| from <= j < i ==> !matches_at(t@, p@, j),
        decreases last - i,
    {
        if matches_at_exec(t, p, i) {
            proof { lemma_find_from_is(t@, p@, from as int, i as int); }
            return Some(i);
        }
        if i == last {
            proof { lemma_find_from_none(t@, p@, from as int); }
            return None;
        }
        i = i + 1;
    }
}

/// Whether `p` occurs anywhere in `t`.
pub fn contains_exec(t: &Vec<char>, p: &Vec<char>) -> (r: bool)
    ensures
        r == contains(t@, p@),
{
    let found = find_from_exec(t, p, 0);
    match found {
        Some(i) => {
            assert(is_first_from(t@, p@, 0, i as int)) by {
                assert(exists|k: int| is_first_from(t@, p@, 0, k));
            }
            true
        },
        None => {
            assert forall|j: int| !matches_at(t@, p@, j) by {
                if matches_at(t@, p@, j) {
                    assert(!(exists|k: int| is_first_from(t@, p@, 0, k)));
                    contains_first_exists(t@, p@, j);
                }
            }
            false
        },
    }
}

/// An occurrence at or after 0 means there is a first one.
proof fn contains_first_exists(t: Seq<char>, p: Seq<char>, j: int)
    requires
        matches_at(t, p, j),
    ensures
        exists|k: int| is_first_from(t, p, 0, k),
    decreases j,
{
    if forall|m: int| 0 <= m < j ==> !matches_at(t, p, m) {
        assert(is_first_from(t, p, 0, j));
    } else {
        let m = choose|m: int| 0 <= m < j && matches_at(t, p, m);
        contains_first_exists(t, p, m);
    }
}

} // verus!
