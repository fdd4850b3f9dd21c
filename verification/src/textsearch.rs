//! Searching text for a fixed substring.
use vstd::prelude::*;

verus! {

/// `needle` occurs in `hay` starting at position `p`.
pub open spec fn occurs_at(hay: Seq<char>, needle: Seq<char>, p: int) -> bool {
    0 <= p && p + needle.len() <= hay.len() && hay.subrange(p, p + needle.len()) == needle
}

fn matches_at(hay: &Vec<char>, needle: &Vec<char>, p: usize) -> (r: bool)
    requires
        p + needle.len() <= hay.len(),
    ensures
        r == occurs_at(hay@, needle@, p as int),
{
    let mut k: usize = 0;
    while k < needle.len()
        invariant
            k <= needle.len(),
            p + needle.len() <= hay.len(),
            forall|q: int| 0 <= q < k ==> hay@[p + q] == #[trigger] needle@[q],
        decreases needle.len() - k,
    {
        if hay[p + k] != needle[k] {
            assert(hay@.subrange(p as int, p + needle.len())[k as int] != needle@[k as int]);
            return false;
        }
        k += 1;
    }
    assert(hay@.subrange(p as int, p + needle.len()) == needle@);
    true
}

/// The first position where `needle` occurs in `hay`, if it occurs.
pub fn find(hay: &Vec<char>, needle: &Vec<char>) -> (r: Option<usize>)
    ensures
        r matches Some(p) ==> occurs_at(hay@, needle@, p as int)
            && forall|q: int| 0 <= q < p ==> !occurs_at(hay@, needle@, q),
        r is None ==> forall|q: int| !occurs_at(hay@, needle@, q),
{
    if needle.len() > hay.len() {
        return None;
    }
    let last = hay.len() - needle.len();
    let mut p: usize = 0;
    loop
        invariant
            last == hay.len() - needle.len(),
            p <= last,
            forall|q: int| 0 <= q < p ==> !occurs_at(hay@, needle@, q),
        decreases last - p,
    {
        if matches_at(hay, needle, p) {
            return Some(p);
        }
        if p == last {
            return None;
        }
        p += 1;
    }
}

/// Whether `needle` occurs anywhere in `hay`.
pub fn contains(hay: &Vec<char>, needle: &Vec<char>) -> (r: bool)
    ensures
        r == exists|q: int| occurs_at(hay@, needle@, q),
{
    match find(hay, needle) {
        Some(p) => true,
        None => false,
    }
}

/// Whether `hay` ends with `needle`.
pub fn ends_with(hay: &Vec<char>, needle: &Vec<char>) -> (r: bool)
    ensures
        r == (needle.len() <= hay.len() && occurs_at(hay@, needle@, hay.len() - needle.len())),
{
    if needle.len() > hay.len() {
        return false;
    }
    matches_at(hay, needle, hay.len() - needle.len())
}

} // verus!
