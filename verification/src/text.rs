//! Byte strings: prefixes, suffixes and occurrences.
//!
//! Paths and patterns are compared as `str` compares them: byte by byte over
//! their UTF-8 encoding. The model of a string is therefore `utf8` of its
//! characters, and everything here is stated over `Seq<u8>`.

use vstd::prelude::*;
use vstd::utf8::{encode_utf8, encode_utf8_decode_utf8};

verus! {

/// The UTF-8 bytes of a string.
pub open spec fn utf8(s: Seq<char>) -> Seq<u8> {
    encode_utf8(s)
}

/// The strings of a list, each as its characters.
pub open spec fn texts(list: Seq<String>) -> Seq<Seq<char>> {
    Seq::new(list.len(), |i: int| list[i]@)
}

/// `needle` stands in `hay` at index `i`.
pub open spec fn occurs_at(hay: Seq<u8>, needle: Seq<u8>, i: int) -> bool {
    &&& 0 <= i
    &&& i + needle.len() <= hay.len()
    &&& hay.subrange(i, i + needle.len()) == needle
}

/// `hay` begins with `needle`.
pub open spec fn has_prefix(hay: Seq<u8>, needle: Seq<u8>) -> bool {
    occurs_at(hay, needle, 0)
}

/// `hay` ends with `needle`.
pub open spec fn has_suffix(hay: Seq<u8>, needle: Seq<u8>) -> bool {
    occurs_at(hay, needle, hay.len() - needle.len())
}

/// The least index at or after `from` at which `needle` stands in `hay`.
pub open spec fn first_occurrence(hay: Seq<u8>, needle: Seq<u8>, from: int) -> Option<int>
    decreases hay.len() + 1 - from,
{
    if from < 0 || from + needle.len() > hay.len() {
        None
    } else if occurs_at(hay, needle, from) {
        Some(from)
    } else {
        first_occurrence(hay, needle, from + 1)
    }
}

/// `first_occurrence` gives an occurrence, no occurrence lies between `from`
/// and it, and it gives `None` only where there is none at all.
pub proof fn lemma_first_occurrence(hay: Seq<u8>, needle: Seq<u8>, from: int)
    requires
        0 <= from,
    ensures
        match first_occurrence(hay, needle, from) {
            Some(i) => {
                &&& from <= i
                &&& occurs_at(hay, needle, i)
                &&& forall|j: int| from <= j < i ==> !occurs_at(hay, needle, j)
            },
            None => forall|j: int| from <= j ==> !occurs_at(hay, needle, j),
        },
    decreases hay.len() + 1 - from,
{
    if from + needle.len() > hay.len() {
    } else if occurs_at(hay, needle, from) {
    } else {
        lemma_first_occurrence(hay, needle, from + 1);
    }
}

/// Two strings with the same UTF-8 bytes are the same string.
pub proof fn lemma_utf8_injective(a: Seq<char>, b: Seq<char>)
    ensures
        utf8(a) == utf8(b) <==> a == b,
{
    encode_utf8_decode_utf8(a);
    encode_utf8_decode_utf8(b);
}

/// Whether `needle` stands in `hay` at index `at`.
pub fn matches_at(hay: &[u8], needle: &[u8], at: usize) -> (r: bool)
    ensures
        r == occurs_at(hay@, needle@, at as int),
{
    if at > hay.len() || needle.len() > hay.len() - at {
        return false;
    }
    let mut k: usize = 0;
    while k < needle.len()
        invariant
            at + needle.len() <= hay.len(),
            k <= needle.len(),
            hay@.subrange(at as int, at + k) == needle@.subrange(0, k as int),
        decreases needle.len() - k,
    {
        if hay[at + k] != needle[k] {
            assert(hay@.subrange(at as int, at + needle.len())[k as int] != needle@[k as int]);
            return false;
        }
        assert(hay@.subrange(at as int, at + k + 1) == hay@.subrange(at as int, at + k).push(
            hay@[at + k],
        ));
        assert(needle@.subrange(0, k + 1) == needle@.subrange(0, k as int).push(needle@[k as int]));
        k += 1;
    }
    assert(needle@.subrange(0, k as int) == needle@);
    true
}

/// Whether two byte strings are equal.
pub fn bytes_eq(a: &[u8], b: &[u8]) -> (r: bool)
    ensures
        r == (a@ == b@),
{
    if a.len() != b.len() {
        return false;
    }
    let r = matches_at(a, b, 0);
    assert(a@.subrange(0, a@.len() as int) == a@);
    r
}

/// Whether `hay` begins with `needle`.
pub fn starts_with(hay: &[u8], needle: &[u8]) -> (r: bool)
    ensures
        r == has_prefix(hay@, needle@),
{
    matches_at(hay, needle, 0)
}

/// Whether `hay` ends with `needle`.
pub fn ends_with(hay: &[u8], needle: &[u8]) -> (r: bool)
    ensures
        r == has_suffix(hay@, needle@),
{
    if needle.len() > hay.len() {
        return false;
    }
    matches_at(hay, needle, hay.len() - needle.len())
}

/// The first index at or after `from` at which `needle` stands in `hay`.
pub fn find_from(hay: &[u8], needle: &[u8], from: usize) -> (r: Option<usize>)
    ensures
        match r {
            Some(i) => first_occurrence(hay@, needle@, from as int) == Some(i as int),
            None => first_occurrence(hay@, needle@, from as int) is None,
        },
{
    if from > hay.len() || needle.len() > hay.len() - from {
        return None;
    }
    let last: usize = hay.len() - needle.len();
    let mut i: usize = from;
    loop
        invariant
            from <= i <= last,
            last + needle.len() == hay.len(),
            first_occurrence(hay@, needle@, from as int) == first_occurrence(
                hay@,
                needle@,
                i as int,
            ),
        decreases last - i,
    {
        if matches_at(hay, needle, i) {
            return Some(i);
        }
        if i == last {
            assert(first_occurrence(hay@, needle@, i + 1) is None);
            return None;
        }
        i += 1;
    }
}

/// Whether two strings are equal.
pub fn str_eq(a: &str, b: &str) -> (r: bool)
    ensures
        r == (a@ == b@),
{
    proof {
        lemma_utf8_injective(a@, b@);
    }
    bytes_eq(a.as_bytes(), b.as_bytes())
}

} // verus!
