//! Wildcard patterns over paths.
//!
//! A pattern is split on `*` into its literal parts. A path matches when it
//! begins with the first part, ends with the last, and holds the parts between
//! them in order, each behind the one before. A pattern of one part has no
//! wildcard and matches only itself.

use crate::text::{
    bytes_eq, ends_with, find_from, first_occurrence, has_prefix, has_suffix,
    lemma_first_occurrence, starts_with, utf8,
};
use vstd::prelude::*;
use vstd::utf8::{
    encode_utf8_valid_utf8, is_char_boundary, is_char_boundary_iff_not_is_continuation_byte,
    valid_utf8,
};

verus! {

/// The byte `*`.
pub const WILDCARD: u8 = 42;

/// The literal parts of a pattern: what stands between its wildcards.
pub open spec fn split_star(pattern: Seq<u8>) -> Seq<Seq<u8>>
    decreases pattern.len(),
{
    if pattern.len() == 0 {
        seq![Seq::empty()]
    } else {
        let before = split_star(pattern.drop_last());
        if pattern.last() == WILDCARD {
            before.push(Seq::empty())
        } else {
            before.drop_last().push(before.last().push(pattern.last()))
        }
    }
}

/// The UTF-8 bytes of each part.
pub open spec fn parts_utf8(parts: Seq<&str>) -> Seq<Seq<u8>> {
    Seq::new(parts.len(), |k: int| utf8(parts[k]@))
}

/// Whether `path`, read from `cursor` on, holds the parts from the `k`th on:
/// each part but the last at its first occurrence behind the part before it,
/// the last part at the very end.
pub open spec fn match_from(path: Seq<u8>, parts: Seq<Seq<u8>>, k: int, cursor: int) -> bool
    decreases parts.len() - k,
{
    if k + 1 >= parts.len() {
        &&& k + 1 == parts.len()
        &&& cursor + parts[k].len() <= path.len()
        &&& has_suffix(path, parts[k])
    } else {
        match first_occurrence(path, parts[k], cursor) {
            Some(i) => match_from(path, parts, k + 1, i + parts[k].len()),
            None => false,
        }
    }
}

/// Whether `path` matches the pattern whose literal parts are `parts`. One
/// part alone is a pattern without a wildcard and is matched only by itself;
/// no parts at all are matched by every path.
pub open spec fn pattern_matches(path: Seq<u8>, parts: Seq<Seq<u8>>) -> bool {
    if parts.len() == 0 {
        true
    } else if parts.len() == 1 {
        path == parts[0]
    } else {
        has_prefix(path, parts[0]) && match_from(path, parts, 1, parts[0].len() as int)
    }
}

/// The parts written one after the other, with `gaps[k]` between part `k` and
/// the next.
pub open spec fn weave(parts: Seq<Seq<u8>>, gaps: Seq<Seq<u8>>) -> Seq<u8>
    decreases parts.len(),
{
    if parts.len() == 0 {
        Seq::empty()
    } else if parts.len() == 1 {
        parts[0]
    } else {
        parts[0] + gaps[0] + weave(parts.drop_first(), gaps.drop_first())
    }
}

/// `path` is the parts with some byte string in place of each wildcard.
pub open spec fn is_woven(path: Seq<u8>, parts: Seq<Seq<u8>>) -> bool {
    exists|gaps: Seq<Seq<u8>>| gaps.len() + 1 == parts.len() && path == weave(parts, gaps)
}

/// Whether `path` matches the pattern with the literal parts `parts`.
pub fn is_path_match(path: &str, parts: &[&str]) -> (r: bool)
    ensures
        r == pattern_matches(utf8(path@), parts_utf8(parts@)),
{
    let hay = path.as_bytes();
    let n = parts.len();
    let ghost model = parts_utf8(parts@);
    if n == 0 {
        return true;
    }
    let first = parts[0].as_bytes();
    assert(model[0] == first@);
    if n == 1 {
        return bytes_eq(hay, first);
    }
    if !starts_with(hay, first) {
        return false;
    }
    let mut cursor: usize = first.len();
    let mut k: usize = 1;
    while k < n - 1
        invariant
            n == parts.len(),
            n >= 2,
            1 <= k <= n - 1,
            hay@ == utf8(path@),
            model == parts_utf8(parts@),
            cursor <= hay.len(),
            match_from(hay@, model, 1, model[0].len() as int) == match_from(
                hay@,
                model,
                k as int,
                cursor as int,
            ),
        decreases n - k,
    {
        let part = parts[k].as_bytes();
        assert(model[k as int] == part@);
        match find_from(hay, part, cursor) {
            None => {
                return false;
            },
            Some(i) => {
                proof {
                    lemma_first_occurrence(hay@, part@, cursor as int);
                }
                cursor = i + part.len();
            },
        }
        k += 1;
    }
    let last = parts[n - 1].as_bytes();
    assert(model[n - 1] == last@);
    last.len() <= hay.len() - cursor && ends_with(hay, last)
}

/// Splits a pattern on `*` into its literal parts.
pub fn split_pattern<'a>(pattern: &'a str) -> (parts: Vec<&'a str>)
    ensures
        parts_utf8(parts@) == split_star(utf8(pattern@)),
{
    let bytes = pattern.as_bytes();
    let n = bytes.len();
    let mut parts: Vec<&str> = Vec::new();
    let mut rest: &str = pattern;
    let mut start: usize = 0;
    let mut i: usize = 0;
    proof {
        assert(bytes@.subrange(0, n as int) == bytes@);
        assert(bytes@.take(0) == Seq::<u8>::empty());
        assert(bytes@.subrange(0, 0) == Seq::<u8>::empty());
        assert(parts_utf8(parts@).push(Seq::<u8>::empty()) == seq![Seq::<u8>::empty()]);
    }
    while i < n
        invariant
            bytes@ == utf8(pattern@),
            n == bytes@.len(),
            start <= i <= n,
            utf8(rest@) == bytes@.subrange(start as int, n as int),
            split_star(bytes@.take(i as int)) == parts_utf8(parts@).push(
                bytes@.subrange(start as int, i as int),
            ),
        decreases n - i,
    {
        let ghost done = parts_utf8(parts@);
        let ghost open = bytes@.subrange(start as int, i as int);
        proof {
            assert(bytes@.take(i + 1).drop_last() == bytes@.take(i as int));
            assert(bytes@.take(i + 1).last() == bytes@[i as int]);
        }
        if bytes[i] == WILDCARD {
            proof {
                let here = utf8(rest@);
                encode_utf8_valid_utf8(rest@);
                assert(here[i - start] == bytes@[i as int]);
                is_char_boundary_iff_not_is_continuation_byte(here, i - start);
            }
            let (piece, tail) = rest.split_at(i - start);
            proof {
                let behind = utf8(tail@);
                encode_utf8_valid_utf8(tail@);
                assert(behind[0] == bytes@[i as int]);
                lemma_boundary_behind_ascii(behind);
            }
            let (_, after) = tail.split_at(1);
            parts.push(piece);
            proof {
                assert(utf8(piece@) == open);
                assert(parts_utf8(parts@) == done.push(open));
                assert(utf8(after@) == bytes@.subrange(i + 1, n as int));
                assert(bytes@.subrange(i + 1, i + 1) == Seq::<u8>::empty());
            }
            rest = after;
            start = i + 1;
        } else {
            proof {
                assert(done.push(open).drop_last() == done);
                assert(open.push(bytes@[i as int]) == bytes@.subrange(start as int, i + 1));
            }
        }
        i += 1;
    }
    proof {
        assert(bytes@.take(n as int) == bytes@);
    }
    let ghost done = parts_utf8(parts@);
    parts.push(rest);
    proof {
        assert(parts_utf8(parts@) == done.push(utf8(rest@)));
    }
    parts
}

/// In valid UTF-8 that begins with an ASCII byte, a character ends behind
/// that byte.
proof fn lemma_boundary_behind_ascii(bytes: Seq<u8>)
    requires
        valid_utf8(bytes),
        bytes.len() >= 1,
        bytes[0] <= 0x7f,
    ensures
        is_char_boundary(bytes, 1),
{
    reveal_with_fuel(is_char_boundary, 2);
    reveal_with_fuel(valid_utf8, 2);
}

} // verus!
