//! What holds of every pattern and every path.

use crate::path_match::{is_woven, match_from, pattern_matches, split_star, weave, WILDCARD};
use crate::text::{
    first_occurrence, has_prefix, has_suffix, lemma_first_occurrence, lemma_utf8_injective,
    occurs_at, utf8,
};
use vstd::prelude::*;

verus! {

/// A pattern always has at least one part.
pub proof fn lemma_split_len(pattern: Seq<u8>)
    ensures
        split_star(pattern).len() >= 1,
    decreases pattern.len(),
{
    if pattern.len() > 0 {
        lemma_split_len(pattern.drop_last());
    }
}

/// A pattern without a wildcard is its own single part.
pub proof fn lemma_split_plain(pattern: Seq<u8>)
    requires
        !pattern.contains(WILDCARD),
    ensures
        split_star(pattern) == seq![pattern],
    decreases pattern.len(),
{
    if pattern.len() == 0 {
        assert(pattern == Seq::<u8>::empty());
    } else {
        let init = pattern.drop_last();
        if init.contains(WILDCARD) {
            let i = choose|i: int| 0 <= i < init.len() && init[i] == WILDCARD;
            assert(pattern[i] == WILDCARD);
        }
        lemma_split_plain(init);
        assert(pattern[pattern.len() - 1] != WILDCARD);
        assert(init.push(pattern.last()) == pattern);
        assert(seq![init].drop_last().push(seq![init].last().push(pattern.last())) == seq![
            pattern,
        ]);
    }
}

/// The parts of `a*b` are the parts of `a`, then the parts of `b`.
pub proof fn lemma_split_at_wildcard(a: Seq<u8>, b: Seq<u8>)
    ensures
        split_star(a + seq![WILDCARD] + b) == split_star(a) + split_star(b),
    decreases b.len(),
{
    let whole = a + seq![WILDCARD] + b;
    let left = split_star(a);
    if b.len() == 0 {
        assert(whole.drop_last() == a);
        assert(left.push(Seq::empty()) == left + seq![Seq::<u8>::empty()]);
    } else {
        let shorter = b.drop_last();
        let right = split_star(shorter);
        assert(whole.drop_last() == a + seq![WILDCARD] + shorter);
        assert(whole.last() == b.last());
        lemma_split_at_wildcard(a, shorter);
        lemma_split_len(shorter);
        if b.last() == WILDCARD {
            assert((left + right).push(Seq::empty()) == left + right.push(Seq::empty()));
        } else {
            let grown = right.last().push(b.last());
            assert((left + right).drop_last() == left + right.drop_last());
            assert((left + right).last() == right.last());
            assert((left + right.drop_last()).push(grown) == left + right.drop_last().push(grown));
        }
    }
}

/// A pattern of one part matches exactly the path equal to that part.
pub proof fn lemma_single_part(path: Seq<u8>, part: Seq<u8>)
    ensures
        pattern_matches(path, seq![part]) <==> path == part,
{
}

/// A pattern without a wildcard matches a path if and only if the two are
/// equal.
pub proof fn lemma_plain_pattern_is_exact(path: Seq<u8>, pattern: Seq<u8>)
    requires
        !pattern.contains(WILDCARD),
    ensures
        pattern_matches(path, split_star(pattern)) <==> path == pattern,
{
    lemma_split_plain(pattern);
}

/// The same of strings: a pattern whose bytes hold no `*` matches a path if
/// and only if the two are the same string.
pub proof fn lemma_plain_text_pattern_is_exact(path: Seq<char>, pattern: Seq<char>)
    requires
        !utf8(pattern).contains(WILDCARD),
    ensures
        pattern_matches(utf8(path), split_star(utf8(pattern))) <==> path == pattern,
{
    lemma_split_plain(utf8(pattern));
    lemma_utf8_injective(path, pattern);
}

/// A pattern of two parts matches a path if and only if the path begins with
/// the first, ends with the second, and is long enough to hold both.
pub proof fn lemma_two_parts(path: Seq<u8>, a: Seq<u8>, b: Seq<u8>)
    ensures
        pattern_matches(path, seq![a, b]) <==> {
            &&& has_prefix(path, a)
            &&& has_suffix(path, b)
            &&& path.len() >= a.len() + b.len()
        },
{
}

/// The pattern `a*b`, with no wildcard in `a` or `b`: a path matches if and
/// only if it begins with `a`, ends with `b`, and is long enough to hold both.
pub proof fn lemma_one_wildcard(path: Seq<u8>, a: Seq<u8>, b: Seq<u8>)
    requires
        !a.contains(WILDCARD),
        !b.contains(WILDCARD),
    ensures
        pattern_matches(path, split_star(a + seq![WILDCARD] + b)) <==> {
            &&& has_prefix(path, a)
            &&& has_suffix(path, b)
            &&& path.len() >= a.len() + b.len()
        },
{
    lemma_split_at_wildcard(a, b);
    lemma_split_plain(a);
    lemma_split_plain(b);
    assert(seq![a] + seq![b] == seq![a, b]);
    lemma_two_parts(path, a, b);
}

/// The pattern `a*b*c`, with no wildcard in `a`, `b` or `c`, has the parts
/// `a`, `b`, `c`.
pub proof fn lemma_split_two_wildcards(a: Seq<u8>, b: Seq<u8>, c: Seq<u8>)
    requires
        !a.contains(WILDCARD),
        !b.contains(WILDCARD),
        !c.contains(WILDCARD),
    ensures
        split_star(a + seq![WILDCARD] + b + seq![WILDCARD] + c) == seq![a, b, c],
{
    let ab = a + seq![WILDCARD] + b;
    lemma_split_at_wildcard(ab, c);
    lemma_split_at_wildcard(a, b);
    lemma_split_plain(a);
    lemma_split_plain(b);
    lemma_split_plain(c);
    assert(seq![a] + seq![b] + seq![c] == seq![a, b, c]);
}

/// From a match to the gaps: what the wildcard before part `k` stands for
/// from `cursor` on, and what each wildcard behind it stands for.
proof fn lemma_match_gives_gaps(path: Seq<u8>, parts: Seq<Seq<u8>>, k: int, cursor: int) -> (w: (
    Seq<u8>,
    Seq<Seq<u8>>,
))
    requires
        0 <= k < parts.len(),
        0 <= cursor <= path.len(),
        match_from(path, parts, k, cursor),
    ensures
        w.1.len() + k + 1 == parts.len(),
        path.skip(cursor) == w.0 + weave(parts.skip(k), w.1),
    decreases parts.len() - k,
{
    let part = parts[k];
    let tail = parts.skip(k);
    assert(tail[0] == part);
    if k + 1 == parts.len() {
        let lead = path.subrange(cursor, path.len() - part.len());
        assert(path.skip(cursor) == lead + part);
        (lead, Seq::empty())
    } else {
        lemma_first_occurrence(path, part, cursor);
        let i = first_occurrence(path, part, cursor)->0;
        let (gap, rest) = lemma_match_gives_gaps(path, parts, k + 1, i + part.len());
        let lead = path.subrange(cursor, i);
        let gaps = seq![gap] + rest;
        let behind = weave(parts.skip(k + 1), rest);
        assert(tail.drop_first() == parts.skip(k + 1));
        assert(gaps.drop_first() == rest);
        assert(weave(tail, gaps) == part + gap + behind);
        assert(path.skip(i + part.len()) == gap + behind);
        assert(path.skip(cursor) == lead + path.subrange(i, i + part.len()) + path.skip(
            i + part.len(),
        ));
        assert(path.skip(cursor) == lead + (part + gap + behind));
        (lead, gaps)
    }
}

/// From gaps to a match: where some placing of the parts from the `k`th on
/// fills the path from `cursor` on, the first occurrences do so too.
proof fn lemma_gaps_give_match(
    path: Seq<u8>,
    parts: Seq<Seq<u8>>,
    k: int,
    cursor: int,
    lead: Seq<u8>,
    gaps: Seq<Seq<u8>>,
)
    requires
        0 <= k < parts.len(),
        0 <= cursor <= path.len(),
        gaps.len() + k + 1 == parts.len(),
        path.skip(cursor) == lead + weave(parts.skip(k), gaps),
    ensures
        match_from(path, parts, k, cursor),
    decreases parts.len() - k,
{
    let part = parts[k];
    let tail = parts.skip(k);
    let rest = path.skip(cursor);
    assert(tail[0] == part);
    if k + 1 == parts.len() {
        assert(rest == lead + part);
        assert(rest.len() == lead.len() + part.len());
        assert(path.subrange(path.len() - part.len(), path.len() as int) == part) by {
            assert forall|j: int| 0 <= j < part.len() implies path[path.len() - part.len() + j]
                == part[j] by {
                assert(rest[lead.len() + j] == part[j]);
            }
        }
    } else {
        let behind = weave(tail.drop_first(), gaps.drop_first());
        let at = cursor + lead.len();
        assert(tail.drop_first() == parts.skip(k + 1));
        assert(rest == lead + (part + gaps[0] + behind));
        assert(rest.len() == lead.len() + part.len() + gaps[0].len() + behind.len());
        assert(path.subrange(at, at + part.len()) == part) by {
            assert forall|j: int| 0 <= j < part.len() implies path[at + j] == part[j] by {
                assert(rest[lead.len() + j] == part[j]);
            }
        }
        assert(occurs_at(path, part, at));
        lemma_first_occurrence(path, part, cursor);
        let i = first_occurrence(path, part, cursor)->0;
        let between = path.subrange(i + part.len(), at + part.len()) + gaps[0];
        assert(path.skip(i + part.len()) == between + behind) by {
            let left = path.skip(i + part.len());
            let right = between + behind;
            assert(left.len() == right.len());
            assert forall|j: int| 0 <= j < left.len() implies left[j] == right[j] by {
                if j >= at - i {
                    assert(left[j] == rest[i + part.len() + j - cursor]);
                }
            }
        }
        lemma_gaps_give_match(path, parts, k + 1, i + part.len(), between, gaps.drop_first());
    }
}

/// A path matches a pattern if and only if it is the pattern's parts with
/// some byte string, possibly empty, in place of each wildcard. Taking each
/// part at its first occurrence loses no match.
pub proof fn lemma_matches_iff_woven(path: Seq<u8>, parts: Seq<Seq<u8>>)
    requires
        parts.len() >= 1,
    ensures
        pattern_matches(path, parts) <==> is_woven(path, parts),
{
    let first = parts[0];
    if parts.len() == 1 {
        if path == first {
            let gaps = Seq::<Seq<u8>>::empty();
            assert(gaps.len() + 1 == parts.len() && path == weave(parts, gaps));
        }
    } else {
        if pattern_matches(path, parts) {
            let (gap, rest) = lemma_match_gives_gaps(path, parts, 1, first.len() as int);
            let gaps = seq![gap] + rest;
            assert(parts.drop_first() == parts.skip(1));
            assert(gaps.drop_first() == rest);
            assert(path == first + path.skip(first.len() as int));
            assert(path == first + gap + weave(parts.skip(1), rest));
            assert(gaps.len() + 1 == parts.len() && path == weave(parts, gaps));
        }
        if is_woven(path, parts) {
            let gaps = choose|gaps: Seq<Seq<u8>>|
                gaps.len() + 1 == parts.len() && path == weave(parts, gaps);
            let behind = weave(parts.drop_first(), gaps.drop_first());
            assert(parts.drop_first() == parts.skip(1));
            assert(path == first + gaps[0] + behind);
            assert(path.subrange(0, first.len() as int) == first);
            assert(path.skip(first.len() as int) == gaps[0] + behind);
            lemma_gaps_give_match(path, parts, 1, first.len() as int, gaps[0], gaps.drop_first());
        }
    }
}

/// The first part of a pattern begins the pattern and holds no wildcard. It
/// is the whole pattern where there is no other part, and else a wildcard
/// follows it.
pub proof fn lemma_first_part(pattern: Seq<u8>)
    ensures
        split_star(pattern).len() >= 1,
        has_prefix(pattern, split_star(pattern)[0]),
        !split_star(pattern)[0].contains(WILDCARD),
        split_star(pattern).len() == 1 ==> split_star(pattern)[0] == pattern,
        split_star(pattern).len() > 1 ==> split_star(pattern)[0].len() < pattern.len()
            && pattern[split_star(pattern)[0].len() as int] == WILDCARD,
    decreases pattern.len(),
{
    let first = split_star(pattern)[0];
    if pattern.len() == 0 {
        assert(pattern.subrange(0, 0) == first);
    } else {
        let shorter = pattern.drop_last();
        let before = split_star(shorter);
        lemma_first_part(shorter);
        if pattern.last() != WILDCARD && before.len() == 1 {
            assert(first == shorter.push(pattern.last()));
            assert(first == pattern);
            assert(pattern.subrange(0, pattern.len() as int) == pattern);
            if first.contains(WILDCARD) {
                let i = choose|i: int| 0 <= i < first.len() && first[i] == WILDCARD;
                if i < shorter.len() {
                    assert(shorter[i] == WILDCARD);
                }
            }
        } else {
            assert(first == before[0]);
            assert(pattern.subrange(0, first.len() as int) == shorter.subrange(
                0,
                first.len() as int,
            ));
        }
    }
}

/// No part of a pattern holds a wildcard.
pub proof fn lemma_parts_are_plain(pattern: Seq<u8>, k: int)
    requires
        0 <= k < split_star(pattern).len(),
    ensures
        !split_star(pattern)[k].contains(WILDCARD),
    decreases pattern.len(),
{
    let part = split_star(pattern)[k];
    if pattern.len() == 0 {
        assert(part == Seq::<u8>::empty());
    } else {
        let before = split_star(pattern.drop_last());
        lemma_split_len(pattern.drop_last());
        if pattern.last() == WILDCARD {
            if k < before.len() {
                lemma_parts_are_plain(pattern.drop_last(), k);
            } else {
                assert(part == Seq::<u8>::empty());
            }
        } else if k < before.len() - 1 {
            lemma_parts_are_plain(pattern.drop_last(), k);
        } else {
            lemma_parts_are_plain(pattern.drop_last(), k);
            assert(part == before[k].push(pattern.last()));
            if part.contains(WILDCARD) {
                let i = choose|i: int| 0 <= i < part.len() && part[i] == WILDCARD;
                assert(before[k][i] == WILDCARD);
            }
        }
    }
}

/// A wildcard for each of `n` gaps.
pub open spec fn wildcards(n: int) -> Seq<Seq<u8>> {
    Seq::new(n as nat, |k: int| seq![WILDCARD])
}

/// One more part behind one more gap comes last in what is woven.
proof fn lemma_weave_push(parts: Seq<Seq<u8>>, gaps: Seq<Seq<u8>>, gap: Seq<u8>, part: Seq<u8>)
    requires
        parts.len() >= 1,
        gaps.len() + 1 == parts.len(),
    ensures
        weave(parts.push(part), gaps.push(gap)) == weave(parts, gaps) + gap + part,
    decreases parts.len(),
{
    let more = parts.push(part);
    let wider = gaps.push(gap);
    if parts.len() == 1 {
        assert(more.drop_first() == seq![part]);
        assert(weave(more.drop_first(), wider.drop_first()) == part);
        assert(weave(more, wider) == parts[0] + gap + part);
    } else {
        lemma_weave_push(parts.drop_first(), gaps.drop_first(), gap, part);
        assert(more.drop_first() == parts.drop_first().push(part));
        assert(wider.drop_first() == gaps.drop_first().push(gap));
        let inner = weave(parts.drop_first(), gaps.drop_first());
        assert(parts[0] + gaps[0] + (inner + gap + part) == parts[0] + gaps[0] + inner + gap
            + part);
    }
}

/// A byte more at the end of the last part comes last in what is woven.
proof fn lemma_weave_grow(parts: Seq<Seq<u8>>, gaps: Seq<Seq<u8>>, byte: u8)
    requires
        parts.len() >= 1,
        gaps.len() + 1 == parts.len(),
    ensures
        weave(parts.drop_last().push(parts.last().push(byte)), gaps) == weave(parts, gaps).push(
            byte,
        ),
    decreases parts.len(),
{
    let grown = parts.drop_last().push(parts.last().push(byte));
    if parts.len() > 1 {
        let rest = parts.drop_first();
        lemma_weave_grow(rest, gaps.drop_first(), byte);
        assert(grown.drop_first() == rest.drop_last().push(rest.last().push(byte)));
        let inner = weave(rest, gaps.drop_first());
        assert(parts[0] + gaps[0] + inner.push(byte) == (parts[0] + gaps[0] + inner).push(byte));
    }
}

/// A pattern is its parts with a wildcard between each two: splitting loses
/// nothing.
pub proof fn lemma_split_weaves_back(pattern: Seq<u8>)
    ensures
        weave(split_star(pattern), wildcards(split_star(pattern).len() - 1)) == pattern,
    decreases pattern.len(),
{
    if pattern.len() == 0 {
        assert(pattern == Seq::<u8>::empty());
    } else {
        let shorter = pattern.drop_last();
        let before = split_star(shorter);
        let gaps = wildcards(before.len() - 1);
        lemma_split_len(shorter);
        lemma_split_weaves_back(shorter);
        if pattern.last() == WILDCARD {
            lemma_weave_push(before, gaps, seq![WILDCARD], Seq::empty());
            assert(gaps.push(seq![WILDCARD]) == wildcards(before.len() as int));
            assert(shorter + seq![WILDCARD] + Seq::<u8>::empty() == pattern);
        } else {
            lemma_weave_grow(before, gaps, pattern.last());
            assert(shorter.push(pattern.last()) == pattern);
        }
    }
}

/// A pattern matches itself, wildcards and all.
pub proof fn lemma_pattern_matches_itself(pattern: Seq<u8>)
    ensures
        pattern_matches(pattern, split_star(pattern)),
{
    let parts = split_star(pattern);
    let gaps = wildcards(parts.len() - 1);
    lemma_split_len(pattern);
    lemma_split_weaves_back(pattern);
    assert(gaps.len() + 1 == parts.len() && pattern == weave(parts, gaps));
    lemma_matches_iff_woven(pattern, parts);
}

/// A pattern of three parts matches every path made of the three with
/// anything between them.
pub proof fn lemma_three_parts(a: Seq<u8>, x: Seq<u8>, b: Seq<u8>, y: Seq<u8>, c: Seq<u8>)
    ensures
        pattern_matches(a + x + b + y + c, seq![a, b, c]),
{
    let parts = seq![a, b, c];
    let gaps = seq![x, y];
    let path = a + x + b + y + c;
    assert(parts.drop_first() == seq![b, c]);
    assert(gaps.drop_first() == seq![y]);
    assert(seq![b, c].drop_first() == seq![c]);
    assert(weave(seq![c], seq![y].drop_first()) == c);
    assert(weave(seq![b, c], seq![y]) == b + y + c);
    assert(weave(parts, gaps) == a + x + (b + y + c));
    assert(path == a + x + (b + y + c));
    assert(gaps.len() + 1 == parts.len() && path == weave(parts, gaps));
    lemma_matches_iff_woven(path, parts);
}

/// A path that matches a pattern of two or more parts begins with the first
/// part and ends with the last. So a path that does not end with the last
/// part matches no such pattern.
pub proof fn lemma_match_keeps_ends(path: Seq<u8>, parts: Seq<Seq<u8>>)
    requires
        parts.len() >= 2,
        pattern_matches(path, parts),
    ensures
        has_prefix(path, parts.first()),
        has_suffix(path, parts.last()),
{
    lemma_match_ends_with_last(path, parts, 1, parts[0].len() as int);
}

proof fn lemma_match_ends_with_last(path: Seq<u8>, parts: Seq<Seq<u8>>, k: int, cursor: int)
    requires
        0 <= k < parts.len(),
        match_from(path, parts, k, cursor),
    ensures
        has_suffix(path, parts.last()),
    decreases parts.len() - k,
{
    if k + 1 < parts.len() {
        let i = first_occurrence(path, parts[k], cursor)->0;
        lemma_match_ends_with_last(path, parts, k + 1, i + parts[k].len());
    }
}

} // verus!
