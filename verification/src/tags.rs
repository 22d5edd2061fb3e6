//! Tags: a finite map from names to values, kept as a list without repeated
//! names.

use crate::text::str_eq;
use vstd::prelude::*;

verus! {

/// A list of name and value pairs.
pub type Pairs = Seq<(Seq<char>, Seq<char>)>;

/// The map that a list of pairs stands for: a later pair replaces an earlier
/// one of the same name.
pub open spec fn pairs_map(pairs: Pairs) -> Map<Seq<char>, Seq<char>>
    decreases pairs.len(),
{
    if pairs.len() == 0 {
        Map::empty()
    } else {
        pairs_map(pairs.drop_last()).insert(pairs.last().0, pairs.last().1)
    }
}

/// No name occurs twice.
pub open spec fn distinct_names(pairs: Pairs) -> bool {
    forall|i: int, j: int| 0 <= i < j < pairs.len() ==> pairs[i].0 != pairs[j].0
}

/// In a list without repeated names every pair is what the map holds.
pub proof fn lemma_pair_is_held(pairs: Pairs, i: int)
    requires
        distinct_names(pairs),
        0 <= i < pairs.len(),
    ensures
        pairs_map(pairs).contains_key(pairs[i].0),
        pairs_map(pairs)[pairs[i].0] == pairs[i].1,
    decreases pairs.len(),
{
    if i < pairs.len() - 1 {
        lemma_pair_is_held(pairs.drop_last(), i);
    }
}

/// The map holds no name that the list lacks.
pub proof fn lemma_name_is_listed(pairs: Pairs, name: Seq<char>)
    requires
        pairs_map(pairs).contains_key(name),
    ensures
        exists|i: int| 0 <= i < pairs.len() && pairs[i].0 == name,
    decreases pairs.len(),
{
    if pairs.len() > 0 {
        if pairs.last().0 == name {
            assert(pairs[pairs.len() - 1].0 == name);
        } else {
            lemma_name_is_listed(pairs.drop_last(), name);
            let i = choose|i: int| 0 <= i < pairs.len() - 1 && pairs.drop_last()[i].0 == name;
            assert(pairs[i].0 == name);
        }
    }
}

/// A list without repeated names is as long as its map is large.
pub proof fn lemma_map_size(pairs: Pairs)
    requires
        distinct_names(pairs),
    ensures
        pairs_map(pairs).dom().finite(),
        pairs_map(pairs).len() == pairs.len(),
    decreases pairs.len(),
{
    if pairs.len() > 0 {
        let init = pairs.drop_last();
        lemma_map_size(init);
        if pairs_map(init).contains_key(pairs.last().0) {
            lemma_name_is_listed(init, pairs.last().0);
            let i = choose|i: int| 0 <= i < init.len() && init[i].0 == pairs.last().0;
            assert(pairs[i].0 == pairs[pairs.len() - 1].0);
        }
    }
}

/// Putting a new value in the place of a pair's value is `insert` on the map.
proof fn lemma_replace_is_insert(pairs: Pairs, i: int, value: Seq<char>)
    requires
        distinct_names(pairs),
        0 <= i < pairs.len(),
    ensures
        distinct_names(pairs.update(i, (pairs[i].0, value))),
        pairs_map(pairs.update(i, (pairs[i].0, value))) == pairs_map(pairs).insert(
            pairs[i].0,
            value,
        ),
    decreases pairs.len(),
{
    let name = pairs[i].0;
    let changed = pairs.update(i, (name, value));
    let init = pairs.drop_last();
    if i == pairs.len() - 1 {
        assert(changed.drop_last() == init);
        assert(pairs_map(init).insert(name, pairs[i].1).insert(name, value) == pairs_map(
            init,
        ).insert(name, value));
    } else {
        lemma_replace_is_insert(init, i, value);
        assert(changed.drop_last() == init.update(i, (name, value)));
        assert(pairs[pairs.len() - 1].0 != name);
        assert(pairs_map(init).insert(name, value).insert(pairs.last().0, pairs.last().1)
            == pairs_map(init).insert(pairs.last().0, pairs.last().1).insert(name, value));
    }
}

/// A finite map from tag names to tag values.
pub struct TagMap {
    entries: Vec<(String, String)>,
}

impl View for TagMap {
    type V = Map<Seq<char>, Seq<char>>;

    closed spec fn view(&self) -> Map<Seq<char>, Seq<char>> {
        pairs_map(self.pairs())
    }
}

impl TagMap {
    /// The pairs in the order in which their names first came in.
    pub closed spec fn pairs(&self) -> Pairs {
        Seq::new(self.entries@.len(), |i: int| (self.entries@[i].0@, self.entries@[i].1@))
    }

    #[verifier::type_invariant]
    spec fn no_name_twice(&self) -> bool {
        distinct_names(self.pairs())
    }

    /// The empty map.
    pub fn new() -> (tags: TagMap)
        ensures
            tags@ == Map::<Seq<char>, Seq<char>>::empty(),
            tags.pairs().len() == 0,
    {
        TagMap { entries: Vec::new() }
    }

    /// Where `name` stands in the list, if it does.
    fn position(&self, name: &str) -> (at: Option<usize>)
        ensures
            match at {
                Some(i) => i < self.pairs().len() && self.pairs()[i as int].0 == name@,
                None => forall|i: int| 0 <= i < self.pairs().len() ==> self.pairs()[i].0 != name@,
            },
    {
        let mut i: usize = 0;
        while i < self.entries.len()
            invariant
                i <= self.entries@.len(),
                forall|k: int| 0 <= k < i ==> self.pairs()[k].0 != name@,
            decreases self.entries@.len() - i,
        {
            if str_eq(self.entries[i].0.as_str(), name) {
                return Some(i);
            }
            i += 1;
        }
        None
    }

    /// Whether the map holds `name`.
    pub fn contains_key(&self, name: &str) -> (held: bool)
        ensures
            held == self@.contains_key(name@),
    {
        proof {
            use_type_invariant(self);
        }
        match self.position(name) {
            Some(i) => {
                proof {
                    lemma_pair_is_held(self.pairs(), i as int);
                }
                true
            },
            None => {
                proof {
                    if self@.contains_key(name@) {
                        lemma_name_is_listed(self.pairs(), name@);
                    }
                }
                false
            },
        }
    }

    /// The value of `name`, if the map holds it.
    pub fn get(&self, name: &str) -> (value: Option<&str>)
        ensures
            match value {
                Some(v) => self@.contains_key(name@) && self@[name@] == v@,
                None => !self@.contains_key(name@),
            },
    {
        proof {
            use_type_invariant(self);
        }
        match self.position(name) {
            Some(i) => {
                proof {
                    lemma_pair_is_held(self.pairs(), i as int);
                }
                Some(self.entries[i].1.as_str())
            },
            None => {
                proof {
                    if self@.contains_key(name@) {
                        lemma_name_is_listed(self.pairs(), name@);
                    }
                }
                None
            },
        }
    }

    /// Sets `name` to `value`, in the place of the value it had, if any.
    pub fn insert(&mut self, name: String, value: String)
        ensures
            final(self)@ == old(self)@.insert(name@, value@),
    {
        proof {
            use_type_invariant(&*self);
        }
        let ghost before = self.pairs();
        let at = self.position(name.as_str());
        let mut entries: Vec<(String, String)> = Vec::new();
        std::mem::swap(&mut self.entries, &mut entries);
        let ghost after = match at {
            Some(i) => before.update(i as int, (name@, value@)),
            None => before.push((name@, value@)),
        };
        proof {
            match at {
                Some(i) => {
                    lemma_replace_is_insert(before, i as int, value@);
                },
                None => {
                    assert(after.drop_last() == before);
                },
            }
        }
        match at {
            Some(i) => {
                entries.set(i, (name, value));
            },
            None => {
                entries.push((name, value));
            },
        }
        assert(Seq::new(entries@.len(), |i: int| (entries@[i].0@, entries@[i].1@)) == after);
        self.entries = entries;
        assert(self.pairs() == after);
    }

    /// Lays `other` over this map: every pair of `other` is set here.
    pub fn overlay(&mut self, other: &TagMap)
        ensures
            final(self)@ == old(self)@.union_prefer_right(other@),
    {
        let ghost start = self@;
        let ghost over = other.pairs();
        let mut i: usize = 0;
        assert(over.take(0) == Pairs::empty());
        assert(start.union_prefer_right(Map::empty()) == start);
        while i < other.entries.len()
            invariant
                i <= other.entries@.len(),
                over == other.pairs(),
                self@ == start.union_prefer_right(pairs_map(over.take(i as int))),
            decreases other.entries@.len() - i,
        {
            let name = other.entries[i].0.clone();
            let value = other.entries[i].1.clone();
            let ghost laid = pairs_map(over.take(i as int));
            proof {
                assert(over.take(i + 1).drop_last() == over.take(i as int));
                assert(over.take(i + 1).last() == (name@, value@));
                assert(start.union_prefer_right(laid).insert(name@, value@)
                    == start.union_prefer_right(laid.insert(name@, value@)));
            }
            self.insert(name, value);
            i += 1;
        }
        assert(over.take(i as int) == over);
    }

    /// The number of names.
    pub fn len(&self) -> (n: usize)
        ensures
            n == self@.len(),
            self@.dom().finite(),
    {
        proof {
            use_type_invariant(self);
            lemma_map_size(self.pairs());
        }
        self.entries.len()
    }

    /// The pairs as owned strings: no name twice, and together the whole map.
    pub fn entries(&self) -> (list: Vec<(String, String)>)
        ensures
            distinct_names(self.pairs()),
            pairs_map(self.pairs()) == self@,
            list@.len() == self.pairs().len(),
            forall|i: int|
                0 <= i < list@.len() ==> (#[trigger] list@[i]).0@ == self.pairs()[i].0
                    && list@[i].1@ == self.pairs()[i].1,
    {
        proof {
            use_type_invariant(self);
        }
        let mut list: Vec<(String, String)> = Vec::new();
        let mut i: usize = 0;
        while i < self.entries.len()
            invariant
                i <= self.entries@.len(),
                list@.len() == i,
                forall|k: int|
                    0 <= k < i ==> (#[trigger] list@[k]).0@ == self.pairs()[k].0 && list@[k].1@
                        == self.pairs()[k].1,
            decreases self.entries@.len() - i,
        {
            list.push((self.entries[i].0.clone(), self.entries[i].1.clone()));
            i += 1;
        }
        list
    }
}

} // verus!
