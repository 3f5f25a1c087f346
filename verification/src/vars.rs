//! Named values: build arguments, environment variables, labels.

use vstd::prelude::*;

use crate::text::same_text;

verus! {

/// A map from names to values that remembers the order in which the names were
/// first set. Every name occurs once.
#[derive(Debug)]
pub struct Vars {
    entries: Vec<(String, String)>,
}

/// The value under `key`, where the last pair with that key decides.
pub open spec fn lookup(pairs: Seq<(Seq<char>, Seq<char>)>, key: Seq<char>) -> Option<Seq<char>>
    decreases pairs.len(),
{
    if pairs.len() == 0 {
        None
    } else if pairs.last().0 == key {
        Some(pairs.last().1)
    } else {
        lookup(pairs.drop_last(), key)
    }
}

/// No two pairs have the same key.
pub open spec fn distinct_keys(pairs: Seq<(Seq<char>, Seq<char>)>) -> bool {
    forall|i: int, j: int|
        0 <= i < j < pairs.len() ==> (#[trigger] pairs[i]).0 != (#[trigger] pairs[j]).0
}

/// The map that `pairs` lists.
pub open spec fn map_of(pairs: Seq<(Seq<char>, Seq<char>)>) -> Map<Seq<char>, Seq<char>> {
    Map::new(|k: Seq<char>| lookup(pairs, k) is Some, |k: Seq<char>| lookup(pairs, k)->0)
}

/// `pairs` with `key` set to `value`: in its place where the key is there
/// already, at the end otherwise.
pub open spec fn with_pair(
    pairs: Seq<(Seq<char>, Seq<char>)>,
    key: Seq<char>,
    value: Seq<char>,
) -> Seq<(Seq<char>, Seq<char>)> {
    if lookup(pairs, key) is Some {
        pairs.map_values(
            |p: (Seq<char>, Seq<char>)|
                if p.0 == key {
                    (key, value)
                } else {
                    p
                },
        )
    } else {
        pairs.push((key, value))
    }
}

/// A key is found where some pair has it.
pub proof fn lemma_lookup(pairs: Seq<(Seq<char>, Seq<char>)>, key: Seq<char>)
    ensures
        lookup(pairs, key) is Some <==> exists|i: int|
            0 <= i < pairs.len() && (#[trigger] pairs[i]).0 == key,
    decreases pairs.len(),
{
    if pairs.len() > 0 {
        let rest = pairs.drop_last();
        lemma_lookup(rest, key);
        if pairs.last().0 == key {
            assert(pairs[pairs.len() - 1].0 == key);
        } else {
            if lookup(rest, key) is Some {
                let i = choose|i: int| 0 <= i < rest.len() && (#[trigger] rest[i]).0 == key;
                assert(pairs[i].0 == key);
            }
            if exists|i: int| 0 <= i < pairs.len() && (#[trigger] pairs[i]).0 == key {
                let i = choose|i: int| 0 <= i < pairs.len() && (#[trigger] pairs[i]).0 == key;
                assert(rest[i].0 == key);
            }
        }
    }
}

/// Where keys are distinct, a key's value is that of its only pair.
pub proof fn lemma_lookup_at(pairs: Seq<(Seq<char>, Seq<char>)>, i: int)
    requires
        distinct_keys(pairs),
        0 <= i < pairs.len(),
    ensures
        lookup(pairs, pairs[i].0) == Some(pairs[i].1),
    decreases pairs.len(),
{
    if i < pairs.len() - 1 {
        let rest = pairs.drop_last();
        assert(rest[i] == pairs[i]);
        assert(distinct_keys(rest)) by {
            assert forall|a: int, b: int| 0 <= a < b < rest.len() implies (#[trigger] rest[a]).0 != (
            #[trigger] rest[b]).0 by {
                assert(pairs[a].0 != pairs[b].0);
            }
        }
        lemma_lookup_at(rest, i);
        assert(pairs[i].0 != pairs[pairs.len() - 1].0);
    }
}

/// Setting a key keeps the keys distinct, and reading a key afterwards gives
/// the value just set, or what was there before for any other key.
pub proof fn lemma_with_pair(
    pairs: Seq<(Seq<char>, Seq<char>)>,
    key: Seq<char>,
    value: Seq<char>,
)
    requires
        distinct_keys(pairs),
    ensures
        distinct_keys(with_pair(pairs, key, value)),
        lookup(with_pair(pairs, key, value), key) == Some(value),
        forall|k: Seq<char>|
            k != key ==> #[trigger] lookup(with_pair(pairs, key, value), k) == lookup(pairs, k),
        map_of(with_pair(pairs, key, value)) == map_of(pairs).insert(key, value),
{
    let after = with_pair(pairs, key, value);
    lemma_lookup(pairs, key);
    assert(distinct_keys(after)) by {
        assert forall|a: int, b: int| 0 <= a < b < after.len() implies (#[trigger] after[a]).0 != (
        #[trigger] after[b]).0 by {
            if lookup(pairs, key) is Some {
                assert(after[a].0 == pairs[a].0 && after[b].0 == pairs[b].0);
            } else {
                assert(after[a] == pairs[a]);
                if b < pairs.len() {
                    assert(after[b] == pairs[b]);
                }
            }
        }
    }
    if lookup(pairs, key) is Some {
        let i = choose|i: int| 0 <= i < pairs.len() && (#[trigger] pairs[i]).0 == key;
        lemma_lookup_at(after, i);
        assert(after[i] == (key, value));
    } else {
        lemma_lookup_at(after, pairs.len() as int);
    }
    assert forall|k: Seq<char>| k != key implies #[trigger] lookup(after, k) == lookup(pairs, k) by {
        lemma_lookup(pairs, k);
        lemma_lookup(after, k);
        if lookup(pairs, k) is Some {
            let i = choose|i: int| 0 <= i < pairs.len() && (#[trigger] pairs[i]).0 == k;
            lemma_lookup_at(pairs, i);
            assert(after[i] == pairs[i]);
            lemma_lookup_at(after, i);
        } else if lookup(after, k) is Some {
            let i = choose|i: int| 0 <= i < after.len() && (#[trigger] after[i]).0 == k;
            assert(i < pairs.len());
            assert(pairs[i].0 == k);
        }
    }
    assert(map_of(after) =~= map_of(pairs).insert(key, value));
}

/// The pairs that `entries` holds.
pub open spec fn pair_views(entries: Seq<(String, String)>) -> Seq<(Seq<char>, Seq<char>)> {
    entries.map_values(|e: (String, String)| (e.0@, e.1@))
}

impl View for Vars {
    type V = Map<Seq<char>, Seq<char>>;

    /// The names with their values.
    open spec fn view(&self) -> Map<Seq<char>, Seq<char>> {
        map_of(self.pairs())
    }
}

impl Vars {
    /// The names with their values, in the order in which the names were first set.
    pub closed spec fn pairs(&self) -> Seq<(Seq<char>, Seq<char>)> {
        pair_views(self.entries@)
    }

    #[verifier::type_invariant]
    spec fn distinct(self) -> bool {
        distinct_keys(pair_views(self.entries@))
    }

    /// A map without names.
    pub fn new() -> (r: Self)
        ensures
            r.pairs() == Seq::<(Seq<char>, Seq<char>)>::empty(),
            r@ == Map::<Seq<char>, Seq<char>>::empty(),
    {
        let r = Vars { entries: Vec::new() };
        assert(r.pairs() =~= Seq::empty());
        assert(r@ =~= Map::empty());
        r
    }

    /// The value of `key`.
    pub fn get(&self, key: &str) -> (r: Option<&String>)
        ensures
            match r {
                Some(v) => self@.contains_key(key@) && self@[key@] == v@,
                None => !self@.contains_key(key@),
            },
    {
        proof {
            use_type_invariant(self);
            lemma_lookup(self.pairs(), key@);
        }
        for i in 0..self.entries.len()
            invariant
                distinct_keys(self.pairs()),
                forall|k: int| 0 <= k < i ==> (#[trigger] self.pairs()[k]).0 != key@,
                lookup(self.pairs(), key@) is Some <==> exists|i: int|
                    0 <= i < self.pairs().len() && (#[trigger] self.pairs()[i]).0 == key@,
        {
            assert(self.pairs()[i as int] == (self.entries@[i as int].0@, self.entries@[i as int].1@));
            if same_text(self.entries[i].0.as_str(), key) {
                proof {
                    lemma_lookup_at(self.pairs(), i as int);
                }
                return Some(&self.entries[i].1);
            }
        }
        None
    }

    /// Whether `key` has a value.
    pub fn contains_key(&self, key: &str) -> (r: bool)
        ensures
            r == self@.contains_key(key@),
    {
        self.get(key).is_some()
    }

    /// Set `key` to `value`.
    pub fn insert(&mut self, key: String, value: String)
        ensures
            final(self).pairs() == with_pair(old(self).pairs(), key@, value@),
            final(self)@ == old(self)@.insert(key@, value@),
    {
        proof {
            use_type_invariant(&*self);
            lemma_lookup(self.pairs(), key@);
            lemma_with_pair(self.pairs(), key@, value@);
        }
        let ghost before = self.pairs();
        let mut next: Vec<(String, String)> = Vec::new();
        let mut found = false;
        for i in 0..self.entries.len()
            invariant
                before == self.pairs(),
                before == pair_views(self.entries@),
                next@.len() == i,
                found == exists|k: int| 0 <= k < i && (#[trigger] before[k]).0 == key@,
                forall|k: int|
                    0 <= k < i ==> #[trigger] pair_views(next@)[k] == (if before[k].0 == key@ {
                        (key@, value@)
                    } else {
                        before[k]
                    }),
        {
            let ghost seen = pair_views(next@);
            assert(before[i as int] == (self.entries@[i as int].0@, self.entries@[i as int].1@));
            if same_text(self.entries[i].0.as_str(), key.as_str()) {
                found = true;
                next.push((key.clone(), value.clone()));
            } else {
                next.push((self.entries[i].0.clone(), self.entries[i].1.clone()));
            }
            assert forall|k: int| 0 <= k < i + 1 implies #[trigger] pair_views(next@)[k] == (
            if before[k].0 == key@ {
                (key@, value@)
            } else {
                before[k]
            }) by {
                if k < i {
                    assert(pair_views(next@)[k] == seen[k]);
                }
            }
        }
        let ghost kept = pair_views(next@);
        if !found {
            next.push((key, value));
            assert(pair_views(next@) =~= kept.push((key@, value@)));
            assert(kept =~= before);
        }
        assert(pair_views(next@) =~= with_pair(before, key@, value@));
        self.entries = next;
    }

    /// A copy with the same names, values and order.
    pub fn copy(&self) -> (r: Vars)
        ensures
            r.pairs() == self.pairs(),
            r@ == self@,
    {
        proof {
            use_type_invariant(self);
        }
        let mut next: Vec<(String, String)> = Vec::new();
        for i in 0..self.entries.len()
            invariant
                pair_views(next@) == self.pairs().take(i as int),
        {
            let ghost seen = pair_views(next@);
            next.push((self.entries[i].0.clone(), self.entries[i].1.clone()));
            assert(pair_views(next@) =~= seen.push(self.pairs()[i as int]));
            assert(pair_views(next@) =~= self.pairs().take(i + 1));
        }
        assert(self.pairs().take(self.pairs().len() as int) =~= self.pairs());
        Vars { entries: next }
    }

    /// The number of names; they are distinct.
    pub fn len(&self) -> (r: usize)
        ensures
            r == self.pairs().len(),
            distinct_keys(self.pairs()),
    {
        proof {
            use_type_invariant(self);
        }
        self.entries.len()
    }

    /// The name and the value at position `i`.
    pub fn at(&self, i: usize) -> (r: (&String, &String))
        requires
            i < self.pairs().len(),
        ensures
            self.pairs()[i as int] == (r.0@, r.1@),
    {
        (&self.entries[i].0, &self.entries[i].1)
    }
}

impl Clone for Vars {
    fn clone(&self) -> (r: Self)
        ensures
            r.pairs() == self.pairs(),
            r@ == self@,
    {
        self.copy()
    }
}

} // verus!
