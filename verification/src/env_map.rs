//! The filtered mapping from variable names to values.

use vstd::prelude::*;

verus! {

/// A sequence of name/value pairs as text.
pub type Pairs = Seq<(Seq<char>, Seq<char>)>;

/// The mapping that results from inserting `pairs` in order: where a name
/// occurs more than once, the last value stands.
pub open spec fn map_of(pairs: Pairs) -> Map<Seq<char>, Seq<char>>
    decreases pairs.len(),
{
    if pairs.len() == 0 {
        Map::empty()
    } else {
        map_of(pairs.drop_last()).insert(pairs.last().0, pairs.last().1)
    }
}

/// No name occurs twice in `pairs`.
pub open spec fn distinct_names(pairs: Pairs) -> bool {
    forall|i: int, j: int| 0 <= i < j < pairs.len() ==> pairs[i].0 != pairs[j].0
}

/// The names bound by `map_of(pairs)` are the names that occur in `pairs`,
/// and the mapping is finite.
pub proof fn lemma_map_of_names(pairs: Pairs)
    ensures
        map_of(pairs).dom().finite(),
        forall|name: Seq<char>| #[trigger]
            map_of(pairs).contains_key(name) <==> exists|i: int|
                0 <= i < pairs.len() && #[trigger] pairs[i].0 == name,
    decreases pairs.len(),
{
    if pairs.len() > 0 {
        let init = pairs.drop_last();
        lemma_map_of_names(init);
        assert forall|name: Seq<char>|
            (exists|i: int|
                0 <= i < pairs.len() && #[trigger] pairs[i].0 == name) implies #[trigger] map_of(
            pairs,
        ).contains_key(name) by {
            let i = choose|i: int| 0 <= i < pairs.len() && #[trigger] pairs[i].0 == name;
            if i < pairs.len() - 1 {
                assert(init[i].0 == name);
            }
        }
    }
}

/// `map_of(pairs)` binds each name to the value of its last occurrence.
pub proof fn lemma_map_of_last_wins(pairs: Pairs, at: int)
    requires
        0 <= at < pairs.len(),
        forall|later: int| at < later < pairs.len() ==> pairs[later].0 != pairs[at].0,
    ensures
        map_of(pairs).contains_key(pairs[at].0),
        map_of(pairs)[pairs[at].0] == pairs[at].1,
    decreases pairs.len(),
{
    if at < pairs.len() - 1 {
        let init = pairs.drop_last();
        lemma_map_of_last_wins(init, at);
    }
}

/// With distinct names, `map_of(pairs)` has one binding per pair.
pub proof fn lemma_map_of_distinct(pairs: Pairs)
    requires
        distinct_names(pairs),
    ensures
        map_of(pairs).dom().finite(),
        map_of(pairs).len() == pairs.len(),
        forall|i: int|
            0 <= i < pairs.len() ==> map_of(pairs).contains_key(#[trigger] pairs[i].0) && map_of(
                pairs,
            )[pairs[i].0] == pairs[i].1,
    decreases pairs.len(),
{
    if pairs.len() > 0 {
        let init = pairs.drop_last();
        lemma_map_of_distinct(init);
        lemma_map_of_names(init);
        assert forall|i: int| 0 <= i < pairs.len() implies map_of(pairs).contains_key(
            #[trigger] pairs[i].0,
        ) && map_of(pairs)[pairs[i].0] == pairs[i].1 by {
            lemma_map_of_last_wins(pairs, i);
        }
    }
}

/// With distinct names, giving one pair a new value rebinds its name and
/// leaves the names distinct.
pub proof fn lemma_map_of_update(pairs: Pairs, at: int, value: Seq<char>)
    requires
        distinct_names(pairs),
        0 <= at < pairs.len(),
    ensures
        distinct_names(pairs.update(at, (pairs[at].0, value))),
        map_of(pairs.update(at, (pairs[at].0, value))) == map_of(pairs).insert(pairs[at].0, value),
    decreases pairs.len(),
{
    let name = pairs[at].0;
    let updated = pairs.update(at, (name, value));
    let init = pairs.drop_last();
    if at == pairs.len() - 1 {
        assert(updated.drop_last() =~= init);
    } else {
        assert(updated.drop_last() =~= init.update(at, (name, value)));
        lemma_map_of_update(init, at, value);
        assert(pairs.last().0 != name);
    }
    assert(map_of(updated) =~= map_of(pairs).insert(name, value));
}

/// A finite mapping from variable names to values. Names are unique; the
/// order in which bindings were made is not part of the value.
pub struct EnvMap {
    pub(crate) entries: Vec<(String, String)>,
}

impl View for EnvMap {
    type V = Map<Seq<char>, Seq<char>>;

    closed spec fn view(&self) -> Map<Seq<char>, Seq<char>> {
        map_of(self.entries.deep_view())
    }
}

impl EnvMap {
    #[verifier::type_invariant]
    spec fn names_are_distinct(&self) -> bool {
        distinct_names(self.entries.deep_view())
    }

    /// The empty mapping.
    pub fn new() -> (vars: EnvMap)
        ensures
            vars@ == Map::<Seq<char>, Seq<char>>::empty(),
    {
        EnvMap { entries: Vec::new() }
    }

    /// Index of the entry named `name`.
    fn position(&self, name: &String) -> (found: Option<usize>)
        ensures
            match found {
                Some(at) => at < self.entries@.len() && self.entries@[at as int].0@ == name@,
                None => forall|i: int|
                    0 <= i < self.entries@.len() ==> (#[trigger] self.entries@[i]).0@ != name@,
            },
    {
        let mut at: usize = 0;
        while at < self.entries.len()
            invariant
                at <= self.entries@.len(),
                forall|i: int| 0 <= i < at ==> (#[trigger] self.entries@[i]).0@ != name@,
            decreases self.entries.len() - at,
        {
            if self.entries[at].0 == *name {
                return Some(at);
            }
            at += 1;
        }
        None
    }

    /// Number of bindings.
    pub fn len(&self) -> (n: usize)
        ensures
            n == self@.len(),
            self@.dom().finite(),
    {
        proof {
            use_type_invariant(self);
            lemma_map_of_distinct(self.entries.deep_view());
        }
        self.entries.len()
    }

    /// Whether the mapping has no binding.
    pub fn is_empty(&self) -> (empty: bool)
        ensures
            empty == (self@ == Map::<Seq<char>, Seq<char>>::empty()),
    {
        proof {
            use_type_invariant(self);
            lemma_map_of_distinct(self.entries.deep_view());
        }
        self.entries.len() == 0
    }

    /// Whether `name` is bound.
    pub fn contains_key(&self, name: &str) -> (bound: bool)
        ensures
            bound == self@.contains_key(name@),
    {
        self.get(name).is_some()
    }

    /// The value bound to `name`, if any.
    pub fn get(&self, name: &str) -> (value: Option<&String>)
        ensures
            match value {
                Some(value) => self@.contains_key(name@) && self@[name@] == value@,
                None => !self@.contains_key(name@),
            },
    {
        let owned = name.to_owned();
        let found = self.position(&owned);
        proof {
            use_type_invariant(self);
            let pairs = self.entries.deep_view();
            lemma_map_of_distinct(pairs);
            lemma_map_of_names(pairs);
            match found {
                Some(at) => {
                    assert(pairs[at as int].0 == name@);
                },
                None => {
                    if self@.contains_key(name@) {
                        let i = choose|i: int|
                            0 <= i < pairs.len() && #[trigger] pairs[i].0 == name@;
                        assert(self.entries@[i].0@ == name@);
                    }
                },
            }
        }
        match found {
            Some(at) => Some(&self.entries[at].1),
            None => None,
        }
    }

    /// Binds `name` to `value`, replacing an earlier binding of `name`.
    pub fn insert(&mut self, name: String, value: String)
        ensures
            final(self)@ == old(self)@.insert(name@, value@),
    {
        let found = self.position(&name);
        proof {
            use_type_invariant(&*self);
        }
        let ghost before = self.entries.deep_view();
        let ghost binding = (name@, value@);
        let mut entries: Vec<(String, String)> = Vec::new();
        std::mem::swap(&mut self.entries, &mut entries);
        match found {
            Some(at) => {
                entries.set(at, (name, value));
                proof {
                    assert(entries.deep_view() =~= before.update(at as int, binding));
                    lemma_map_of_update(before, at as int, binding.1);
                }
            },
            None => {
                entries.push((name, value));
                proof {
                    let after = entries.deep_view();
                    assert(after.drop_last() =~= before);
                    assert forall|i: int, j: int| 0 <= i < j < after.len() implies after[i].0
                        != after[j].0 by {
                        if j < before.len() {
                            assert(before[i].0 != before[j].0);
                        }
                    }
                }
            },
        }
        self.entries = entries;
    }
}

} // verus!
