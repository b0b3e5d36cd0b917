//! Maps from names to values.

use crate::text::same_text;
use vstd::prelude::*;

verus! {

/// A map keyed by text: entries in order of insertion, no name twice.
pub struct TextMap<V> {
    entries: Vec<(String, V)>,
}

/// The fields of an event: names and their texts.
pub type FieldMap = TextMap<String>;

/// What a field map holds, as text.
pub open spec fn fields_of(m: FieldMap) -> Map<Seq<char>, Seq<char>> {
    m@.map_values(|s: String| s@)
}

/// The map that a sequence of entries with distinct names stands for.
pub closed spec fn entries_map<V>(e: Seq<(String, V)>) -> Map<Seq<char>, V>
    decreases e.len(),
{
    if e.len() == 0 {
        Map::empty()
    } else {
        entries_map(e.drop_last()).insert(e.last().0@, e.last().1)
    }
}

/// What the map of a sequence of entries holds, entry by entry.
proof fn lemma_entries<V>(e: Seq<(String, V)>)
    requires
        forall|i: int, j: int| 0 <= i < j < e.len() ==> (#[trigger] e[i]).0@ != (#[trigger] e[j]).0@,
    ensures
        forall|i: int|
            0 <= i < e.len() ==> entries_map(e).contains_key((#[trigger] e[i]).0@) && entries_map(
                e,
            )[e[i].0@] == e[i].1,
        forall|k: Seq<char>| #[trigger]
            entries_map(e).contains_key(k) ==> exists|i: int|
                0 <= i < e.len() && (#[trigger] e[i]).0@ == k,
        entries_map(e).dom().finite(),
        entries_map(e).dom().len() == e.len(),
    decreases e.len(),
{
    if e.len() > 0 {
        let f = e.drop_last();
        lemma_entries(f);
        assert forall|i: int| 0 <= i < e.len() implies entries_map(e).contains_key(
            (#[trigger] e[i]).0@,
        ) && entries_map(e)[e[i].0@] == e[i].1 by {
            if i < f.len() {
                assert(f[i] == e[i]);
            }
        }
        assert forall|k: Seq<char>| #[trigger] entries_map(e).contains_key(k) implies exists|i: int|
            0 <= i < e.len() && (#[trigger] e[i]).0@ == k by {
            if entries_map(f).contains_key(k) {
                let i = choose|i: int| 0 <= i < f.len() && (#[trigger] f[i]).0@ == k;
                assert(e[i].0@ == k);
            } else {
                assert(e[e.len() - 1].0@ == k);
            }
        }
        if entries_map(f).contains_key(e.last().0@) {
            let i = choose|i: int| 0 <= i < f.len() && (#[trigger] f[i]).0@ == e.last().0@;
            assert(e[i].0@ == e[e.len() - 1].0@);
        }
    }
}

impl<V> TextMap<V> {
    /// No name stands in two entries.
    #[verifier::type_invariant]
    spec fn distinct(self) -> bool {
        forall|i: int, j: int|
            0 <= i < j < self.entries@.len() ==> (#[trigger] self.entries@[i]).0@ != (
            #[trigger] self.entries@[j]).0@
    }

    /// The map from names to values.
    pub closed spec fn view(&self) -> Map<Seq<char>, V> {
        entries_map(self.entries@)
    }

    /// A map without entries.
    pub fn new() -> (m: Self)
        ensures
            m@ == Map::<Seq<char>, V>::empty(),
    {
        TextMap { entries: Vec::new() }
    }

    /// The position of a name among the entries.
    fn position(&self, name: &str) -> (found: Option<usize>)
        ensures
            match found {
                Some(i) => i < self.entries@.len() && self.entries@[i as int].0@ == name@
                    && self@.contains_key(name@) && self@[name@] == self.entries@[i as int].1,
                None => !self@.contains_key(name@),
            },
    {
        proof {
            use_type_invariant(self);
            lemma_entries(self.entries@);
        }
        let mut i: usize = 0;
        while i < self.entries.len()
            invariant
                i <= self.entries.len(),
                forall|j: int| 0 <= j < i ==> (#[trigger] self.entries@[j]).0@ != name@,
            decreases self.entries.len() - i,
        {
            if same_text(self.entries[i].0.as_str(), name) {
                proof {
                    use_type_invariant(self);
                    lemma_entries(self.entries@);
                }
                return Some(i);
            }
            i += 1;
        }
        None
    }

    /// The value under a name, where there is one.
    pub fn get(&self, name: &str) -> (found: Option<&V>)
        ensures
            match found {
                Some(v) => self@.contains_key(name@) && *v == self@[name@],
                None => !self@.contains_key(name@),
            },
    {
        match self.position(name) {
            Some(i) => Some(&self.entries[i].1),
            None => None,
        }
    }

    /// Whether a name has a value.
    pub fn contains_key(&self, name: &str) -> (found: bool)
        ensures
            found == self@.contains_key(name@),
    {
        self.position(name).is_some()
    }

    /// Whether the map has no entries.
    pub fn is_empty(&self) -> (r: bool)
        ensures
            r == (self@ == Map::<Seq<char>, V>::empty()),
    {
        proof {
            use_type_invariant(self);
            lemma_entries(self.entries@);
            if self.entries@.len() > 0 {
                assert(self@.contains_key(self.entries@[0].0@));
            }
        }
        self.entries.len() == 0
    }

    /// The name of the entry at a position.
    pub fn name_at(&self, i: usize) -> (name: &str)
        requires
            i < self@.dom().len(),
        ensures
            self@.contains_key(name@),
            name@ == self.names()[i as int],
    {
        proof {
            use_type_invariant(self);
            lemma_entries(self.entries@);
        }
        self.entries[i].0.as_str()
    }

    /// The value of the entry at a position.
    pub fn value_at(&self, i: usize) -> (v: &V)
        requires
            i < self@.dom().len(),
        ensures
            *v == self@[self.names()[i as int]],
    {
        proof {
            use_type_invariant(self);
            lemma_entries(self.entries@);
        }
        &self.entries[i].1
    }

    /// The names in order of insertion.
    pub closed spec fn names(&self) -> Seq<Seq<char>> {
        self.entries@.map_values(|e: (String, V)| e.0@)
    }

    /// The number of names, each of which stands once in `names`.
    pub fn len(&self) -> (n: usize)
        ensures
            n == self.names().len(),
            n == self@.dom().len(),
            self@.dom().finite(),
            self.names().no_duplicates(),
            forall|i: int| 0 <= i < n ==> self@.contains_key(#[trigger] self.names()[i]),
            forall|k: Seq<char>| #[trigger] self@.contains_key(k) ==> self.names().contains(k),
    {
        proof {
            use_type_invariant(self);
            lemma_entries(self.entries@);
            assert forall|k: Seq<char>| #[trigger] self@.contains_key(k) implies self.names().contains(
                k,
            ) by {
                let i = choose|i: int|
                    0 <= i < self.entries@.len() && (#[trigger] self.entries@[i]).0@ == k;
                assert(self.names()[i] == k);
            }
        }
        self.entries.len()
    }

    /// Puts a value under a name, in place of any other.
    pub fn insert(&mut self, name: String, value: V)
        ensures
            final(self)@ == old(self)@.insert(name@, value),
    {
        let ghost before = self.entries@;
        proof {
            use_type_invariant(&*self);
            lemma_entries(before);
        }
        let found = self.position(name.as_str());
        let ghost key = name@;
        let mut entries: Vec<(String, V)> = Vec::new();
        std::mem::swap(&mut entries, &mut self.entries);
        match found {
            Some(i) => {
                entries.set(i, (name, value));
                proof {
                    lemma_entries(entries@);
                    assert forall|k: Seq<char>| #[trigger] entries_map(entries@).contains_key(
                        k,
                    ) == entries_map(before).insert(key, value).contains_key(k) by {
                        if entries_map(entries@).contains_key(k) {
                            let j = choose|j: int|
                                0 <= j < entries@.len() && (#[trigger] entries@[j]).0@ == k;
                            assert(before[j].0@ == k);
                        }
                        if entries_map(before).insert(key, value).contains_key(k) && k != key {
                            let j = choose|j: int|
                                0 <= j < before.len() && (#[trigger] before[j]).0@ == k;
                            assert(entries@[j].0@ == k);
                        }
                        if k == key {
                            assert(entries@[i as int].0@ == k);
                        }
                    }
                    assert forall|k: Seq<char>| #[trigger] entries_map(entries@).contains_key(
                        k,
                    ) implies entries_map(entries@)[k] == entries_map(before).insert(key, value)[k] by {
                        let j = choose|j: int|
                            0 <= j < entries@.len() && (#[trigger] entries@[j]).0@ == k;
                        assert(before[j].0@ == k);
                        if j != i {
                            assert(entries@[j] == before[j]);
                        }
                    }
                    assert(entries_map(entries@) =~= entries_map(before).insert(key, value));
                }
            },
            None => {
                entries.push((name, value));
                proof {
                    assert(entries@.drop_last() =~= before);
                    assert forall|i: int, j: int|
                        0 <= i < j < entries@.len() implies (#[trigger] entries@[i]).0@ != (
                    #[trigger] entries@[j]).0@ by {
                        if j == before.len() {
                            assert(before[i].0@ != key);
                        }
                    }
                }
            },
        }
        self.entries = entries;
    }
}

} // verus!
