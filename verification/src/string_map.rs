//! A map with text keys.

use crate::text::same_text;
use vstd::prelude::*;

verus! {

/// A map from text to values. No key occurs twice.
#[derive(Debug)]
pub struct StringMap<T> {
    entries: Vec<(String, T)>,
}

/// Whether the entry at `i` is the one of `key`.
spec fn holds_key<T>(entries: Seq<(String, T)>, key: Seq<char>, i: int) -> bool {
    0 <= i < entries.len() && entries[i].0@ == key
}

/// The map that a list of entries makes up.
spec fn entries_map<T: DeepView>(entries: Seq<(String, T)>) -> Map<Seq<char>, T::V> {
    Map::new(
        |key: Seq<char>| exists|i: int| holds_key(entries, key, i),
        |key: Seq<char>| entries[choose|i: int| holds_key(entries, key, i)].1.deep_view(),
    )
}

impl<T: DeepView> View for StringMap<T> {
    type V = Map<Seq<char>, T::V>;

    closed spec fn view(&self) -> Map<Seq<char>, T::V> {
        entries_map(self.entries@)
    }
}

impl<T> StringMap<T> {
    #[verifier::type_invariant]
    spec fn keys_are_distinct(self) -> bool {
        forall|i: int, j: int|
            #![trigger self.entries@[i], self.entries@[j]]
            0 <= i < j < self.entries.len() ==> self.entries@[i].0@ != self.entries@[j].0@
    }
}

impl<T: DeepView> StringMap<T> {
    /// An empty map.
    pub fn new() -> (r: Self)
        ensures
            r@ == Map::<Seq<char>, T::V>::empty(),
    {
        let r: Self = StringMap { entries: Vec::new() };
        proof {
            assert(r@.dom() =~= Set::<Seq<char>>::empty());
            assert(r@ =~= Map::<Seq<char>, T::V>::empty());
        }
        r
    }

    /// The place of a key.
    fn position(&self, key: &str) -> (r: Option<usize>)
        ensures
            match r {
                Some(i) => holds_key(self.entries@, key@, i as int),
                None => forall|i: int| !holds_key(self.entries@, key@, i),
            },
    {
        let mut i: usize = 0;
        while i < self.entries.len()
            invariant
                i <= self.entries.len(),
                forall|j: int| 0 <= j < i ==> !holds_key(self.entries@, key@, j),
            decreases self.entries.len() - i,
        {
            if same_text(self.entries[i].0.as_str(), key) {
                return Some(i);
            }
            i = i + 1;
        }
        None
    }

    /// The value of a key.
    pub fn get(&self, key: &str) -> (r: Option<&T>)
        ensures
            match r {
                Some(value) => self@.contains_key(key@) && self@[key@] == value.deep_view(),
                None => !self@.contains_key(key@),
            },
    {
        proof {
            use_type_invariant(self);
        }
        match self.position(key) {
            Some(i) => {
                proof {
                    let chosen = choose|j: int| holds_key(self.entries@, key@, j);
                    assert(holds_key(self.entries@, key@, i as int));
                    assert(chosen == i);
                }
                Some(&self.entries[i].1)
            },
            None => None,
        }
    }

    /// Gives a key a value, in place of the one it had.
    pub fn insert(&mut self, key: String, value: T)
        ensures
            final(self)@ == old(self)@.insert(key@, value.deep_view()),
    {
        proof {
            use_type_invariant(&*self);
        }
        let found: Option<usize> = self.position(key.as_str());
        let mut entries: Vec<(String, T)> = Vec::new();
        let ghost before = self.entries@;
        std::mem::swap(&mut entries, &mut self.entries);
        match found {
            Some(i) => {
                entries.set(i, (key, value));
                proof {
                    lemma_update(before, i as int, entries@[i as int]);
                }
            },
            None => {
                entries.push((key, value));
                proof {
                    lemma_push(before, entries@[before.len() as int]);
                }
            },
        }
        self.entries = entries;
    }

    /// The entries of the map, each key once.
    pub fn into_entries(self) -> (r: Vec<(String, T)>)
        ensures
            forall|i: int, j: int|
                #![trigger r@[i], r@[j]]
                0 <= i < j < r.len() ==> r@[i].0@ != r@[j].0@,
            forall|i: int|
                0 <= i < r.len() ==> self@.contains_key((#[trigger] r@[i]).0@) && self@[r@[i].0@]
                    == r@[i].1.deep_view(),
            forall|key: Seq<char>| #[trigger]
                self@.contains_key(key) ==> exists|i: int| 0 <= i < r.len() && r@[i].0@ == key,
    {
        proof {
            use_type_invariant(&self);
            let entries = self.entries@;
            assert forall|i: int| 0 <= i < entries.len() implies self@.contains_key(
                (#[trigger] entries[i]).0@,
            ) && self@[entries[i].0@] == entries[i].1.deep_view() by {
                lemma_entry(entries, i);
            }
            assert forall|key: Seq<char>| #[trigger] self@.contains_key(key) implies exists|i: int|
                0 <= i < entries.len() && entries[i].0@ == key by {
                let i = choose|i: int| holds_key(entries, key, i);
                assert(entries[i].0@ == key);
            }
        }
        self.entries
    }
}

impl<T: Clone + DeepView> Clone for StringMap<T> {
    /// A map with the same keys and with clones of the values.
    fn clone(&self) -> (r: Self)
        ensures
            (forall|a: T, b: T| cloned(a, b) ==> a.deep_view() == b.deep_view()) ==> r@ == self@,
    {
        proof {
            use_type_invariant(self);
        }
        let mut entries: Vec<(String, T)> = Vec::new();
        let mut i: usize = 0;
        while i < self.entries.len()
            invariant
                i <= self.entries.len(),
                entries.len() == i,
                forall|j: int|
                    0 <= j < i ==> (#[trigger] entries@[j]).0@ == self.entries@[j].0@ && cloned(
                        self.entries@[j].1,
                        entries@[j].1,
                    ),
            decreases self.entries.len() - i,
        {
            let entry: &(String, T) = &self.entries[i];
            entries.push((entry.0.clone(), entry.1.clone()));
            i = i + 1;
        }
        proof {
            if forall|a: T, b: T| cloned(a, b) ==> a.deep_view() == b.deep_view() {
                let m = entries_map(entries@);
                assert forall|key: Seq<char>| m.contains_key(key) == self@.contains_key(key) by {
                    if m.contains_key(key) {
                        let j = choose|j: int| holds_key(entries@, key, j);
                        assert(holds_key(self.entries@, key, j));
                    }
                    if self@.contains_key(key) {
                        let j = choose|j: int| holds_key(self.entries@, key, j);
                        assert(holds_key(entries@, key, j));
                    }
                }
                assert forall|key: Seq<char>| m.contains_key(key) implies m[key] == self@[key] by {
                    let j = choose|j: int| holds_key(entries@, key, j);
                    lemma_entry(entries@, j);
                    lemma_entry(self.entries@, j);
                }
                assert(m =~= self@);
            }
        }
        StringMap { entries }
    }
}

/// Whether no key occurs twice in a list of entries.
spec fn distinct_keys<T>(entries: Seq<(String, T)>) -> bool {
    forall|i: int, j: int|
        #![trigger entries[i], entries[j]]
        0 <= i < j < entries.len() ==> entries[i].0@ != entries[j].0@
}

/// In a list without repeated keys the map has the value that stands at the
/// key's place.
proof fn lemma_entry<T: DeepView>(entries: Seq<(String, T)>, i: int)
    requires
        distinct_keys(entries),
        0 <= i < entries.len(),
    ensures
        entries_map(entries).contains_key(entries[i].0@),
        entries_map(entries)[entries[i].0@] == entries[i].1.deep_view(),
{
    let key = entries[i].0@;
    assert(holds_key(entries, key, i));
    let chosen = choose|j: int| holds_key(entries, key, j);
    assert(holds_key(entries, key, chosen));
}

/// Changing the value at a key's place changes the value of that key alone.
proof fn lemma_update<T: DeepView>(entries: Seq<(String, T)>, i: int, entry: (String, T))
    requires
        distinct_keys(entries),
        0 <= i < entries.len(),
        entries[i].0@ == entry.0@,
    ensures
        distinct_keys(entries.update(i, entry)),
        entries_map(entries.update(i, entry)) == entries_map(entries).insert(
            entry.0@,
            entry.1.deep_view(),
        ),
{
    let after = entries.update(i, entry);
    assert forall|j: int, k: int|
        #![trigger after[j], after[k]]
        0 <= j < k < after.len() implies after[j].0@ != after[k].0@ by {
        assert(entries[j].0@ != entries[k].0@);
    }
    let m = entries_map(after);
    let n = entries_map(entries).insert(entry.0@, entry.1.deep_view());
    assert forall|key: Seq<char>| m.contains_key(key) == n.contains_key(key) by {
        if m.contains_key(key) {
            let j = choose|j: int| holds_key(after, key, j);
            assert(holds_key(entries, key, j));
        }
        if n.contains_key(key) {
            if key == entry.0@ {
                assert(holds_key(after, key, i));
            } else {
                let j = choose|j: int| holds_key(entries, key, j);
                assert(holds_key(after, key, j));
            }
        }
    }
    assert forall|key: Seq<char>| m.contains_key(key) implies m[key] == n[key] by {
        let j = choose|j: int| holds_key(after, key, j);
        lemma_entry(after, j);
        lemma_entry(entries, j);
        lemma_entry(entries, i);
    }
    assert(m =~= n);
}

/// Adding an entry with a new key gives that key a value and changes no other.
proof fn lemma_push<T: DeepView>(entries: Seq<(String, T)>, entry: (String, T))
    requires
        distinct_keys(entries),
        forall|i: int| !holds_key(entries, entry.0@, i),
    ensures
        distinct_keys(entries.push(entry)),
        entries_map(entries.push(entry)) == entries_map(entries).insert(
            entry.0@,
            entry.1.deep_view(),
        ),
{
    let after = entries.push(entry);
    let last = entries.len() as int;
    assert forall|j: int, k: int|
        #![trigger after[j], after[k]]
        0 <= j < k < after.len() implies after[j].0@ != after[k].0@ by {
        if k == last {
            assert(!holds_key(entries, entry.0@, j));
        } else {
            assert(entries[j].0@ != entries[k].0@);
        }
    }
    let m = entries_map(after);
    let n = entries_map(entries).insert(entry.0@, entry.1.deep_view());
    assert forall|key: Seq<char>| m.contains_key(key) == n.contains_key(key) by {
        if m.contains_key(key) {
            let j = choose|j: int| holds_key(after, key, j);
            if j != last {
                assert(holds_key(entries, key, j));
            }
        }
        if n.contains_key(key) {
            if key == entry.0@ {
                assert(holds_key(after, key, last));
            } else {
                let j = choose|j: int| holds_key(entries, key, j);
                assert(holds_key(after, key, j));
            }
        }
    }
    assert forall|key: Seq<char>| m.contains_key(key) implies m[key] == n[key] by {
        let j = choose|j: int| holds_key(after, key, j);
        lemma_entry(after, j);
        if j == last {
            assert(key == entry.0@);
        } else {
            lemma_entry(entries, j);
        }
    }
    assert(m =~= n);
}

} // verus!
