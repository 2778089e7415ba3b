//! A map from names to values that remembers the order of insertion.

use vstd::prelude::*;

verus! {

/// An insertion-ordered map keyed by text.
///
/// No key occurs twice, and an entry keeps the place it was first given:
/// inserting under a key that is already present replaces the value where
/// it stands.
#[derive(Debug, PartialEq, Eq)]
pub struct KeyMap<V> {
    entries: Vec<(String, V)>,
}

/// The position of the first entry of `entries` stored under `key`.
pub open spec fn position<T>(entries: Seq<(Seq<char>, T)>, key: Seq<char>) -> Option<int>
    decreases entries.len(),
{
    if entries.len() == 0 {
        None
    } else if entries[0].0 == key {
        Some(0int)
    } else {
        match position(entries.drop_first(), key) {
            Some(i) => Some(i + 1),
            None => None,
        }
    }
}

/// The value of the first entry of `entries` stored under `key`.
pub open spec fn lookup<T>(entries: Seq<(Seq<char>, T)>, key: Seq<char>) -> Option<T> {
    match position(entries, key) {
        Some(i) => Some(entries[i].1),
        None => None,
    }
}

/// `position` finds an index exactly when some entry carries the key, and
/// then it is the least such index.
pub proof fn lemma_position<T>(entries: Seq<(Seq<char>, T)>, key: Seq<char>)
    ensures
        match position(entries, key) {
            Some(i) => 0 <= i < entries.len() && entries[i].0 == key && forall|j: int|
                0 <= j < i ==> (#[trigger] entries[j]).0 != key,
            None => forall|j: int| 0 <= j < entries.len() ==> (#[trigger] entries[j]).0 != key,
        },
    decreases entries.len(),
{
    if entries.len() > 0 && entries[0].0 != key {
        let rest = entries.drop_first();
        lemma_position(rest, key);
        match position(rest, key) {
            Some(i) => {
                assert forall|j: int| 0 <= j < i + 1 implies (#[trigger] entries[j]).0 != key by {
                    if j > 0 {
                        assert(entries[j] == rest[j - 1]);
                    }
                }
            },
            None => {
                assert forall|j: int| 0 <= j < entries.len() implies (#[trigger] entries[j]).0
                    != key by {
                    if j > 0 {
                        assert(entries[j] == rest[j - 1]);
                    }
                }
            },
        }
    }
}

/// Where a key stands depends on the keys alone.
pub proof fn lemma_position_by_keys<A, B>(
    left: Seq<(Seq<char>, A)>,
    right: Seq<(Seq<char>, B)>,
    key: Seq<char>,
)
    requires
        left.len() == right.len(),
        forall|i: int| 0 <= i < left.len() ==> (#[trigger] left[i]).0 == right[i].0,
    ensures
        position(left, key) == position(right, key),
    decreases left.len(),
{
    if left.len() > 0 {
        assert(left[0].0 == right[0].0);
        let l = left.drop_first();
        let r = right.drop_first();
        assert forall|i: int| 0 <= i < l.len() implies (#[trigger] l[i]).0 == r[i].0 by {
            assert(left[i + 1].0 == right[i + 1].0);
        }
        lemma_position_by_keys(l, r, key);
    }
}

impl<V> KeyMap<V> {
    #[verifier::type_invariant]
    spec fn no_key_twice(self) -> bool {
        forall|i: int, j: int|
            0 <= i < j < self.entries@.len() ==> self.entries@[i].0@ != self.entries@[j].0@
    }

    /// The entries in order, each key by its characters.
    pub closed spec fn entries(&self) -> Seq<(Seq<char>, V)> {
        Seq::new(self.entries@.len(), |i: int| (self.entries@[i].0@, self.entries@[i].1))
    }

    /// An empty map.
    pub fn new() -> (map: Self)
        ensures
            map.entries() == Seq::<(Seq<char>, V)>::empty(),
    {
        let map = KeyMap { entries: Vec::new() };
        assert(map.entries() =~= Seq::empty());
        map
    }

    /// The number of entries.
    pub fn len(&self) -> (n: usize)
        ensures
            n == self.entries().len(),
    {
        self.entries.len()
    }

    /// The index of `key`, if it is present.
    pub fn index_of(&self, key: &String) -> (found: Option<usize>)
        ensures
            match found {
                Some(i) => position(self.entries(), key@) == Some(i as int),
                None => position(self.entries(), key@) is None,
            },
    {
        let mut i: usize = 0;
        while i < self.entries.len()
            invariant
                i <= self.entries@.len(),
                forall|j: int| 0 <= j < i ==> (#[trigger] self.entries()[j]).0 != key@,
            decreases self.entries@.len() - i,
        {
            if self.entries[i].0 == *key {
                proof {
                    lemma_position(self.entries(), key@);
                    assert(self.entries()[i as int].0 == key@);
                }
                return Some(i);
            }
            i = i + 1;
        }
        proof {
            lemma_position(self.entries(), key@);
        }
        None
    }

    /// The entry at position `i`.
    pub(crate) fn entry(&self, i: usize) -> (e: (&String, &V))
        requires
            i < self.entries().len(),
        ensures
            e.0@ == self.entries()[i as int].0,
            *e.1 == self.entries()[i as int].1,
    {
        let pair = &self.entries[i];
        (&pair.0, &pair.1)
    }

    /// The entry at position `i`, if there is one.
    pub fn get_index(&self, i: usize) -> (e: Option<(&String, &V)>)
        ensures
            match e {
                Some(pair) => i < self.entries().len() && pair.0@ == self.entries()[i as int].0
                    && *pair.1 == self.entries()[i as int].1,
                None => i >= self.entries().len(),
            },
    {
        if i < self.entries.len() {
            Some(self.entry(i))
        } else {
            None
        }
    }

    /// The value stored under `key`, if any.
    pub fn get(&self, key: &String) -> (value: Option<&V>)
        ensures
            match value {
                Some(v) => lookup(self.entries(), key@) == Some(*v),
                None => lookup(self.entries(), key@) is None,
            },
    {
        match self.index_of(key) {
            Some(i) => {
                proof {
                    lemma_position(self.entries(), key@);
                }
                Some(self.entry(i).1)
            },
            None => None,
        }
    }

    /// Whether an entry is stored under `key`.
    pub fn contains_key(&self, key: &String) -> (present: bool)
        ensures
            present == (position(self.entries(), key@) is Some),
    {
        self.index_of(key).is_some()
    }

    /// Stores `value` under `key`. A new key goes to the end; a key already
    /// present keeps its place, and its earlier value is handed back.
    pub fn insert(&mut self, key: String, value: V) -> (earlier: Option<V>)
        ensures
            match position(old(self).entries(), key@) {
                Some(i) => earlier == Some(old(self).entries()[i].1) && final(self).entries()
                    == old(self).entries().update(i, (key@, value)),
                None => earlier is None && final(self).entries() == old(self).entries().push(
                    (key@, value),
                ),
            },
    {
        proof {
            use_type_invariant(&*self);
            lemma_position(self.entries(), key@);
        }
        let ghost before = self.entries();
        match self.index_of(&key) {
            Some(i) => {
                let mut taken: Vec<(String, V)> = Vec::new();
                std::mem::swap(&mut taken, &mut self.entries);
                taken.push((key, value));
                let old_pair = taken.swap_remove(i);
                assert(taken@[i as int].0@ == key@);
                assert(forall|j: int| 0 <= j < taken@.len() ==> taken@[j].0@ == before[j].0);
                self.entries = taken;
                assert(self.entries() =~= before.update(i as int, (key@, value)));
                Some(old_pair.1)
            },
            None => {
                let mut taken: Vec<(String, V)> = Vec::new();
                std::mem::swap(&mut taken, &mut self.entries);
                taken.push((key, value));
                assert forall|a: int, b: int| 0 <= a < b < taken@.len() implies taken@[a].0@
                    != taken@[b].0@ by {
                    assert(taken@[a].0@ == before[a].0);
                    if b < taken@.len() - 1 {
                        assert(taken@[b].0@ == before[b].0);
                    }
                }
                self.entries = taken;
                assert(self.entries() =~= before.push((key@, value)));
                None
            },
        }
    }
}

impl<V: Clone> Clone for KeyMap<V> {
    /// A map of the same keys in the same order, each value a clone.
    fn clone(&self) -> (copy: Self)
        ensures
            copy.entries().len() == self.entries().len(),
            forall|i: int|
                0 <= i < self.entries().len() ==> (#[trigger] copy.entries()[i]).0
                    == self.entries()[i].0 && cloned::<V>(
                    self.entries()[i].1,
                    copy.entries()[i].1,
                ),
    {
        proof {
            use_type_invariant(self);
        }
        let mut entries: Vec<(String, V)> = Vec::new();
        let mut i: usize = 0;
        while i < self.entries.len()
            invariant
                i <= self.entries@.len(),
                entries@.len() == i,
                forall|j: int|
                    0 <= j < i ==> (#[trigger] entries@[j]).0@ == self.entries@[j].0@ && cloned::<
                        V,
                    >(self.entries@[j].1, entries@[j].1),
            decreases self.entries@.len() - i,
        {
            let key = self.entries[i].0.clone();
            let value = self.entries[i].1.clone();
            entries.push((key, value));
            i = i + 1;
        }
        assert forall|a: int, b: int| 0 <= a < b < entries@.len() implies entries@[a].0@
            != entries@[b].0@ by {
            assert(entries@[a].0@ == self.entries@[a].0@);
            assert(entries@[b].0@ == self.entries@[b].0@);
        }
        KeyMap { entries }
    }
}

impl<V: View> KeyMap<V> {
    /// The value stored under `key`, if any, with what that says of the
    /// map's view.
    pub fn find(&self, key: &String) -> (value: Option<&V>)
        ensures
            match value {
                Some(v) => lookup(self@, key@) == Some(v@),
                None => lookup(self@, key@) is None,
            },
    {
        proof {
            lemma_position_by_keys(self@, self.entries(), key@);
            lemma_position(self.entries(), key@);
        }
        self.get(key)
    }
}

impl<V: View> View for KeyMap<V> {
    type V = Seq<(Seq<char>, V::V)>;

    /// The entries in order, keys and values by their views.
    open spec fn view(&self) -> Seq<(Seq<char>, V::V)> {
        Seq::new(self.entries().len(), |i: int| (self.entries()[i].0, self.entries()[i].1@))
    }
}

} // verus!
