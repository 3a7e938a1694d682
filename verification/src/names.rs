//! Maps from names to values.

use vstd::prelude::*;

use crate::duplicate::Duplicate;
use crate::text;

verus! {

/// The names of entries, in their order.
pub open spec fn entry_names<V>(entries: Seq<(String, V)>) -> Seq<Seq<char>> {
    entries.map_values(|e: (String, V)| e.0@)
}

/// The map that entries make up.
pub open spec fn entry_map<V>(entries: Seq<(String, V)>) -> Map<Seq<char>, V> {
    Map::new(
        |k: Seq<char>| entry_names(entries).contains(k),
        |k: Seq<char>| entries[entry_names(entries).index_of(k)].1,
    )
}

/// A map from names to values. No name occurs twice.
#[derive(Debug)]
pub struct NameMap<V> {
    entries: Vec<(String, V)>,
}

impl<V> View for NameMap<V> {
    type V = Map<Seq<char>, V>;

    closed spec fn view(&self) -> Map<Seq<char>, V> {
        entry_map(self.entries@)
    }
}

impl<V: DeepView> DeepView for NameMap<V> {
    type V = Map<Seq<char>, <V as DeepView>::V>;

    open spec fn deep_view(&self) -> Map<Seq<char>, <V as DeepView>::V> {
        self@.map_values(|v: V| v.deep_view())
    }
}

impl<V> NameMap<V> {
    #[verifier::type_invariant]
    spec fn valid(self) -> bool {
        entry_names(self.entries@).no_duplicates()
    }

    /// The names in the order in which they are listed.
    pub closed spec fn order(self) -> Seq<Seq<char>> {
        entry_names(self.entries@)
    }

    /// The empty map.
    pub fn new() -> (r: Self)
        ensures
            r@ == Map::<Seq<char>, V>::empty(),
    {
        let r = NameMap { entries: Vec::new() };
        assert(r@ =~= Map::<Seq<char>, V>::empty());
        r
    }

    /// How many names there are.
    pub fn len(&self) -> (r: usize)
        ensures
            r == self.order().len(),
            self.order().no_duplicates(),
            forall|k: Seq<char>| #[trigger] self@.contains_key(k) <==> self.order().contains(k),
    {
        proof {
            use_type_invariant(self);
        }
        self.entries.len()
    }

    /// The name listed at place `i`.
    pub fn name_at(&self, i: usize) -> (r: &String)
        requires
            i < self.order().len(),
        ensures
            r@ == self.order()[i as int],
    {
        &self.entries[i].0
    }

    /// The value listed at place `i`.
    pub fn value_at(&self, i: usize) -> (r: &V)
        requires
            i < self.order().len(),
        ensures
            *r == self@[self.order()[i as int]],
    {
        proof {
            use_type_invariant(self);
            assert(self.order().index_of(self.order()[i as int]) == i);
        }
        &self.entries[i].1
    }

    fn place(&self, name: &str) -> (r: Option<usize>)
        ensures
            match r {
                Some(i) => i < self.entries@.len() && self.entries@[i as int].0@ == name@,
                None => !entry_names(self.entries@).contains(name@),
            },
    {
        let mut i: usize = 0;
        while i < self.entries.len()
            invariant
                i <= self.entries@.len(),
                forall|j: int| 0 <= j < i ==> #[trigger] entry_names(self.entries@)[j] != name@,
            decreases self.entries@.len() - i,
        {
            if text::same_text(self.entries[i].0.as_str(), name) {
                return Some(i);
            }
            i = i + 1;
        }
        None
    }

    /// The value of a name.
    pub fn get(&self, name: &str) -> (r: Option<&V>)
        ensures
            match r {
                Some(v) => self@.contains_key(name@) && *v == self@[name@],
                None => !self@.contains_key(name@),
            },
    {
        proof {
            use_type_invariant(self);
        }
        match self.place(name) {
            Some(i) => {
                proof {
                    let names = entry_names(self.entries@);
                    assert(names[i as int] == name@);
                    assert(names.index_of(name@) == i);
                }
                Some(&self.entries[i].1)
            },
            None => None,
        }
    }

    /// Whether the name is there.
    pub fn contains_key(&self, name: &str) -> (r: bool)
        ensures
            r == self@.contains_key(name@),
    {
        self.get(name).is_some()
    }

    /// Sets the value of a name.
    pub fn insert(&mut self, name: String, value: V)
        ensures
            final(self)@ == old(self)@.insert(name@, value),
    {
        proof {
            use_type_invariant(&*self);
        }
        let ghost before = self.entries@;
        let ghost names = entry_names(before);
        let found = self.place(name.as_str());
        let mut entries: Vec<(String, V)> = Vec::new();
        std::mem::swap(&mut entries, &mut self.entries);
        let ghost key = name@;
        match found {
            Some(i) => {
                entries.set(i, (name, value));
                proof {
                    assert(names[i as int] == key);
                    assert(entry_names(entries@) =~= names);
                    assert(names.index_of(key) == i);
                    assert(entry_map(entries@) =~= entry_map(before).insert(key, value));
                }
            },
            None => {
                entries.push((name, value));
                proof {
                    let after = entry_names(entries@);
                    assert(after =~= names.push(key));
                    assert forall|k: Seq<char>| #[trigger] after.contains(k) <==> names.contains(k)
                        || k == key by {
                        if names.contains(k) {
                            let j = names.index_of(k);
                            assert(after[j] == k);
                        }
                        if k == key {
                            assert(after[after.len() - 1] == k);
                        }
                        if after.contains(k) && k != key {
                            let j = after.index_of(k);
                            assert(names[j] == k);
                        }
                    }
                    assert forall|k: Seq<char>| #[trigger] names.contains(k) implies after.index_of(k)
                        == names.index_of(k) by {
                        let j = names.index_of(k);
                        assert(after[j] == k);
                        assert(after.contains(k));
                    }
                    assert(after.index_of(key) == after.len() - 1) by {
                        assert(after[after.len() - 1] == key);
                    }
                    assert(entry_map(entries@) =~= entry_map(before).insert(key, value));
                }
            },
        }
        self.entries = entries;
    }

    /// Takes the value of a name out of the map.
    pub fn take(&mut self, name: &str) -> (r: Option<V>)
        ensures
            final(self)@ == old(self)@.remove(name@),
            match r {
                Some(v) => old(self)@.contains_key(name@) && v == old(self)@[name@],
                None => !old(self)@.contains_key(name@),
            },
    {
        proof {
            use_type_invariant(&*self);
        }
        let ghost before = self.entries@;
        let ghost names = entry_names(before);
        let found = self.place(name);
        match found {
            Some(i) => {
                let mut entries: Vec<(String, V)> = Vec::new();
                std::mem::swap(&mut entries, &mut self.entries);
                let (_, value) = entries.remove(i);
                proof {
                    let after = entry_names(entries@);
                    assert(names[i as int] == name@);
                    assert(names.index_of(name@) == i);
                    assert(after =~= names.remove(i as int));
                    assert forall|k: Seq<char>| #[trigger] after.contains(k) <==> names.contains(k)
                        && k != name@ by {
                        if names.contains(k) && k != name@ {
                            let j = names.index_of(k);
                            if j < i {
                                assert(after[j] == k);
                            } else {
                                assert(after[j - 1] == k);
                            }
                        }
                        if after.contains(k) {
                            let j = after.index_of(k);
                            if j < i {
                                assert(names[j] == k);
                            } else {
                                assert(names[j + 1] == k);
                            }
                        }
                    }
                    assert(after.no_duplicates());
                    assert forall|k: Seq<char>| #[trigger] after.contains(k) implies entries@[after.index_of(
                        k,
                    )].1 == before[names.index_of(k)].1 by {
                        let j = names.index_of(k);
                        if j < i {
                            assert(after[j] == k);
                        } else {
                            assert(after[j - 1] == k);
                        }
                    }
                    assert(entry_map(entries@) =~= entry_map(before).remove(name@));
                }
                self.entries = entries;
                Some(value)
            },
            None => {
                assert(self@ =~= self@.remove(name@));
                None
            },
        }
    }
}

impl<V: Duplicate> Duplicate for NameMap<V> {
    fn duplicate(&self) -> (r: Self) {
        proof {
            use_type_invariant(self);
        }
        let mut entries: Vec<(String, V)> = Vec::new();
        let mut i: usize = 0;
        while i < self.entries.len()
            invariant
                i <= self.entries@.len(),
                entries@.len() == i,
                forall|j: int|
                    0 <= j < i ==> (#[trigger] entries@[j]).0@ == self.entries@[j].0@
                        && entries@[j].1.deep_view() == self.entries@[j].1.deep_view(),
            decreases self.entries@.len() - i,
        {
            entries.push((self.entries[i].0.clone(), self.entries[i].1.duplicate()));
            i = i + 1;
        }
        proof {
            assert(entry_names(entries@) =~= entry_names(self.entries@));
            let copy = NameMap { entries };
            assert(copy.deep_view() =~= self.deep_view());
        }
        NameMap { entries }
    }
}

} // verus!
