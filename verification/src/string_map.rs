//! A map with text keys, kept in ascending order of its keys.

use vstd::prelude::*;
use crate::order::{rank_texts, Rank};
use crate::order::{lemma_text_less_irreflexive, lemma_text_less_total, lemma_text_less_transitive, text_less};

verus! {

/// A map from texts to values. No key occurs twice, and the entries are walked
/// in ascending order of their keys.
#[derive(Debug, PartialEq)]
pub struct StringMap<V> {
    entries: Vec<(String, V)>,
}

/// Whether `keys` ascends strictly, so that no key occurs twice.
pub open spec fn ascending(keys: Seq<Seq<char>>) -> bool {
    forall|i: int, j: int| 0 <= i < j < keys.len() ==> text_less(#[trigger] keys[i], #[trigger] keys[j])
}

/// The keys of a list of entries.
pub open spec fn keys_of<V>(entries: Seq<(String, V)>) -> Seq<Seq<char>> {
    Seq::new(entries.len(), |i: int| entries[i].0@)
}

/// The values of a list of entries.
pub open spec fn values_of<V>(entries: Seq<(String, V)>) -> Seq<V> {
    Seq::new(entries.len(), |i: int| entries[i].1)
}

/// What a list of keys beside a list of values maps `key` to.
pub open spec fn lookup<V>(keys: Seq<Seq<char>>, values: Seq<V>, key: Seq<char>) -> Option<V> {
    if exists|i: int| 0 <= i < keys.len() && keys[i] == key {
        Some(values[choose|i: int| 0 <= i < keys.len() && keys[i] == key])
    } else {
        None
    }
}

/// In an ascending list of keys, a key is found where it stands.
pub proof fn lemma_lookup_at<V>(keys: Seq<Seq<char>>, values: Seq<V>, i: int)
    requires
        ascending(keys),
        0 <= i < keys.len(),
    ensures
        lookup(keys, values, keys[i]) == Some(values[i]),
{
    let key = keys[i];
    let j = choose|j: int| 0 <= j < keys.len() && keys[j] == key;
    lemma_text_less_irreflexive(key);
    if i < j {
        assert(text_less(keys[i], keys[j]));
    }
    if j < i {
        assert(text_less(keys[j], keys[i]));
    }
}

impl<V> StringMap<V> {
    #[verifier::type_invariant]
    spec fn sorted(self) -> bool {
        ascending(keys_of(self.entries@))
    }

    /// The entries in ascending order of their keys.
    pub closed spec fn entries(self) -> Seq<(String, V)> {
        self.entries@
    }

    /// The keys in ascending order.
    pub open spec fn keys(self) -> Seq<Seq<char>> {
        keys_of(self.entries())
    }

    /// The values, in the order of their keys.
    pub open spec fn values(self) -> Seq<V> {
        values_of(self.entries())
    }

    /// The value at `key`.
    pub open spec fn at(self, key: Seq<char>) -> Option<V> {
        lookup(self.keys(), self.values(), key)
    }

    /// A map is larger than the list of its entries.
    pub proof fn lemma_entries_decrease(self)
        ensures
            decreases_to!(self => self.entries()),
    {
    }

    /// The empty map.
    pub fn new() -> (r: Self)
        ensures
            r.entries() == Seq::<(String, V)>::empty(),
    {
        StringMap { entries: Vec::new() }
    }

    /// The number of entries.
    pub fn len(&self) -> (r: usize)
        ensures
            r == self.entries().len(),
            ascending(self.keys()),
    {
        proof {
            use_type_invariant(self);
        }
        self.entries.len()
    }

    /// The key at place `i` of the ascending order.
    pub fn key_at(&self, i: usize) -> (r: &String)
        requires
            i < self.entries().len(),
        ensures
            *r == self.entries()[i as int].0,
    {
        &self.entries[i].0
    }

    /// The value at place `i` of the ascending order.
    pub fn value_at(&self, i: usize) -> (r: &V)
        requires
            i < self.entries().len(),
        ensures
            *r == self.entries()[i as int].1,
    {
        &self.entries[i].1
    }

    /// The first place whose key is not below `key`, and whether it is `key`.
    fn place(&self, key: &str) -> (r: (usize, bool))
        ensures
            r.0 <= self.entries().len(),
            r.1 <==> r.0 < self.entries().len() && self.keys()[r.0 as int] == key@,
            r.1 <==> exists|i: int| 0 <= i < self.keys().len() && self.keys()[i] == key@,
            forall|i: int| 0 <= i < r.0 ==> text_less(#[trigger] self.keys()[i], key@),
            forall|i: int|
                r.0 <= i < self.keys().len() ==> self.keys()[i] == key@ || text_less(
                    key@,
                    #[trigger] self.keys()[i],
                ),
            ascending(self.keys()),
    {
        proof {
            use_type_invariant(self);
        }
        let mut i: usize = 0;
        while i < self.entries.len()
            invariant
                i <= self.entries@.len(),
                self.keys() == keys_of(self.entries@),
                ascending(self.keys()),
                forall|k: int| 0 <= k < i ==> text_less(#[trigger] self.keys()[k], key@),
            decreases self.entries@.len() - i,
        {
            let rank = rank_texts(self.entries[i].0.as_str(), key);
            proof {
                assert(self.keys()[i as int] == self.entries@[i as int].0@);
                lemma_text_less_irreflexive(key@);
            }
            if rank != Rank::Before {
                let found = rank == Rank::Same;
                proof {
                    lemma_text_less_total(self.keys()[i as int], key@);
                    assert forall|k: int| i <= k < self.keys().len() implies self.keys()[k] == key@ || text_less(
                        key@,
                        #[trigger] self.keys()[k],
                    ) by {
                        if k > i {
                            assert(text_less(self.keys()[i as int], self.keys()[k]));
                            if !found {
                                lemma_text_less_transitive(key@, self.keys()[i as int], self.keys()[k]);
                            }
                        }
                    }
                    if !found {
                        assert forall|k: int| 0 <= k < self.keys().len() implies self.keys()[k] != key@ by {
                            if k > i {
                                assert(text_less(self.keys()[i as int], self.keys()[k]));
                            }
                        }
                    }
                }
                return (i, found);
            }
            i = i + 1;
        }
        proof {
            lemma_text_less_irreflexive(key@);
        }
        (i, false)
    }

    /// The value at `key`, if there is one.
    pub fn get(&self, key: &str) -> (r: Option<&V>)
        ensures
            r is Some <==> self.at(key@) is Some,
            r matches Some(v) ==> self.at(key@) == Some(*v),
    {
        let (i, found) = self.place(key);
        if found {
            proof {
                lemma_lookup_at(self.keys(), self.values(), i as int);
            }
            Some(&self.entries[i].1)
        } else {
            None
        }
    }

    /// Sets the value at `key` and returns the one that it replaces, if any.
    /// Every other key keeps its value.
    pub fn insert(&mut self, key: String, value: V) -> (r: Option<V>)
        ensures
            r == old(self).at(key@),
            final(self).at(key@) == Some(value),
            forall|other: Seq<char>| other != key@ ==> #[trigger] final(self).at(other) == old(self).at(other),
            old(self).at(key@) is None ==> final(self).entries().len() == old(self).entries().len() + 1,
            old(self).at(key@) is Some ==> final(self).entries().len() == old(self).entries().len(),
            (forall|i: int| 0 <= i < old(self).keys().len() ==> text_less(#[trigger] old(self).keys()[i], key@))
                ==> final(self).entries() == old(self).entries().push((key, value)),
    {
        let (i, found) = self.place(key.as_str());
        let ghost before = *self;
        let ghost keys = before.keys();
        let mut entries: Vec<(String, V)> = Vec::new();
        std::mem::swap(&mut entries, &mut self.entries);
        let result = if found {
            let old_entry = entries.remove(i);
            proof {
                lemma_lookup_at(keys, before.values(), i as int);
            }
            Some(old_entry.1)
        } else {
            None
        };
        let ghost middle = entries@;
        entries.insert(i, (key, value));
        proof {
            let after = keys_of(entries@);
            lemma_text_less_irreflexive(key@);
            assert(entries@[i as int] == (key, value));
            assert forall|a: int, b: int| 0 <= a < b < after.len() implies text_less(
                #[trigger] after[a],
                #[trigger] after[b],
            ) by {
                let shift: int = if found { 0 } else { 1 };
                if a < i {
                    assert(after[a] == keys[a]);
                }
                if b < i {
                    assert(after[b] == keys[b]);
                    assert(text_less(keys[a], keys[b]));
                }
                if a > i {
                    assert(after[a] == keys[a - shift]);
                    assert(after[b] == keys[b - shift]);
                    assert(text_less(keys[a - shift], keys[b - shift]));
                }
                if a == i {
                    assert(after[b] == keys[b - shift]);
                    if found {
                        assert(text_less(keys[i as int], keys[b]));
                    } else {
                        assert(keys[b - shift] != key@);
                        assert(text_less(key@, keys[b - shift]));
                    }
                }
                if a < i && b > i {
                    assert(after[b] == keys[b - shift]);
                    if found {
                        assert(text_less(keys[a], keys[b]));
                    } else {
                        assert(text_less(keys[a], keys[b - shift]));
                    }
                }
            }
        }
        self.entries = entries;
        proof {
            let after = self.keys();
            let shift: int = if found { 0 } else { 1 };
            lemma_lookup_at(after, self.values(), i as int);
            assert(after[i as int] == key@);
            assert forall|other: Seq<char>| other != key@ implies #[trigger] self.at(other) == before.at(other) by {
                if exists|k: int| 0 <= k < keys.len() && keys[k] == other {
                    let k = choose|k: int| 0 <= k < keys.len() && keys[k] == other;
                    lemma_lookup_at(keys, before.values(), k);
                    let m = if k < i { k } else { k + shift };
                    assert(after[m] == other);
                    assert(self.values()[m] == before.values()[k]);
                    lemma_lookup_at(after, self.values(), m);
                } else {
                    assert forall|m: int| 0 <= m < after.len() implies after[m] != other by {
                        if m < i {
                            assert(after[m] == keys[m]);
                        } else if m > i {
                            assert(after[m] == keys[m - shift]);
                        }
                    }
                }
            }
            if forall|k: int| 0 <= k < keys.len() ==> text_less(#[trigger] keys[k], key@) {
                if i < keys.len() {
                    assert(text_less(keys[i as int], key@));
                    if keys[i as int] != key@ {
                        lemma_text_less_transitive(keys[i as int], key@, keys[i as int]);
                        lemma_text_less_irreflexive(keys[i as int]);
                    }
                }
                assert(self.entries() =~= before.entries().push((key, value)));
            }
        }
        result
    }

    /// Removes `key` and returns the value that it had, if any. Every other key
    /// keeps its value.
    pub fn remove(&mut self, key: &str) -> (r: Option<V>)
        ensures
            r == old(self).at(key@),
            final(self).at(key@) is None,
            forall|other: Seq<char>| other != key@ ==> #[trigger] final(self).at(other) == old(self).at(other),
            r is None ==> *final(self) == *old(self),
            r is Some ==> final(self).entries().len() + 1 == old(self).entries().len(),
    {
        let (i, found) = self.place(key);
        if !found {
            return None;
        }
        let ghost before = *self;
        let ghost keys = before.keys();
        let mut entries: Vec<(String, V)> = Vec::new();
        std::mem::swap(&mut entries, &mut self.entries);
        let entry = entries.remove(i);
        proof {
            lemma_lookup_at(keys, before.values(), i as int);
            lemma_text_less_irreflexive(key@);
            let after = keys_of(entries@);
            assert forall|a: int, b: int| 0 <= a < b < after.len() implies text_less(
                #[trigger] after[a],
                #[trigger] after[b],
            ) by {
                let p = if a < i { a } else { a + 1 };
                let q = if b < i { b } else { b + 1 };
                assert(after[a] == keys[p] && after[b] == keys[q]);
                assert(text_less(keys[p], keys[q]));
            }
        }
        self.entries = entries;
        proof {
            let after = self.keys();
            assert forall|m: int| 0 <= m < after.len() implies after[m] != key@ by {
                let p = if m < i { m } else { m + 1 };
                assert(after[m] == keys[p]);
                if p < i {
                    assert(text_less(keys[p], keys[i as int]));
                } else {
                    assert(text_less(keys[i as int], keys[p]));
                }
            }
            assert forall|other: Seq<char>| other != key@ implies #[trigger] self.at(other) == before.at(other) by {
                if exists|k: int| 0 <= k < keys.len() && keys[k] == other {
                    let k = choose|k: int| 0 <= k < keys.len() && keys[k] == other;
                    lemma_lookup_at(keys, before.values(), k);
                    let m = if k < i { k } else { k - 1 };
                    assert(after[m] == other);
                    assert(self.values()[m] == before.values()[k]);
                    lemma_lookup_at(after, self.values(), m);
                } else {
                    assert forall|m: int| 0 <= m < after.len() implies after[m] != other by {
                        let p = if m < i { m } else { m + 1 };
                        assert(after[m] == keys[p]);
                    }
                }
            }
        }
        Some(entry.1)
    }

    /// The entries, in ascending order of their keys.
    pub fn into_entries(self) -> (r: Vec<(String, V)>)
        ensures
            r@ == self.entries(),
            ascending(keys_of(r@)),
    {
        proof {
            use_type_invariant(&self);
        }
        self.entries
    }
}

impl<V: Clone> Clone for StringMap<V> {
    fn clone(&self) -> (r: Self)
        ensures
            r.keys() == self.keys(),
            forall|i: int|
                0 <= i < self.entries().len() ==> cloned::<V>(self.values()[i], #[trigger] r.values()[i]),
    {
        proof {
            use_type_invariant(self);
        }
        let mut entries: Vec<(String, V)> = Vec::new();
        let mut i: usize = 0;
        while i < self.entries.len()
            invariant
                i <= self.entries@.len(),
                entries@.len() == i,
                forall|k: int|
                    0 <= k < i ==> (#[trigger] entries@[k]).0 == self.entries@[k].0 && cloned::<V>(
                        self.entries@[k].1,
                        entries@[k].1,
                    ),
            decreases self.entries@.len() - i,
        {
            entries.push((self.entries[i].0.clone(), self.entries[i].1.clone()));
            i = i + 1;
        }
        assert(keys_of(entries@) =~= keys_of(self.entries@));
        StringMap { entries }
    }
}

} // verus!
