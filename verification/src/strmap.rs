//! A map from strings to values, kept in ascending key order.
//!
//! The catalog, the file lists of a voice, the speaker tables and the installed voices
//! are all maps keyed by strings that are walked in key order.

use vstd::prelude::*;

use crate::text::{compare_str, lex_lt, lemma_lex_irreflexive, lemma_lex_total, lemma_lex_transitive, Cmp};

verus! {

/// The keys are in strictly ascending order (so no key occurs twice).
pub open spec fn strictly_sorted(keys: Seq<Seq<char>>) -> bool {
    forall|i: int, j: int| 0 <= i < j < keys.len() ==> lex_lt(#[trigger] keys[i], #[trigger] keys[j])
}

/// A map from strings to values whose entries are kept in ascending key order.
#[derive(Debug)]
pub struct StrMap<V> {
    entries: Vec<(String, V)>,
}

impl<V> StrMap<V> {
    /// The keys, in the order in which they are stored (ascending).
    pub closed spec fn keys(&self) -> Seq<Seq<char>> {
        Seq::new(self.entries@.len(), |i: int| self.entries@[i].0@)
    }

    /// The values, in the order of their keys.
    pub closed spec fn values(&self) -> Seq<V> {
        Seq::new(self.entries@.len(), |i: int| self.entries@[i].1)
    }

    #[verifier::type_invariant]
    spec fn keys_ascending(&self) -> bool {
        strictly_sorted(self.keys())
    }

    /// An empty map.
    pub fn new() -> (m: Self)
        ensures
            m.keys().len() == 0,
            m.values().len() == 0,
            m@ == Map::<Seq<char>, V>::empty(),
    {
        let m = StrMap { entries: Vec::new() };
        assert(m@ =~= Map::<Seq<char>, V>::empty());
        m
    }

    /// The number of entries; also states that the keys are ascending and that there are
    /// as many values as keys.
    pub fn len(&self) -> (n: usize)
        ensures
            n == self.keys().len(),
            n == self.values().len(),
            strictly_sorted(self.keys()),
    {
        proof {
            use_type_invariant(self);
        }
        self.entries.len()
    }

    /// Whether the map has no entry.
    pub fn is_empty(&self) -> (b: bool)
        ensures
            b == (self.keys().len() == 0),
    {
        self.entries.len() == 0
    }

    /// The key stored at position `i`.
    pub fn key_at(&self, i: usize) -> (k: &String)
        requires
            i < self.keys().len(),
        ensures
            k@ == self.keys()[i as int],
    {
        &self.entries[i].0
    }

    /// The value stored at position `i`.
    pub fn value_at(&self, i: usize) -> (v: &V)
        requires
            i < self.values().len(),
        ensures
            *v == self.values()[i as int],
    {
        &self.entries[i].1
    }

    /// The position of `key`, if the map has it.
    pub fn position(&self, key: &str) -> (r: Option<usize>)
        ensures
            r is None <==> !self.keys().contains(key@),
            r matches Some(i) ==> i < self.keys().len() && self.keys()[i as int] == key@,
    {
        proof {
            use_type_invariant(self);
        }
        let mut i: usize = 0;
        while i < self.entries.len()
            invariant
                i <= self.entries@.len(),
                forall|k: int| 0 <= k < i ==> self.keys()[k] != key@,
            decreases self.entries.len() - i,
        {
            if compare_str(self.entries[i].0.as_str(), key) == Cmp::Equal {
                assert(self.keys()[i as int] == key@);
                return Some(i);
            }
            i = i + 1;
        }
        None
    }

    /// The value of `key`, if the map has it.
    pub fn get(&self, key: &str) -> (r: Option<&V>)
        ensures
            r is Some <==> self@.dom().contains(key@),
            r matches Some(v) ==> *v == self@[key@],
    {
        proof {
            use_type_invariant(self);
        }
        match self.position(key) {
            Some(i) => {
                proof {
                    self.lemma_lookup(i as int);
                }
                Some(&self.entries[i].1)
            },
            None => None,
        }
    }

    /// Whether the map has `key`.
    pub fn contains_key(&self, key: &str) -> (b: bool)
        ensures
            b == self@.dom().contains(key@),
    {
        self.position(key).is_some()
    }

    /// The keys, in ascending order.
    pub fn key_list(&self) -> (r: Vec<String>)
        ensures
            r@.len() == self.keys().len(),
            forall|i: int| 0 <= i < r@.len() ==> #[trigger] r@[i]@ == self.keys()[i],
            strictly_sorted(self.keys()),
    {
        proof {
            use_type_invariant(self);
        }
        let mut r: Vec<String> = Vec::new();
        let mut i: usize = 0;
        while i < self.entries.len()
            invariant
                i <= self.entries@.len(),
                r@.len() == i,
                forall|k: int| 0 <= k < i ==> #[trigger] r@[k]@ == self.keys()[k],
            decreases self.entries.len() - i,
        {
            r.push(self.entries[i].0.clone());
            i = i + 1;
        }
        r
    }

    /// The keys that a sorted key sequence holds occur once each, so a key's position is
    /// the position of its value.
    pub proof fn lemma_lookup(&self, i: int)
        requires
            strictly_sorted(self.keys()),
            0 <= i < self.keys().len(),
        ensures
            self@.dom().contains(self.keys()[i]),
            self@[self.keys()[i]] == self.values()[i],
            self.keys().index_of(self.keys()[i]) == i,
    {
        let k = self.keys()[i];
        assert(self.keys().contains(k));
        let j = self.keys().index_of(k);
        if j < i {
            assert(lex_lt(self.keys()[j], self.keys()[i]));
            lemma_lex_irreflexive(k);
        } else if j > i {
            assert(lex_lt(self.keys()[i], self.keys()[j]));
            lemma_lex_irreflexive(k);
        }
    }

    /// There is one value per key.
    pub proof fn lemma_lengths(&self)
        ensures
            self.keys().len() == self.values().len(),
    {
    }

    /// The keys of the map are the keys of its entries.
    pub proof fn lemma_dom(&self)
        ensures
            self@.dom() == self.keys().to_set(),
    {
        assert(self@.dom() =~= self.keys().to_set());
    }

    /// Entries with ascending keys hold as many keys as entries.
    pub proof fn lemma_dom_len(&self)
        requires
            strictly_sorted(self.keys()),
        ensures
            self@.dom().len() == self.keys().len(),
    {
        let keys = self.keys();
        self.lemma_dom();
        assert(keys.no_duplicates()) by {
            assert forall|i: int, j: int| 0 <= i < keys.len() && 0 <= j < keys.len() && i != j
                implies keys[i] != keys[j] by {
                if i < j {
                    assert(lex_lt(keys[i], keys[j]));
                } else {
                    assert(lex_lt(keys[j], keys[i]));
                }
                lemma_lex_irreflexive(keys[i]);
            }
        }
        keys.unique_seq_to_set();
    }

    /// Sets `key` to `value`, keeping the keys ascending.
    pub fn insert(&mut self, key: String, value: V)
        ensures
            final(self)@ == old(self)@.insert(key@, value),
            strictly_sorted(final(self).keys()),
            final(self).keys().to_set() == old(self).keys().to_set().insert(key@),
            old(self).keys().contains(key@) ==> final(self).keys() == old(self).keys(),
            !old(self).keys().contains(key@) ==> final(self).keys().len() == old(self).keys().len() + 1,
    {
        proof {
            use_type_invariant(&*self);
        }
        let ghost old_keys = self.keys();
        let ghost old_values = self.values();
        let ghost old_map = self@;
        let mut entries: Vec<(String, V)> = Vec::new();
        std::mem::swap(&mut entries, &mut self.entries);
        assert(entries@.len() == old_keys.len());
        // find the first position whose key is not below `key`
        let mut i: usize = 0;
        while i < entries.len() && compare_str(entries[i].0.as_str(), key.as_str()) == Cmp::Less
            invariant
                i <= entries@.len(),
                entries@.len() == old_keys.len(),
                forall|k: int| 0 <= k < entries@.len() ==> #[trigger] entries@[k].0@ == old_keys[k],
                forall|k: int| 0 <= k < i ==> lex_lt(#[trigger] old_keys[k], key@),
            decreases entries.len() - i,
        {
            i = i + 1;
        }
        let found = i < entries.len() && compare_str(entries[i].0.as_str(), key.as_str())
            == Cmp::Equal;
        let ghost pos = i as int;
        proof {
            lemma_lex_total(key@, key@);
            if pos < old_keys.len() {
                lemma_lex_total(old_keys[pos], key@);
            }
        }
        assert(found ==> pos < old_keys.len() && old_keys[pos] == key@);
        assert(!found ==> pos == old_keys.len() || lex_lt(key@, old_keys[pos]));
        if found {
            let ghost before = entries@;
            entries.set(i, (key, value));
            let ghost new_keys = Seq::new(entries@.len(), |k: int| entries@[k].0@);
            assert(new_keys =~= old_keys);
            assert(strictly_sorted(new_keys));
            self.entries = entries;
            assert(self.keys() =~= old_keys);
            proof {
                assert(self@ =~= old_map.insert(key@, value)) by {
                    assert forall|k: Seq<char>| #[trigger] self@.dom().contains(k) == old_map.insert(
                        key@,
                        value,
                    ).dom().contains(k) by {}
                    assert forall|k: Seq<char>| self@.dom().contains(k) implies #[trigger] self@[k]
                        == old_map.insert(key@, value)[k] by {
                        let j = self.keys().index_of(k);
                        self.keys().index_of_first_ensures(k);
                        self.lemma_lookup(j);
                        if j != pos {
                            assert(old_keys[j] == k);
                            assert(k != key@) by {
                                if k == key@ {
                                    if j < pos {
                                        assert(lex_lt(old_keys[j], old_keys[pos]));
                                    } else {
                                        assert(lex_lt(old_keys[pos], old_keys[j]));
                                    }
                                    lemma_lex_irreflexive(k);
                                }
                            }
                            assert(self.values()[j] == old_values[j]);
                            assert(old_keys.index_of(k) == j);
                        }
                    }
                }
            }
        } else {
            let ghost before = entries@;
            entries.insert(i, (key, value));
            let ghost new_keys = Seq::new(entries@.len(), |k: int| entries@[k].0@);
            assert(new_keys =~= old_keys.insert(pos, key@));
            proof {
                assert(strictly_sorted(new_keys)) by {
                    assert forall|a: int, b: int| 0 <= a < b < new_keys.len() implies lex_lt(
                        #[trigger] new_keys[a],
                        #[trigger] new_keys[b],
                    ) by {
                        if b < pos {
                        } else if b == pos {
                        } else if a < pos {
                            assert(lex_lt(old_keys[a], key@));
                            assert(lex_lt(key@, old_keys[pos]));
                            if b - 1 > pos {
                                assert(lex_lt(old_keys[pos], old_keys[b - 1]));
                                lemma_lex_transitive(key@, old_keys[pos], old_keys[b - 1]);
                            }
                            lemma_lex_transitive(old_keys[a], key@, old_keys[b - 1]);
                        } else if a == pos {
                            if b - 1 > pos {
                                assert(lex_lt(old_keys[pos], old_keys[b - 1]));
                                lemma_lex_transitive(key@, old_keys[pos], old_keys[b - 1]);
                            }
                        } else {
                            assert(lex_lt(old_keys[a - 1], old_keys[b - 1]));
                        }
                    }
                }
            }
            self.entries = entries;
            assert(self.keys() =~= old_keys.insert(pos, key@));
            assert(self.values() =~= old_values.insert(pos, value));
            proof {
                assert(!old_keys.contains(key@)) by {
                    if old_keys.contains(key@) {
                        let j = old_keys.index_of(key@);
                        old_keys.index_of_first_ensures(key@);
                        if j < pos {
                            lemma_lex_irreflexive(key@);
                        } else {
                            if j > pos {
                                assert(lex_lt(old_keys[pos], old_keys[j]));
                                lemma_lex_transitive(key@, old_keys[pos], key@);
                            }
                            lemma_lex_irreflexive(key@);
                        }
                    }
                }
                assert(self@ =~= old_map.insert(key@, value)) by {
                    assert forall|k: Seq<char>| #[trigger] self@.dom().contains(k) == old_map.insert(
                        key@,
                        value,
                    ).dom().contains(k) by {
                        if self.keys().contains(k) {
                            let j = self.keys().index_of(k);
                            self.keys().index_of_first_ensures(k);
                            if j < pos {
                                assert(old_keys[j] == k);
                            } else if j > pos {
                                assert(old_keys[j - 1] == k);
                            }
                        }
                        if old_keys.contains(k) {
                            let j = old_keys.index_of(k);
                            old_keys.index_of_first_ensures(k);
                            if j < pos {
                                assert(self.keys()[j] == k);
                            } else {
                                assert(self.keys()[j + 1] == k);
                            }
                        }
                        if k == key@ {
                            assert(self.keys()[pos] == k);
                        }
                    }
                    assert forall|k: Seq<char>| self@.dom().contains(k) implies #[trigger] self@[k]
                        == old_map.insert(key@, value)[k] by {
                        let j = self.keys().index_of(k);
                        self.keys().index_of_first_ensures(k);
                        self.lemma_lookup(j);
                        if j < pos {
                            assert(old_keys[j] == k);
                            self.lemma_old_lookup(old_keys, old_values, old_map, j);
                            assert(k != key@);
                        } else if j > pos {
                            assert(old_keys[j - 1] == k);
                            self.lemma_old_lookup(old_keys, old_values, old_map, j - 1);
                            assert(k != key@);
                        }
                    }
                }
                assert(self.keys().to_set() =~= old_keys.to_set().insert(key@)) by {
                    assert forall|k: Seq<char>| #[trigger] self.keys().to_set().contains(k)
                        == old_keys.to_set().insert(key@).contains(k) by {
                        if self.keys().contains(k) {
                            let j = self.keys().index_of(k);
                            self.keys().index_of_first_ensures(k);
                            if j < pos {
                                assert(old_keys[j] == k);
                            } else if j > pos {
                                assert(old_keys[j - 1] == k);
                            }
                        }
                        if old_keys.contains(k) {
                            let j = old_keys.index_of(k);
                            old_keys.index_of_first_ensures(k);
                            if j < pos {
                                assert(self.keys()[j] == k);
                            } else {
                                assert(self.keys()[j + 1] == k);
                            }
                        }
                        if k == key@ {
                            assert(self.keys()[pos] == k);
                        }
                    }
                }
            }
        }
    }

    proof fn lemma_old_lookup(
        &self,
        old_keys: Seq<Seq<char>>,
        old_values: Seq<V>,
        old_map: Map<Seq<char>, V>,
        j: int,
    )
        requires
            strictly_sorted(old_keys),
            old_keys.len() == old_values.len(),
            0 <= j < old_keys.len(),
            old_map == Map::new(
                |k: Seq<char>| old_keys.contains(k),
                |k: Seq<char>| old_values[old_keys.index_of(k)],
            ),
        ensures
            old_map.dom().contains(old_keys[j]),
            old_map[old_keys[j]] == old_values[j],
    {
        let k = old_keys[j];
        assert(old_keys.contains(k));
        let i = old_keys.index_of(k);
        if i < j {
            assert(lex_lt(old_keys[i], old_keys[j]));
            lemma_lex_irreflexive(k);
        } else if i > j {
            assert(lex_lt(old_keys[j], old_keys[i]));
            lemma_lex_irreflexive(k);
        }
    }
}

impl<V: Copy> StrMap<V> {
    /// A copy of the map.
    pub fn duplicate(&self) -> (m: Self)
        ensures
            m.keys() == self.keys(),
            m.values() == self.values(),
            m@ == self@,
    {
        proof {
            use_type_invariant(self);
        }
        let mut entries: Vec<(String, V)> = Vec::new();
        let mut i: usize = 0;
        while i < self.entries.len()
            invariant
                i <= self.entries@.len(),
                entries@.len() == i,
                forall|k: int|
                    0 <= k < i ==> (#[trigger] entries@[k]).0@ == self.entries@[k].0@
                        && entries@[k].1 == self.entries@[k].1,
            decreases self.entries.len() - i,
        {
            entries.push((self.entries[i].0.clone(), self.entries[i].1));
            i = i + 1;
        }
        assert(Seq::new(entries@.len(), |k: int| entries@[k].0@) =~= self.keys());
        let m = StrMap { entries };
        assert(m.keys() =~= self.keys());
        assert(m.values() =~= self.values());
        m
    }
}

impl<V: Clone> Clone for StrMap<V> {
    /// A copy of the map: the same keys, each value cloned.
    fn clone(&self) -> (m: Self)
        ensures
            m.keys() == self.keys(),
            forall|i: int| 0 <= i < self.values().len() ==> cloned::<V>(self.values()[i], #[trigger] m.values()[i]),
    {
        proof {
            use_type_invariant(self);
        }
        let mut entries: Vec<(String, V)> = Vec::new();
        let mut i: usize = 0;
        while i < self.entries.len()
            invariant
                i <= self.entries@.len(),
                entries@.len() == i,
                forall|k: int|
                    0 <= k < i ==> (#[trigger] entries@[k]).0@ == self.entries@[k].0@
                        && cloned::<V>(self.entries@[k].1, entries@[k].1),
            decreases self.entries.len() - i,
        {
            entries.push((self.entries[i].0.clone(), self.entries[i].1.clone()));
            i = i + 1;
        }
        assert(Seq::new(entries@.len(), |k: int| entries@[k].0@) =~= self.keys());
        let m = StrMap { entries };
        assert(m.keys() =~= self.keys());
        m
    }
}

impl<V> View for StrMap<V> {
    type V = Map<Seq<char>, V>;

    /// The map's meaning: each key to its value.
    closed spec fn view(&self) -> Map<Seq<char>, V> {
        Map::new(
            |k: Seq<char>| self.keys().contains(k),
            |k: Seq<char>| self.values()[self.keys().index_of(k)],
        )
    }
}

} // verus!
