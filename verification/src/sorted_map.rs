//! A map from text keys to values that keeps its entries in key order, as
//! `BTreeMap<String, V>` does.
use vstd::prelude::*;
use crate::order::{
    key_less, key_lt, lemma_equal_if_neither_less, lemma_key_less_irreflexive, lemma_key_less_total,
    lemma_key_less_transitive,
};

verus! {

/// Every key comes strictly before every later key.
pub open spec fn strictly_sorted(keys: Seq<Seq<char>>) -> bool {
    forall|i: int, j: int| 0 <= i < j < keys.len() ==> key_less(#[trigger] keys[i], #[trigger] keys[j])
}

/// A strictly sorted key sequence has no key twice.
pub proof fn lemma_sorted_keys_unique(keys: Seq<Seq<char>>, i: int, j: int)
    requires
        strictly_sorted(keys),
        0 <= i < keys.len(),
        0 <= j < keys.len(),
        keys[i] == keys[j],
    ensures
        i == j,
{
    if i < j {
        lemma_key_less_irreflexive(keys[i]);
        assert(key_less(keys[i], keys[j]));
    } else if j < i {
        lemma_key_less_irreflexive(keys[i]);
        assert(key_less(keys[j], keys[i]));
    }
}

/// A map with text keys whose entries stand in key order, each key once.
pub struct SortedMap<V> {
    entries: Vec<(String, V)>,
}

impl<V> SortedMap<V> {
    /// The keys, in order.
    pub closed spec fn keys(&self) -> Seq<Seq<char>> {
        self.entries@.map_values(|e: (String, V)| e.0@)
    }

    /// The values, in the order of their keys.
    pub closed spec fn values(&self) -> Seq<V> {
        self.entries@.map_values(|e: (String, V)| e.1)
    }

    #[verifier::type_invariant]
    closed spec fn keys_in_order(&self) -> bool {
        strictly_sorted(self.keys())
    }

    /// The map that the entries spell out.
    pub closed spec fn as_map(&self) -> Map<Seq<char>, V> {
        Map::new(
            |k: Seq<char>| self.keys().contains(k),
            |k: Seq<char>| self.values()[self.keys().index_of(k)],
        )
    }

    /// The entries agree with the map: the same keys, each with its value.
    pub open spec fn entries_agree(&self) -> bool {
        &&& self.keys().len() == self.values().len()
        &&& strictly_sorted(self.keys())
        &&& forall|k: Seq<char>| #[trigger] self@.contains_key(k) <==> self.keys().contains(k)
        &&& forall|i: int|
            0 <= i < self.keys().len() ==> #[trigger] self@[self.keys()[i]] == self.values()[i]
    }

    proof fn lemma_entries_agree(&self)
        requires
            strictly_sorted(self.keys()),
        ensures
            self.entries_agree(),
    {
        assert forall|i: int| 0 <= i < self.keys().len() implies #[trigger] self@[self.keys()[i]]
            == self.values()[i] by {
            let k = self.keys()[i];
            assert(self.keys().contains(k));
            let j = self.keys().index_of(k);
            lemma_sorted_keys_unique(self.keys(), i, j);
        }
    }

    /// An empty map.
    pub fn new() -> (m: Self)
        ensures
            m@ == Map::<Seq<char>, V>::empty(),
            m.keys() == Seq::<Seq<char>>::empty(),
    {
        let m = SortedMap { entries: Vec::new() };
        assert(m.keys() =~= Seq::<Seq<char>>::empty());
        assert(m@ =~= Map::<Seq<char>, V>::empty());
        m
    }

    /// The number of entries; also states how the entries make up the map.
    pub fn len(&self) -> (n: usize)
        ensures
            n == self.keys().len(),
            self.entries_agree(),
            self@.dom().finite(),
            self@.len() == n,
    {
        proof {
            use_type_invariant(self);
            self.lemma_entries_agree();
            self.lemma_dom_is_keys();
        }
        self.entries.len()
    }

    proof fn lemma_dom_is_keys(&self)
        requires
            strictly_sorted(self.keys()),
        ensures
            self@.dom() == self.keys().to_set(),
            self@.dom().finite(),
            self@.len() == self.keys().len(),
    {
        assert(self@.dom() =~= self.keys().to_set());
        assert(self.keys().no_duplicates()) by {
            assert forall|i: int, j: int|
                0 <= i < self.keys().len() && 0 <= j < self.keys().len() && i != j
                implies self.keys()[i] != self.keys()[j] by {
                if self.keys()[i] == self.keys()[j] {
                    lemma_sorted_keys_unique(self.keys(), i, j);
                }
            }
        }
        self.keys().unique_seq_to_set();
    }

    /// The key of the entry at position `i`.
    pub fn key_at(&self, i: usize) -> (k: &String)
        requires
            i < self.keys().len(),
        ensures
            k@ == self.keys()[i as int],
    {
        &self.entries[i].0
    }

    /// The value of the entry at position `i`.
    pub fn value_at(&self, i: usize) -> (v: &V)
        requires
            i < self.keys().len(),
        ensures
            *v == self.values()[i as int],
    {
        &self.entries[i].1
    }

    /// The position of the first entry whose key does not come before `key`.
    fn lower_bound(&self, key: &str) -> (p: usize)
        ensures
            p <= self.keys().len(),
            forall|i: int| 0 <= i < p ==> key_less(#[trigger] self.keys()[i], key@),
            p < self.keys().len() ==> !key_less(self.keys()[p as int], key@),
    {
        let n = self.entries.len();
        let mut p: usize = 0;
        while p < n
            invariant
                n == self.keys().len(),
                p <= n,
                forall|i: int| 0 <= i < p ==> key_less(#[trigger] self.keys()[i], key@),
            decreases n - p,
        {
            if !key_lt(self.entries[p].0.as_str(), key) {
                return p;
            }
            p = p + 1;
        }
        p
    }

    /// The value stored under `key`, if any.
    pub fn get(&self, key: &str) -> (r: Option<&V>)
        ensures
            r is Some <==> self@.contains_key(key@),
            r matches Some(v) ==> *v == self@[key@],
    {
        proof {
            use_type_invariant(self);
            self.lemma_entries_agree();
        }
        let p = self.lower_bound(key);
        if p < self.entries.len() && !key_lt(key, self.entries[p].0.as_str()) {
            proof {
                lemma_equal_if_neither_less(self.keys()[p as int], key@);
            }
            Some(&self.entries[p].1)
        } else {
            proof {
                if self@.contains_key(key@) {
                    let j = self.keys().index_of(key@);
                    if j < p {
                        lemma_key_less_irreflexive(key@);
                    } else if j > p {
                        assert(key_less(self.keys()[p as int], self.keys()[j]));
                    } else {
                        lemma_key_less_irreflexive(key@);
                    }
                }
            }
            None
        }
    }

    /// Stores `value` under `key`, replacing and returning the value that was
    /// there before, if any.
    pub fn insert(&mut self, key: String, value: V) -> (previous: Option<V>)
        ensures
            final(self)@ == old(self)@.insert(key@, value),
            previous is Some <==> old(self)@.contains_key(key@),
            previous matches Some(v) ==> v == old(self)@[key@],
    {
        proof {
            use_type_invariant(&*self);
            self.lemma_entries_agree();
        }
        let p = self.lower_bound(key.as_str());
        let ghost old_keys = self.keys();
        let ghost old_map = self@;
        let mut entries: Vec<(String, V)> = Vec::new();
        std::mem::swap(&mut entries, &mut self.entries);
        assert(entries@.map_values(|e: (String, V)| e.0@) == old_keys);
        if p < entries.len() && !key_lt(key.as_str(), entries[p].0.as_str()) {
            proof {
                lemma_equal_if_neither_less(old_keys[p as int], key@);
            }
            let (k, old_value) = entries.remove(p);
            entries.insert(p, (k, value));
            let ghost new_keys = entries@.map_values(|e: (String, V)| e.0@);
            assert(new_keys =~= old_keys);
            self.entries = entries;
            proof {
                self.lemma_entries_agree();
                assert(self@ =~= old_map.insert(key@, value)) by {
                    assert forall|k: Seq<char>| #[trigger] self@.contains_key(k) implies self@[k]
                        == old_map.insert(key@, value)[k] by {
                        let j = self.keys().index_of(k);
                        assert(self@[self.keys()[j]] == self.values()[j]);
                        if j != p {
                            assert(old_map[old_keys[j]] == self.values()[j]);
                        }
                    }
                }
            }
            Some(old_value)
        } else {
            proof {
                if p < old_keys.len() {
                    lemma_key_less_total(old_keys[p as int], key@);
                }
                if old_map.contains_key(key@) {
                    let j = old_keys.index_of(key@);
                    if j < p {
                        lemma_key_less_irreflexive(key@);
                    } else if j > p {
                        lemma_key_less_transitive(key@, old_keys[p as int], old_keys[j]);
                        lemma_key_less_irreflexive(key@);
                    } else {
                        lemma_key_less_irreflexive(key@);
                    }
                }
            }
            let ghost k_view = key@;
            entries.insert(p, (key, value));
            let ghost new_keys = entries@.map_values(|e: (String, V)| e.0@);
            assert(new_keys =~= old_keys.insert(p as int, k_view));
            proof {
                assert forall|i: int, j: int| 0 <= i < j < new_keys.len() implies key_less(
                    #[trigger] new_keys[i],
                    #[trigger] new_keys[j],
                ) by {
                    if j == p {
                        assert(new_keys[i] == old_keys[i]);
                    } else if i == p {
                        assert(new_keys[j] == old_keys[j - 1]);
                        if j - 1 > p {
                            lemma_key_less_transitive(k_view, old_keys[p as int], old_keys[j - 1]);
                        }
                    } else {
                        let oi = if i < p { i } else { i - 1 };
                        let oj = if j < p { j } else { j - 1 };
                        assert(new_keys[i] == old_keys[oi]);
                        assert(new_keys[j] == old_keys[oj]);
                    }
                }
            }
            self.entries = entries;
            proof {
                self.lemma_entries_agree();
                assert(self@ =~= old_map.insert(k_view, value)) by {
                    assert forall|k: Seq<char>| #[trigger] old_map.insert(k_view, value).contains_key(k)
                        implies self@.contains_key(k) by {
                        if k != k_view {
                            let j = old_keys.index_of(k);
                            let nj = if j < p { j } else { j + 1 };
                            assert(self.keys()[nj] == k);
                        } else {
                            assert(self.keys()[p as int] == k);
                        }
                    }
                    assert forall|k: Seq<char>| #[trigger] self@.contains_key(k) implies self@[k]
                        == old_map.insert(k_view, value)[k] by {
                        let j = self.keys().index_of(k);
                        assert(self@[self.keys()[j]] == self.values()[j]);
                        if j < p {
                            assert(old_map[old_keys[j]] == self.values()[j]);
                        } else if j > p {
                            assert(old_map[old_keys[j - 1]] == self.values()[j]);
                        }
                    }
                }
            }
            None
        }
    }
}

/// A read gives back what the last write under the same key stored, and a
/// write leaves every other key as it was.
pub proof fn law_read_after_write<V>(before: SortedMap<V>, after: SortedMap<V>, key: Seq<char>, value: V, other: Seq<char>)
    requires
        after@ == before@.insert(key, value),
    ensures
        after@.contains_key(key),
        after@[key] == value,
        other != key ==> (after@.contains_key(other) == before@.contains_key(other)),
        other != key && before@.contains_key(other) ==> after@[other] == before@[other],
{
}

impl<V> View for SortedMap<V> {
    type V = Map<Seq<char>, V>;

    open spec fn view(&self) -> Map<Seq<char>, V> {
        self.as_map()
    }
}

} // verus!
