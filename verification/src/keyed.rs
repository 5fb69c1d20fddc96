//! A map from string keys to values, kept as parallel vectors with no key
//! twice; its contracts speak of it as a `Map`.
use vstd::prelude::*;
use crate::text::str_equal;

verus! {

/// The strings of `v`, as character sequences.
pub open spec fn names(v: Seq<String>) -> Seq<Seq<char>> {
    v.map_values(|s: String| s@)
}

/// The position of `k` among `keys` (meaningful where it occurs).
pub open spec fn key_index(keys: Seq<Seq<char>>, k: Seq<char>) -> int {
    choose|i: int| 0 <= i < keys.len() && keys[i] == k
}

/// In a sequence without duplicates, the position of an element is the one
/// where it stands.
pub proof fn lemma_key_index(keys: Seq<Seq<char>>, i: int)
    requires
        keys.no_duplicates(),
        0 <= i < keys.len(),
    ensures
        key_index(keys, keys[i]) == i,
{
    let k = keys[i];
    assert(0 <= i < keys.len() && keys[i] == k);
    let j = key_index(keys, k);
    assert(0 <= j < keys.len() && keys[j] == k);
}

/// A map from string keys to values.
pub struct StrMap<V> {
    keys: Vec<String>,
    vals: Vec<V>,
}

impl<V> StrMap<V> {
    /// The keys, in the order they are kept.
    pub closed spec fn keys(&self) -> Seq<Seq<char>> {
        self.keys@.map_values(|s: String| s@)
    }

    /// The values, in the order of their keys.
    pub closed spec fn values(&self) -> Seq<V> {
        self.vals@
    }

    /// One value per key, and no key twice.
    pub open spec fn wf(&self) -> bool {
        &&& self.keys().len() == self.values().len()
        &&& self.keys().no_duplicates()
    }

    /// Number of entries.
    pub open spec fn size(&self) -> nat {
        self.keys().len()
    }
}

impl<V> View for StrMap<V> {
    type V = Map<Seq<char>, V>;

    /// The entries as a map.
    open spec fn view(&self) -> Map<Seq<char>, V> {
        Map::new(
            |k: Seq<char>| self.keys().contains(k),
            |k: Seq<char>| self.values()[key_index(self.keys(), k)],
        )
    }
}

impl<V> StrMap<V> {
    /// The number of entries is the number of keys of the map.
    pub proof fn lemma_size(&self)
        requires
            self.wf(),
        ensures
            self@.dom() == self.keys().to_set(),
            self@.dom().finite(),
            self@.dom().len() == self.size(),
    {
        assert(self@.dom() =~= self.keys().to_set());
        self.keys().unique_seq_to_set();
    }

    /// An empty map.
    pub fn new() -> (m: Self)
        ensures
            m.wf(),
            m@ == Map::<Seq<char>, V>::empty(),
            m.keys() == Seq::<Seq<char>>::empty(),
    {
        let m = StrMap { keys: Vec::new(), vals: Vec::new() };
        assert(m.keys() =~= Seq::<Seq<char>>::empty());
        assert(m@ =~= Map::<Seq<char>, V>::empty());
        m
    }

    /// Number of entries.
    pub fn len(&self) -> (n: usize)
        requires
            self.wf(),
        ensures
            n == self.size(),
    {
        self.keys.len()
    }

    /// The position of the key `k`.
    pub fn index_of(&self, k: &str) -> (r: Option<usize>)
        requires
            self.wf(),
        ensures
            r is None <==> !self@.contains_key(k@),
            r matches Some(i) ==> i < self.size() && self.keys()[i as int] == k@,
    {
        let n = self.keys.len();
        let mut i: usize = 0;
        while i < n
            invariant
                n == self.keys@.len(),
                self.wf(),
                i <= n,
                forall|j: int| 0 <= j < i ==> self.keys()[j] != k@,
            decreases n - i,
        {
            if str_equal(self.keys[i].as_str(), k) {
                assert(self.keys()[i as int] == k@);
                assert(self.keys().contains(k@));
                return Some(i);
            }
            i = i + 1;
        }
        None
    }

    /// Whether the key `k` has an entry.
    pub fn contains_key(&self, k: &str) -> (b: bool)
        requires
            self.wf(),
        ensures
            b == self@.contains_key(k@),
    {
        self.index_of(k).is_some()
    }

    /// The key at position `i`.
    pub fn key_at(&self, i: usize) -> (k: &str)
        requires
            self.wf(),
            i < self.size(),
        ensures
            k@ == self.keys()[i as int],
            self@.contains_key(k@),
    {
        assert(self.keys().contains(self.keys()[i as int]));
        self.keys[i].as_str()
    }

    /// The value at position `i`.
    pub fn value_at(&self, i: usize) -> (v: &V)
        requires
            self.wf(),
            i < self.size(),
        ensures
            *v == self.values()[i as int],
            *v == self@[self.keys()[i as int]],
    {
        proof {
            lemma_key_index(self.keys(), i as int);
        }
        &self.vals[i]
    }

    /// The value at position `i`, for changing it in place.
    pub fn value_at_mut(&mut self, i: usize) -> (v: &mut V)
        requires
            old(self).wf(),
            i < old(self).size(),
        ensures
            *v == old(self)@[old(self).keys()[i as int]],
            final(self).wf(),
            final(self).keys() == old(self).keys(),
            final(self).values() == old(self).values().update(i as int, *final(v)),
            final(self)@ == old(self)@.insert(old(self).keys()[i as int], *final(v)),
    {
        proof {
            lemma_key_index(self.keys(), i as int);
            self.lemma_view_update(i as int);
        }
        &mut self.vals[i]
    }

    /// Replacing the value at a position changes that key's entry only.
    proof fn lemma_view_update(&self, i: int)
        requires
            self.wf(),
            0 <= i < self.size(),
        ensures
            forall|v: V|
                #![trigger self.values().update(i, v)]
                Map::new(
                    |k: Seq<char>| self.keys().contains(k),
                    |k: Seq<char>| self.values().update(i, v)[key_index(self.keys(), k)],
                ) == self@.insert(self.keys()[i], v),
    {
        assert forall|v: V|
            #![trigger self.values().update(i, v)]
            Map::new(
                |k: Seq<char>| self.keys().contains(k),
                |k: Seq<char>| self.values().update(i, v)[key_index(self.keys(), k)],
            ) == self@.insert(self.keys()[i], v) by {
            let m = Map::new(
                |k: Seq<char>| self.keys().contains(k),
                |k: Seq<char>| self.values().update(i, v)[key_index(self.keys(), k)],
            );
            lemma_key_index(self.keys(), i);
            assert forall|k: Seq<char>| m.contains_key(k) implies m[k] == self@.insert(
                self.keys()[i],
                v,
            )[k] by {
                let j = key_index(self.keys(), k);
                assert(0 <= j < self.keys().len() && self.keys()[j] == k);
            }
            assert(m =~= self@.insert(self.keys()[i], v));
        }
    }

    /// The value under the key `k`.
    pub fn get(&self, k: &str) -> (r: Option<&V>)
        requires
            self.wf(),
        ensures
            match r {
                Some(v) => self@.contains_key(k@) && *v == self@[k@],
                None => !self@.contains_key(k@),
            },
    {
        match self.index_of(k) {
            Some(i) => Some(self.value_at(i)),
            None => None,
        }
    }

    /// Put `v` under the key `k`, giving back the value it replaces.
    pub fn insert(&mut self, k: String, v: V) -> (r: Option<V>)
        requires
            old(self).wf(),
        ensures
            final(self).wf(),
            final(self)@ == old(self)@.insert(k@, v),
            match r {
                Some(o) => old(self)@.contains_key(k@) && o == old(self)@[k@],
                None => !old(self)@.contains_key(k@),
            },
            old(self)@.contains_key(k@) ==> final(self).keys() == old(self).keys(),
            !old(self)@.contains_key(k@) ==> final(self).keys() == old(self).keys().push(k@),
    {
        match self.index_of(k.as_str()) {
            Some(i) => {
                proof {
                    lemma_key_index(self.keys(), i as int);
                }
                let slot = self.value_at_mut(i);
                let mut o = v;
                std::mem::swap(slot, &mut o);
                Some(o)
            },
            None => {
                let ghost old_keys = self.keys();
                let ghost old_view = self@;
                self.keys.push(k);
                self.vals.push(v);
                proof {
                    assert(self.keys() =~= old_keys.push(k@));
                    let ks = self.keys();
                    assert(ks.no_duplicates()) by {
                        assert forall|a: int, b: int| 0 <= a < ks.len() && 0 <= b < ks.len() && a != b implies ks[a] != ks[b] by {
                            if a < old_keys.len() && b < old_keys.len() {
                                assert(ks[a] == old_keys[a] && ks[b] == old_keys[b]);
                            } else if a < old_keys.len() {
                                assert(ks[a] == old_keys[a]);
                                assert(old_keys.contains(ks[a]));
                            } else {
                                assert(ks[b] == old_keys[b]);
                                assert(old_keys.contains(ks[b]));
                            }
                        }
                    }
                    assert forall|key: Seq<char>| #[trigger] self@.contains_key(key) implies self@[key]
                        == old_view.insert(k@, v)[key] by {
                        let j = key_index(ks, key);
                        assert(0 <= j < ks.len() && ks[j] == key);
                        if key != k@ {
                            let w = choose|w: int| 0 <= w < ks.len() && ks[w] == key;
                            lemma_key_index(ks, w);
                            assert(w < old_keys.len());
                            assert(old_keys[w] == key);
                            lemma_key_index(old_keys, w);
                        } else {
                            lemma_key_index(ks, (ks.len() - 1) as int);
                        }
                    }
                    assert forall|key: Seq<char>| self@.contains_key(key) <==> old_view.insert(k@, v).contains_key(key) by {
                        if self@.contains_key(key) {
                            let w = choose|w: int| 0 <= w < ks.len() && ks[w] == key;
                            if w < old_keys.len() {
                                assert(old_keys[w] == key);
                            }
                        }
                        if old_view.contains_key(key) {
                            let w = choose|w: int| 0 <= w < old_keys.len() && old_keys[w] == key;
                            assert(ks[w] == key);
                        }
                        if key == k@ {
                            assert(ks[ks.len() - 1] == key);
                        }
                    }
                    assert(self@ =~= old_view.insert(k@, v));
                }
                None
            },
        }
    }

    /// Remove the entry under the key `k`, giving back its value.
    pub fn remove(&mut self, k: &str) -> (r: Option<V>)
        requires
            old(self).wf(),
        ensures
            final(self).wf(),
            final(self)@ == old(self)@.remove(k@),
            match r {
                Some(o) => old(self)@.contains_key(k@) && o == old(self)@[k@],
                None => !old(self)@.contains_key(k@),
            },
    {
        match self.index_of(k) {
            Some(i) => {
                let ghost old_keys = self.keys();
                let ghost old_vals = self.values();
                let ghost old_view = self@;
                let ghost old_raw = self.keys@;
                proof {
                    lemma_key_index(old_keys, i as int);
                }
                self.keys.remove(i);
                let o = self.vals.remove(i);
                proof {
                    let ks = self.keys();
                    assert(ks =~= old_keys.remove(i as int)) by {
                        assert(self.keys@ == old_raw.remove(i as int));
                    }
                    assert(ks.no_duplicates()) by {
                        assert forall|a: int, b: int| 0 <= a < ks.len() && 0 <= b < ks.len() && a != b implies ks[a] != ks[b] by {
                            let oa = if a < i { a } else { a + 1 };
                            let ob = if b < i { b } else { b + 1 };
                            assert(ks[a] == old_keys[oa] && ks[b] == old_keys[ob]);
                        }
                    }
                    assert forall|key: Seq<char>| self@.contains_key(key) <==> old_view.remove(k@).contains_key(key) by {
                        if self@.contains_key(key) {
                            let w = choose|w: int| 0 <= w < ks.len() && ks[w] == key;
                            let ow = if w < i { w } else { w + 1 };
                            assert(old_keys[ow] == key);
                            assert(ow != i);
                        }
                        if old_view.remove(k@).contains_key(key) {
                            let w = choose|w: int| 0 <= w < old_keys.len() && old_keys[w] == key;
                            assert(w != i);
                            let nw = if w < i { w } else { w - 1 };
                            assert(ks[nw] == key);
                        }
                    }
                    assert forall|key: Seq<char>| #[trigger] self@.contains_key(key) implies self@[key]
                        == old_view.remove(k@)[key] by {
                        let w = choose|w: int| 0 <= w < ks.len() && ks[w] == key;
                        lemma_key_index(ks, w);
                        let ow = if w < i { w } else { w + 1 };
                        assert(old_keys[ow] == key);
                        lemma_key_index(old_keys, ow);
                    }
                    assert(self@ =~= old_view.remove(k@));
                }
                Some(o)
            },
            None => {
                assert(self@ =~= self@.remove(k@));
                None
            },
        }
    }
}

} // verus!
