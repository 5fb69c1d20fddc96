//! The memory layer's bookkeeping: three tiers (hot, warm, cold) of entries
//! kept under their ids, the hot tier's recency order and size limit, the
//! embedding cache, and the moves a cooling cycle makes between tiers.
use vstd::prelude::*;
use vstd::string::StringExecFns;
use crate::keyed::{names, StrMap};
use crate::text::str_equal;

verus! {

/// The most entries the hot tier keeps; beyond it the least recently added
/// entry leaves the hot tier.
pub const LRU_MAX: usize = 500;

/// Memory tier statistics.
#[derive(Debug, Clone, Copy, PartialEq, Eq, Structural)]
pub struct MemoryStats {
    pub hot: usize,
    pub warm: usize,
    pub cold: usize,
    pub total: usize,
}

/// Memory cooling cycle statistics.
#[derive(Debug, Clone, Copy, PartialEq, Eq, Structural)]
pub struct MemoryTickStats {
    pub hot: usize,
    pub warm: usize,
    pub cold: usize,
    pub total: usize,
    pub cooled_to_warm: usize,
    pub cooled_to_cold: usize,
    pub pruned: usize,
}

impl Default for MemoryStats {
    /// All counts zero.
    fn default() -> (s: MemoryStats)
        ensures
            s == (MemoryStats { hot: 0, warm: 0, cold: 0, total: 0 }),
    {
        MemoryStats { hot: 0, warm: 0, cold: 0, total: 0 }
    }
}

impl Default for MemoryTickStats {
    /// All counts zero.
    fn default() -> (s: MemoryTickStats)
        ensures
            s == (MemoryTickStats {
                hot: 0,
                warm: 0,
                cold: 0,
                total: 0,
                cooled_to_warm: 0,
                cooled_to_cold: 0,
                pruned: 0,
            }),
    {
        MemoryTickStats {
            hot: 0,
            warm: 0,
            cold: 0,
            total: 0,
            cooled_to_warm: 0,
            cooled_to_cold: 0,
            pruned: 0,
        }
    }
}

/// The tier of a memory.
#[derive(Debug, Clone, Copy, PartialEq, Eq, Hash, Structural)]
pub enum Tier {
    Hot,
    Warm,
    Cold,
}

/// The sequence `s` without the element `x`, order kept.
pub open spec fn without(s: Seq<Seq<char>>, x: Seq<char>) -> Seq<Seq<char>> {
    s.filter(|y: Seq<char>| y != x)
}

/// An element stays in `without(s, x)` exactly when it is in `s` and is not `x`.
pub proof fn lemma_without_contains(s: Seq<Seq<char>>, x: Seq<char>, y: Seq<char>)
    ensures
        without(s, x).contains(y) <==> (s.contains(y) && y != x),
    decreases s.len(),
{
    if s.len() > 0 {
        let pre = s.drop_last();
        lemma_without_contains(pre, x, y);
        assert(s =~= pre + seq![s.last()]);
        Seq::filter_distributes_over_add(pre, seq![s.last()], |z: Seq<char>| z != x);
        reveal_with_fuel(Seq::filter, 2);
        let tail = seq![s.last()].filter(|z: Seq<char>| z != x);
        if s.last() != x {
            assert(tail =~= seq![s.last()]);
        } else {
            assert(tail =~= Seq::<Seq<char>>::empty());
        }
        let w = without(s, x);
        let wp = without(pre, x);
        assert(w == wp + tail);
        if w.contains(y) {
            let j = choose|j: int| 0 <= j < w.len() && w[j] == y;
            if j < wp.len() {
                assert(wp[j] == y);
            } else {
                assert(s[s.len() - 1] == y);
            }
        }
        if s.contains(y) && y != x {
            let j = choose|j: int| 0 <= j < s.len() && s[j] == y;
            if j < pre.len() {
                assert(pre[j] == y);
                let k = choose|k: int| 0 <= k < wp.len() && wp[k] == y;
                assert(w[k] == y);
            } else {
                assert(w[wp.len() as int] == y);
            }
        }
    } else {
        assert(without(s, x) =~= Seq::<Seq<char>>::empty()) by {
            reveal(Seq::filter);
        }
    }
}

/// Removing a key from a map shrinks it by one where the key was present,
/// and leaves its size where it was not.
proof fn lemma_remove_size<V>(before: StrMap<V>, after: StrMap<V>, k: Seq<char>)
    requires
        before.wf(),
        after.wf(),
        after@ == before@.remove(k),
    ensures
        after.size() == before.size() - if before@.contains_key(k) {
            1int
        } else {
            0int
        },
{
    before.lemma_size();
    after.lemma_size();
    if before@.contains_key(k) {
        assert(after@.dom() =~= before@.dom().remove(k));
    } else {
        assert(after@.dom() =~= before@.dom());
    }
}

/// The map `m` with the keys `ids` removed, one after another.
pub open spec fn remove_all<V>(m: Map<Seq<char>, V>, ids: Seq<Seq<char>>) -> Map<Seq<char>, V>
    decreases ids.len(),
{
    if ids.len() == 0 {
        m
    } else {
        remove_all(m, ids.drop_last()).remove(ids.last())
    }
}

/// The order `order` with each of `ids` taken out, one after another.
pub open spec fn strip_all(order: Seq<Seq<char>>, ids: Seq<Seq<char>>) -> Seq<Seq<char>>
    decreases ids.len(),
{
    if ids.len() == 0 {
        order
    } else {
        without(strip_all(order, ids.drop_last()), ids.last())
    }
}

/// Warm and cold tiers after moving each of `ids` that is warm to the cold
/// tier, one after another, with the number moved.
pub open spec fn archive_all<V>(
    warm: Map<Seq<char>, V>,
    cold: Map<Seq<char>, V>,
    ids: Seq<Seq<char>>,
) -> (Map<Seq<char>, V>, Map<Seq<char>, V>, nat)
    decreases ids.len(),
{
    if ids.len() == 0 {
        (warm, cold, 0)
    } else {
        let prev = archive_all(warm, cold, ids.drop_last());
        let k = ids.last();
        if prev.0.contains_key(k) {
            (prev.0.remove(k), prev.1.insert(k, prev.0[k]), prev.2 + 1)
        } else {
            prev
        }
    }
}

/// Whether an entry tagged `entry_tags` matches any of the tags `query`.
pub open spec fn tags_overlap(entry_tags: Seq<String>, query: Seq<&str>) -> bool {
    exists|i: int, j: int|
        0 <= i < query.len() && 0 <= j < entry_tags.len() && #[trigger] entry_tags[j]@
            == #[trigger] query[i]@
}

/// Whether an entry tagged `entry_tags` matches any of the tags `query`.
pub fn tags_match(entry_tags: &Vec<String>, query: &[&str]) -> (b: bool)
    ensures
        b == tags_overlap(entry_tags@, query@),
{
    let nq = query.len();
    let ne = entry_tags.len();
    let mut i: usize = 0;
    while i < nq
        invariant
            nq == query@.len(),
            ne == entry_tags@.len(),
            i <= nq,
            forall|a: int, b: int|
                0 <= a < i && 0 <= b < ne ==> #[trigger] entry_tags@[b]@ != #[trigger] query@[a]@,
        decreases nq - i,
    {
        let mut j: usize = 0;
        while j < ne
            invariant
                nq == query@.len(),
                ne == entry_tags@.len(),
                i < nq,
                j <= ne,
                forall|a: int, b: int|
                    0 <= a < i && 0 <= b < ne ==> #[trigger] entry_tags@[b]@ != #[trigger] query@[a]@,
                forall|b: int| 0 <= b < j ==> #[trigger] entry_tags@[b]@ != query@[i as int]@,
            decreases ne - j,
        {
            if str_equal(entry_tags[j].as_str(), query[i]) {
                assert(entry_tags@[j as int]@ == query@[i as int]@);
                return true;
            }
            j = j + 1;
        }
        i = i + 1;
    }
    false
}

/// A copy of `v` without the entries equal to `x`, order kept.
fn drop_name(v: &Vec<String>, x: &str) -> (r: Vec<String>)
    ensures
        names(r@) == without(names(v@), x@),
{
    let n = v.len();
    let mut out: Vec<String> = Vec::new();
    let mut i: usize = 0;
    while i < n
        invariant
            n == v@.len(),
            i <= n,
            names(out@) == without(names(v@).take(i as int), x@),
        decreases n - i,
    {
        let ghost pre = names(v@).take(i as int);
        proof {
            assert(names(v@).take(i + 1) =~= pre + seq![v@[i as int]@]);
            Seq::filter_distributes_over_add(pre, seq![v@[i as int]@], |y: Seq<char>| y != x@);
            reveal_with_fuel(Seq::filter, 2);
        }
        if !str_equal(v[i].as_str(), x) {
            let s = v[i].clone();
            out.push(s);
            assert(names(out@) =~= without(pre, x@).push(v@[i as int]@));
            assert(seq![v@[i as int]@].filter(|y: Seq<char>| y != x@) =~= seq![v@[i as int]@]);
        } else {
            assert(seq![v@[i as int]@].filter(|y: Seq<char>| y != x@) =~= Seq::<Seq<char>>::empty());
        }
        assert(without(pre + seq![v@[i as int]@], x@) == without(pre, x@) + seq![v@[i as int]@].filter(|y: Seq<char>| y != x@));
        i = i + 1;
    }
    assert(names(v@).take(n as int) =~= names(v@));
    out
}

} // verus!

verus! {

/// Three tiers of entries kept under their ids, the hot tier's recency
/// order, and a cache of embeddings kept under the same ids.
///
/// A new entry goes into the hot and warm tiers. Lookups try the hot tier
/// first, then warm, then cold. An id is in the hot tier exactly when it is
/// in the recency order.
pub struct TierStore<T, E> {
    hot: StrMap<T>,
    warm: StrMap<T>,
    cold: StrMap<T>,
    embeddings: StrMap<E>,
    hot_order: Vec<String>,
}

impl<T, E> TierStore<T, E> {
    /// The entries of tier `t`.
    pub closed spec fn tier_map(&self, t: Tier) -> StrMap<T> {
        match t {
            Tier::Hot => self.hot,
            Tier::Warm => self.warm,
            Tier::Cold => self.cold,
        }
    }

    /// The hot tier.
    pub open spec fn hot_map(&self) -> StrMap<T> {
        self.tier_map(Tier::Hot)
    }

    /// The warm tier.
    pub open spec fn warm_map(&self) -> StrMap<T> {
        self.tier_map(Tier::Warm)
    }

    /// The cold tier.
    pub open spec fn cold_map(&self) -> StrMap<T> {
        self.tier_map(Tier::Cold)
    }

    /// The embedding cache.
    pub closed spec fn embedding_map(&self) -> StrMap<E> {
        self.embeddings
    }

    /// The hot tier's recency order, oldest first.
    pub closed spec fn order(&self) -> Seq<Seq<char>> {
        names(self.hot_order@)
    }

    /// Each map keeps one value per id, and an id is in the hot tier exactly
    /// when it is in the recency order.
    pub open spec fn wf(&self) -> bool {
        &&& self.hot_map().wf()
        &&& self.warm_map().wf()
        &&& self.cold_map().wf()
        &&& self.embedding_map().wf()
        &&& forall|k: Seq<char>| #[trigger] self.hot_map()@.contains_key(k) <==> self.order().contains(k)
    }

    /// The tier that answers a lookup of `id` first.
    pub open spec fn tier_of(&self, id: Seq<char>) -> Option<Tier> {
        if self.hot_map()@.contains_key(id) {
            Some(Tier::Hot)
        } else if self.warm_map()@.contains_key(id) {
            Some(Tier::Warm)
        } else if self.cold_map()@.contains_key(id) {
            Some(Tier::Cold)
        } else {
            None
        }
    }

    /// The entry a lookup of `id` finds: hot first, then warm, then cold.
    pub open spec fn lookup(&self, id: Seq<char>) -> Option<T> {
        if self.hot_map()@.contains_key(id) {
            Some(self.hot_map()@[id])
        } else if self.warm_map()@.contains_key(id) {
            Some(self.warm_map()@[id])
        } else if self.cold_map()@.contains_key(id) {
            Some(self.cold_map()@[id])
        } else {
            None
        }
    }

    /// An empty store.
    pub fn new() -> (s: Self)
        ensures
            s.wf(),
            s.hot_map()@ == Map::<Seq<char>, T>::empty(),
            s.warm_map()@ == Map::<Seq<char>, T>::empty(),
            s.cold_map()@ == Map::<Seq<char>, T>::empty(),
            s.embedding_map()@ == Map::<Seq<char>, E>::empty(),
            s.order() == Seq::<Seq<char>>::empty(),
    {
        let s = TierStore {
            hot: StrMap::new(),
            warm: StrMap::new(),
            cold: StrMap::new(),
            embeddings: StrMap::new(),
            hot_order: Vec::new(),
        };
        assert(s.order() =~= Seq::<Seq<char>>::empty());
        s
    }

    /// Pushing `id` onto the order adds exactly `id` to what it contains.
    proof fn lemma_push_keeps_order(order0: Seq<Seq<char>>, order1: Seq<Seq<char>>, id: Seq<char>)
        requires
            order1 == order0.push(id),
        ensures
            forall|k: Seq<char>| #[trigger] order1.contains(k) <==> (order0.contains(k) || k == id),
    {
        assert forall|k: Seq<char>| #[trigger] order1.contains(k) <==> (order0.contains(k) || k == id) by {
            if k == id {
                assert(order1[order1.len() - 1] == k);
            } else if order0.contains(k) {
                let j = choose|j: int| 0 <= j < order0.len() && order0[j] == k;
                assert(order1[j] == k);
            } else if order1.contains(k) {
                let j = choose|j: int| 0 <= j < order1.len() && order1[j] == k;
                if j < order0.len() {
                    assert(order0[j] == k);
                }
            }
        }
    }

    /// The size the hot tier has after `remember(id, ..)`: one more unless
    /// `id` was already hot, and one less again when that passes `LRU_MAX`.
    pub open spec fn hot_size_after_remember(&self, id: Seq<char>) -> nat {
        let grown = if self.hot_map()@.contains_key(id) {
            self.hot_map().size()
        } else {
            self.hot_map().size() + 1
        };
        if grown > LRU_MAX {
            (grown - 1) as nat
        } else {
            grown
        }
    }

    /// Store a new memory under `id`: `hot_copy` in the hot tier (evicting the
    /// least recently added hot entry when the hot tier grows past
    /// `LRU_MAX`), `warm_copy` in the warm tier, and its embedding in the
    /// cache.
    pub fn remember(&mut self, id: String, hot_copy: T, warm_copy: T, embedding: E)
        requires
            old(self).wf(),
        ensures
            final(self).wf(),
            ({
                let hot1 = old(self).hot_map()@.insert(id@, hot_copy);
                let order1 = old(self).order().push(id@);
                if hot1.dom().len() > LRU_MAX {
                    &&& final(self).hot_map()@ == hot1.remove(order1[0])
                    &&& final(self).order() == without(order1, order1[0])
                } else {
                    &&& final(self).hot_map()@ == hot1
                    &&& final(self).order() == order1
                }
            }),
            final(self).hot_map().size() == old(self).hot_size_after_remember(id@),
            final(self).warm_map()@ == old(self).warm_map()@.insert(id@, warm_copy),
            final(self).cold_map()@ == old(self).cold_map()@,
            final(self).embedding_map()@ == old(self).embedding_map()@.insert(id@, embedding),
            final(self).lookup(id@) == Some(hot_copy) || final(self).lookup(id@) == Some(warm_copy),
            disjoint(old(self).warm_map()@, old(self).cold_map()@) && !old(self).cold_map()@.contains_key(id@)
                ==> disjoint(final(self).warm_map()@, final(self).cold_map()@),
    {
        let ghost order0 = self.order();
        let ghost hot0 = self.hot@;
        proof {
            self.hot.lemma_size();
        }
        self.hot.insert(id.clone(), hot_copy);
        self.hot_order.push(id.clone());
        assert(self.order() =~= order0.push(id@));
        proof {
            self.hot.lemma_size();
            if hot0.contains_key(id@) {
                assert(hot0.insert(id@, hot_copy).dom() =~= hot0.dom());
            } else {
                assert(hot0.insert(id@, hot_copy).dom() =~= hot0.dom().insert(id@));
            }
            Self::lemma_push_keeps_order(order0, self.order(), id@);
        }
        if self.hot.len() > LRU_MAX {
            let evicted = self.hot_order[0].clone();
            let ghost hot1 = self.hot@;
            let ghost order1 = self.order();
            assert(order1[0] == evicted@);
            assert(hot1.contains_key(evicted@));
            self.hot.remove(evicted.as_str());
            self.hot_order = drop_name(&self.hot_order, evicted.as_str());
            proof {
                self.hot.lemma_size();
                assert(hot1.remove(evicted@).dom() =~= hot1.dom().remove(evicted@));
                assert forall|k: Seq<char>| #[trigger] self.hot@.contains_key(k) <==> self.order().contains(k) by {
                    lemma_without_contains(order1, evicted@, k);
                }
            }
        }
        self.warm.insert(id.clone(), warm_copy);
        self.embeddings.insert(id, embedding);
    }

    /// The entries of tier `t`, to read.
    pub fn tier(&self, t: Tier) -> (m: &StrMap<T>)
        ensures
            *m == self.tier_map(t),
    {
        match t {
            Tier::Hot => &self.hot,
            Tier::Warm => &self.warm,
            Tier::Cold => &self.cold,
        }
    }

    /// The embedding cache, to read.
    pub fn embeddings(&self) -> (m: &StrMap<E>)
        ensures
            *m == self.embedding_map(),
    {
        &self.embeddings
    }

    /// The hot tier's ids, least recently added first.
    pub fn hot_order(&self) -> (v: &Vec<String>)
        ensures
            names(v@) == self.order(),
    {
        &self.hot_order
    }

    /// The entry at position `i` of tier `t`, for changing it in place; the
    /// ids in every tier, the recency order and the cache stay as they are.
    pub fn entry_mut(&mut self, t: Tier, i: usize) -> (v: &mut T)
        requires
            old(self).wf(),
            i < old(self).tier_map(t).size(),
        ensures
            *v == old(self).tier_map(t)@[old(self).tier_map(t).keys()[i as int]],
            final(self).wf(),
            final(self).tier_map(t).keys() == old(self).tier_map(t).keys(),
            final(self).tier_map(t)@ == old(self).tier_map(t)@.insert(
                old(self).tier_map(t).keys()[i as int],
                *final(v),
            ),
            forall|u: Tier| u != t ==> #[trigger] final(self).tier_map(u) == old(self).tier_map(u),
            final(self).order() == old(self).order(),
            final(self).embedding_map() == old(self).embedding_map(),
    {
        match t {
            Tier::Hot => self.hot.value_at_mut(i),
            Tier::Warm => self.warm.value_at_mut(i),
            Tier::Cold => self.cold.value_at_mut(i),
        }
    }

    /// The tier that answers a lookup of `id` first.
    pub fn locate(&self, id: &str) -> (t: Option<Tier>)
        requires
            self.wf(),
        ensures
            t == self.tier_of(id@),
    {
        if self.hot.contains_key(id) {
            Some(Tier::Hot)
        } else if self.warm.contains_key(id) {
            Some(Tier::Warm)
        } else if self.cold.contains_key(id) {
            Some(Tier::Cold)
        } else {
            None
        }
    }

    /// The entry under `id`: hot first, then warm, then cold.
    pub fn get(&self, id: &str) -> (r: Option<&T>)
        requires
            self.wf(),
        ensures
            match r {
                Some(e) => self.lookup(id@) == Some(*e),
                None => self.lookup(id@) is None,
            },
    {
        match self.hot.get(id) {
            Some(e) => Some(e),
            None => match self.warm.get(id) {
                Some(e) => Some(e),
                None => self.cold.get(id),
            },
        }
    }

    /// Bring a copy of an entry back into the hot tier, as the most recent.
    pub fn reheat(&mut self, id: String, copy: T)
        requires
            old(self).wf(),
        ensures
            final(self).wf(),
            final(self).hot_map()@ == old(self).hot_map()@.insert(id@, copy),
            final(self).order() == old(self).order().push(id@),
            final(self).warm_map()@ == old(self).warm_map()@,
            final(self).cold_map()@ == old(self).cold_map()@,
            final(self).embedding_map()@ == old(self).embedding_map()@,
            final(self).tier_of(id@) == Some(Tier::Hot),
            final(self).lookup(id@) == Some(copy),
    {
        let ghost order0 = self.order();
        self.hot.insert(id.clone(), copy);
        self.hot_order.push(id);
        assert(self.order() =~= order0.push(id@));
        proof {
            Self::lemma_push_keeps_order(order0, self.order(), id@);
        }
    }

    /// Take each of `ids` out of the hot tier and its recency order; the
    /// entries stay in the warm or cold tier. Returns how many left the hot
    /// tier.
    pub fn cool(&mut self, ids: &Vec<String>) -> (n: usize)
        requires
            old(self).wf(),
        ensures
            final(self).wf(),
            n == old(self).hot_map().size() - final(self).hot_map().size(),
            final(self).hot_map()@ == remove_all(old(self).hot_map()@, names(ids@)),
            final(self).order() == strip_all(old(self).order(), names(ids@)),
            final(self).warm_map()@ == old(self).warm_map()@,
            final(self).cold_map()@ == old(self).cold_map()@,
            final(self).embedding_map()@ == old(self).embedding_map()@,
    {
        let n = ids.len();
        let start: usize = self.hot.len();
        let mut removed: usize = 0;
        let mut i: usize = 0;
        while i < n
            invariant
                n == ids@.len(),
                i <= n,
                self.wf(),
                start == old(self).hot_map().size(),
                removed + self.hot_map().size() == old(self).hot_map().size(),
                self.hot_map()@ == remove_all(old(self).hot_map()@, names(ids@).take(i as int)),
                self.order() == strip_all(old(self).order(), names(ids@).take(i as int)),
                self.warm_map()@ == old(self).warm_map()@,
                self.cold_map()@ == old(self).cold_map()@,
                self.embedding_map()@ == old(self).embedding_map()@,
            decreases n - i,
        {
            assert(names(ids@).take(i + 1).drop_last() =~= names(ids@).take(i as int));
            let ghost order0 = self.order();
            let ghost hot0 = self.hot;
            let gone = self.hot.remove(ids[i].as_str());
            proof {
                lemma_remove_size(hot0, self.hot, ids@[i as int]@);
            }
            if gone.is_some() {
                removed = removed + 1;
            }
            self.hot_order = drop_name(&self.hot_order, ids[i].as_str());
            proof {
                assert forall|k: Seq<char>| #[trigger] self.hot@.contains_key(k) <==> self.order().contains(k) by {
                    lemma_without_contains(order0, ids@[i as int]@, k);
                }
            }
            i = i + 1;
        }
        assert(names(ids@).take(n as int) =~= names(ids@));
        removed
    }

    /// Move each of `ids` that is in the warm tier to the cold tier. Returns
    /// how many moved.
    pub fn archive(&mut self, ids: &Vec<String>) -> (n: usize)
        requires
            old(self).wf(),
        ensures
            final(self).wf(),
            final(self).warm_map()@ == archive_all(old(self).warm_map()@, old(self).cold_map()@, names(ids@)).0,
            final(self).cold_map()@ == archive_all(old(self).warm_map()@, old(self).cold_map()@, names(ids@)).1,
            n == archive_all(old(self).warm_map()@, old(self).cold_map()@, names(ids@)).2,
            final(self).hot_map()@ == old(self).hot_map()@,
            final(self).order() == old(self).order(),
            final(self).embedding_map()@ == old(self).embedding_map()@,
    {
        let n = ids.len();
        let mut moved: usize = 0;
        let mut i: usize = 0;
        while i < n
            invariant
                n == ids@.len(),
                i <= n,
                moved <= i,
                self.wf(),
                self.warm_map()@ == archive_all(old(self).warm_map()@, old(self).cold_map()@, names(ids@).take(i as int)).0,
                self.cold_map()@ == archive_all(old(self).warm_map()@, old(self).cold_map()@, names(ids@).take(i as int)).1,
                moved == archive_all(old(self).warm_map()@, old(self).cold_map()@, names(ids@).take(i as int)).2,
                self.hot_map()@ == old(self).hot_map()@,
                self.order() == old(self).order(),
                self.embedding_map()@ == old(self).embedding_map()@,
            decreases n - i,
        {
            assert(names(ids@).take(i + 1).drop_last() =~= names(ids@).take(i as int));
            assert(names(ids@).take(i + 1).last() == ids@[i as int]@);
            match self.warm.remove(ids[i].as_str()) {
                Some(e) => {
                    self.cold.insert(ids[i].clone(), e);
                    moved = moved + 1;
                },
                None => {},
            }
            i = i + 1;
        }
        assert(names(ids@).take(n as int) =~= names(ids@));
        moved
    }

    /// Drop each of `ids` from the cold tier and from the embedding cache.
    /// Returns how many left the cold tier.
    pub fn prune(&mut self, ids: &Vec<String>) -> (n: usize)
        requires
            old(self).wf(),
        ensures
            final(self).wf(),
            n == old(self).cold_map().size() - final(self).cold_map().size(),
            final(self).cold_map()@ == remove_all(old(self).cold_map()@, names(ids@)),
            final(self).embedding_map()@ == remove_all(old(self).embedding_map()@, names(ids@)),
            final(self).hot_map()@ == old(self).hot_map()@,
            final(self).order() == old(self).order(),
            final(self).warm_map()@ == old(self).warm_map()@,
    {
        let n = ids.len();
        let start: usize = self.cold.len();
        let mut removed: usize = 0;
        let mut i: usize = 0;
        while i < n
            invariant
                n == ids@.len(),
                i <= n,
                self.wf(),
                start == old(self).cold_map().size(),
                removed + self.cold_map().size() == old(self).cold_map().size(),
                self.cold_map()@ == remove_all(old(self).cold_map()@, names(ids@).take(i as int)),
                self.embedding_map()@ == remove_all(old(self).embedding_map()@, names(ids@).take(i as int)),
                self.hot_map()@ == old(self).hot_map()@,
                self.order() == old(self).order(),
                self.warm_map()@ == old(self).warm_map()@,
            decreases n - i,
        {
            assert(names(ids@).take(i + 1).drop_last() =~= names(ids@).take(i as int));
            let ghost cold0 = self.cold;
            let gone = self.cold.remove(ids[i].as_str());
            proof {
                lemma_remove_size(cold0, self.cold, ids@[i as int]@);
            }
            if gone.is_some() {
                removed = removed + 1;
            }
            self.embeddings.remove(ids[i].as_str());
            i = i + 1;
        }
        assert(names(ids@).take(n as int) =~= names(ids@));
        removed
    }

    /// Total number of memories across the three tiers (an entry in two tiers
    /// counts twice).
    pub fn total(&self) -> (n: usize)
        requires
            self.wf(),
            self.hot_map().size() + self.warm_map().size() + self.cold_map().size() <= usize::MAX,
        ensures
            n == self.hot_map().size() + self.warm_map().size() + self.cold_map().size(),
    {
        self.hot.len() + self.warm.len() + self.cold.len()
    }

    /// Memory statistics per tier.
    pub fn stats(&self) -> (s: MemoryStats)
        requires
            self.wf(),
            self.hot_map().size() + self.warm_map().size() + self.cold_map().size() <= usize::MAX,
        ensures
            s.hot == self.hot_map().size(),
            s.warm == self.warm_map().size(),
            s.cold == self.cold_map().size(),
            s.total == self.hot_map().size() + self.warm_map().size() + self.cold_map().size(),
    {
        MemoryStats {
            hot: self.hot.len(),
            warm: self.warm.len(),
            cold: self.cold.len(),
            total: self.total(),
        }
    }

    /// Statistics of a cooling cycle that moved `cooled_to_warm` entries out
    /// of the hot tier, `cooled_to_cold` from warm to cold, and pruned
    /// `pruned`, with the tier sizes after it.
    pub fn tick_stats(&self, cooled_to_warm: usize, cooled_to_cold: usize, pruned: usize) -> (s:
        MemoryTickStats)
        requires
            self.wf(),
            self.hot_map().size() + self.warm_map().size() + self.cold_map().size() <= usize::MAX,
        ensures
            s.hot == self.hot_map().size(),
            s.warm == self.warm_map().size(),
            s.cold == self.cold_map().size(),
            s.total == self.hot_map().size() + self.warm_map().size() + self.cold_map().size(),
            s.cooled_to_warm == cooled_to_warm,
            s.cooled_to_cold == cooled_to_cold,
            s.pruned == pruned,
    {
        MemoryTickStats {
            hot: self.hot.len(),
            warm: self.warm.len(),
            cold: self.cold.len(),
            total: self.total(),
            cooled_to_warm,
            cooled_to_cold,
            pruned,
        }
    }
}

} // verus!

verus! {

/// Removing keys keeps no key that was not there.
proof fn lemma_remove_all_within<V>(m: Map<Seq<char>, V>, ids: Seq<Seq<char>>)
    ensures
        forall|k: Seq<char>| #[trigger] remove_all(m, ids).contains_key(k) ==> m.contains_key(k),
    decreases ids.len(),
{
    if ids.len() > 0 {
        lemma_remove_all_within(m, ids.drop_last());
        let prev = remove_all(m, ids.drop_last());
        assert forall|k: Seq<char>| #[trigger] remove_all(m, ids).contains_key(k) implies m.contains_key(k) by {
            assert(remove_all(m, ids) == prev.remove(ids.last()));
            assert(prev.contains_key(k));
        }
    }
}

/// No id is in both maps.
pub open spec fn disjoint<V>(a: Map<Seq<char>, V>, b: Map<Seq<char>, V>) -> bool {
    forall|k: Seq<char>| !(#[trigger] a.contains_key(k) && b.contains_key(k))
}

/// Moving entries from the warm to the cold tier shrinks the warm tier by the
/// number moved and grows the cold tier by at most that number; where no id
/// is in both tiers, the cold tier grows by exactly that number and the two
/// tiers stay apart.
pub proof fn lemma_archive_all_sizes<V>(w: Map<Seq<char>, V>, c: Map<Seq<char>, V>, ids: Seq<Seq<char>>)
    requires
        w.dom().finite(),
        c.dom().finite(),
    ensures
        archive_all(w, c, ids).0.dom().finite(),
        archive_all(w, c, ids).1.dom().finite(),
        archive_all(w, c, ids).0.dom().len() + archive_all(w, c, ids).2 == w.dom().len(),
        archive_all(w, c, ids).1.dom().len() <= c.dom().len() + archive_all(w, c, ids).2,
        disjoint(w, c) ==> disjoint(archive_all(w, c, ids).0, archive_all(w, c, ids).1)
            && archive_all(w, c, ids).1.dom().len() == c.dom().len() + archive_all(w, c, ids).2,
    decreases ids.len(),
{
    if ids.len() > 0 {
        lemma_archive_all_sizes(w, c, ids.drop_last());
        let prev = archive_all(w, c, ids.drop_last());
        let k = ids.last();
        if prev.0.contains_key(k) {
            let r = archive_all(w, c, ids);
            assert(r.0 == prev.0.remove(k));
            assert(r.1 == prev.1.insert(k, prev.0[k]));
            assert(r.0.dom() =~= prev.0.dom().remove(k));
            assert(r.1.dom() =~= prev.1.dom().insert(k));
            if disjoint(w, c) {
                assert(!prev.1.contains_key(k));
                assert forall|x: Seq<char>| !(#[trigger] r.0.contains_key(x) && r.1.contains_key(x)) by {
                    if x != k {
                        assert(!(prev.0.contains_key(x) && prev.1.contains_key(x)));
                    }
                }
            }
        }
    }
}

impl<T, E> TierStore<T, E> {
    /// The number of entries over the three tiers (an entry in two tiers
    /// counts twice).
    pub open spec fn total_size(&self) -> nat {
        self.hot_map().size() + self.warm_map().size() + self.cold_map().size()
    }

    /// Reinforcing a memory: where the lookup of `id` finds it in the warm
    /// or the cold tier, a clone of that entry goes back into the hot tier as
    /// the most recent; where it is hot already, or nowhere, nothing
    /// changes. Returns the tier the lookup found it in.
    pub fn reheat_if_cooled(&mut self, id: &str) -> (t: Option<Tier>)
        where T: Clone
        requires
            old(self).wf(),
        ensures
            final(self).wf(),
            t == old(self).tier_of(id@),
            final(self).warm_map()@ == old(self).warm_map()@,
            final(self).cold_map()@ == old(self).cold_map()@,
            final(self).embedding_map()@ == old(self).embedding_map()@,
            (t == Some(Tier::Warm) || t == Some(Tier::Cold)) ==> {
                &&& final(self).hot_map()@ == old(self).hot_map()@.insert(id@, final(self).hot_map()@[id@])
                &&& cloned(old(self).lookup(id@)->0, final(self).hot_map()@[id@])
                &&& final(self).order() == old(self).order().push(id@)
                &&& final(self).lookup(id@) == Some(final(self).hot_map()@[id@])
            },
            !(t == Some(Tier::Warm) || t == Some(Tier::Cold)) ==> final(self).hot_map()@
                == old(self).hot_map()@ && final(self).order() == old(self).order(),
    {
        let t = self.locate(id);
        match t {
            Some(Tier::Warm) => {
                let i = self.warm.index_of(id).unwrap();
                proof {
                    crate::keyed::lemma_key_index(self.warm.keys(), i as int);
                }
                let copy = self.warm.value_at(i).clone();
                self.reheat(String::from_str(id), copy);
            },
            Some(Tier::Cold) => {
                let i = self.cold.index_of(id).unwrap();
                proof {
                    crate::keyed::lemma_key_index(self.cold.keys(), i as int);
                }
                let copy = self.cold.value_at(i).clone();
                self.reheat(String::from_str(id), copy);
            },
            _ => {},
        }
        t
    }

    /// A cooling cycle: take `to_cool` out of the hot tier, move those of
    /// `to_archive` that are warm to the cold tier, then drop `to_prune` from
    /// the cold tier and the embedding cache. Returns how many entries each
    /// step moved and the tier sizes after it. The total over the tiers
    /// drops by the entries cooled and pruned (exactly so where no id is in
    /// both the warm and the cold tier, which the cycle keeps).
    pub fn tick(&mut self, to_cool: &Vec<String>, to_archive: &Vec<String>, to_prune: &Vec<String>) -> (r:
        MemoryTickStats)
        requires
            old(self).wf(),
            old(self).total_size() <= usize::MAX,
        ensures
            final(self).wf(),
            ({
                let moved = archive_all(old(self).warm_map()@, old(self).cold_map()@, names(to_archive@));
                &&& final(self).hot_map()@ == remove_all(old(self).hot_map()@, names(to_cool@))
                &&& final(self).order() == strip_all(old(self).order(), names(to_cool@))
                &&& final(self).warm_map()@ == moved.0
                &&& final(self).cold_map()@ == remove_all(moved.1, names(to_prune@))
                &&& final(self).embedding_map()@ == remove_all(old(self).embedding_map()@, names(to_prune@))
                &&& r.cooled_to_warm == old(self).hot_map().size() - final(self).hot_map().size()
                &&& r.cooled_to_cold == moved.2
                &&& r.pruned == moved.1.dom().len() - final(self).cold_map().size()
            }),
            r.hot == final(self).hot_map().size(),
            r.warm == final(self).warm_map().size(),
            r.cold == final(self).cold_map().size(),
            r.total == final(self).total_size(),
            final(self).total_size() <= old(self).total_size() - r.cooled_to_warm - r.pruned,
            disjoint(old(self).warm_map()@, old(self).cold_map()@) ==> final(self).total_size()
                == old(self).total_size() - r.cooled_to_warm - r.pruned && disjoint(
                final(self).warm_map()@,
                final(self).cold_map()@,
            ),
    {
        let ghost s0 = *self;
        proof {
            s0.hot_map().lemma_size();
            s0.warm_map().lemma_size();
            s0.cold_map().lemma_size();
        }
        let cooled = self.cool(to_cool);
        let ghost s1 = *self;
        proof {
            s1.hot_map().lemma_size();
            s1.warm_map().lemma_size();
            s1.cold_map().lemma_size();
        }
        let moved = self.archive(to_archive);
        let ghost s2 = *self;
        proof {
            lemma_archive_all_sizes(s1.warm_map()@, s1.cold_map()@, names(to_archive@));
            s2.hot_map().lemma_size();
            s2.warm_map().lemma_size();
            s2.cold_map().lemma_size();
        }
        let pruned = self.prune(to_prune);
        let ghost s3 = *self;
        proof {
            s3.hot_map().lemma_size();
            s3.warm_map().lemma_size();
            s3.cold_map().lemma_size();
            assert(s1.warm_map()@ == s0.warm_map()@ && s1.cold_map()@ == s0.cold_map()@);
            assert(s3.total_size() <= s0.total_size());
            lemma_remove_all_within(s2.cold_map()@, names(to_prune@));
        }
        self.tick_stats(cooled, moved, pruned)
    }
}

/// Removing keys one after another leaves exactly the keys that were there
/// and were not removed, each with its value.
pub proof fn lemma_remove_all_keys<V>(m: Map<Seq<char>, V>, ids: Seq<Seq<char>>)
    ensures
        forall|k: Seq<char>| #[trigger] remove_all(m, ids).contains_key(k) <==> (m.contains_key(k)
            && !ids.contains(k)),
        forall|k: Seq<char>| #[trigger] remove_all(m, ids).contains_key(k) ==> remove_all(m, ids)[k] == m[k],
    decreases ids.len(),
{
    if ids.len() > 0 {
        let pre = ids.drop_last();
        lemma_remove_all_keys(m, pre);
        let prev = remove_all(m, pre);
        assert(remove_all(m, ids) == prev.remove(ids.last()));
        assert forall|k: Seq<char>| #[trigger] remove_all(m, ids).contains_key(k) implies remove_all(m, ids)[k]
            == m[k] by {
            assert(prev.contains_key(k));
        }
        assert forall|k: Seq<char>| #[trigger] remove_all(m, ids).contains_key(k) <==> (m.contains_key(k)
            && !ids.contains(k)) by {
            assert(prev.contains_key(k) <==> (m.contains_key(k) && !pre.contains(k)));
            if ids.contains(k) && k != ids.last() {
                let j = choose|j: int| 0 <= j < ids.len() && ids[j] == k;
                assert(pre[j] == k);
            }
            if pre.contains(k) {
                let j = choose|j: int| 0 <= j < pre.len() && pre[j] == k;
                assert(ids[j] == k);
            }
            if k == ids.last() {
                assert(ids[ids.len() - 1] == k);
            }
        }
    }
}

/// Taking ids out of an order one after another leaves exactly the ids that
/// were there and were not taken out.
pub proof fn lemma_strip_all_contains(order: Seq<Seq<char>>, ids: Seq<Seq<char>>)
    ensures
        forall|k: Seq<char>| #[trigger] strip_all(order, ids).contains(k) <==> (order.contains(k)
            && !ids.contains(k)),
    decreases ids.len(),
{
    if ids.len() > 0 {
        let pre = ids.drop_last();
        lemma_strip_all_contains(order, pre);
        assert forall|k: Seq<char>| #[trigger] strip_all(order, ids).contains(k) <==> (order.contains(k)
            && !ids.contains(k)) by {
            lemma_without_contains(strip_all(order, pre), ids.last(), k);
            if ids.contains(k) && k != ids.last() {
                let j = choose|j: int| 0 <= j < ids.len() && ids[j] == k;
                assert(pre[j] == k);
            }
            if pre.contains(k) {
                let j = choose|j: int| 0 <= j < pre.len() && pre[j] == k;
                assert(ids[j] == k);
            }
            if k == ids.last() {
                assert(ids[ids.len() - 1] == k);
            }
        }
    }
}

/// Archiving moves exactly the given ids that are warm: afterwards an id is
/// warm when it was warm and not given, and cold when it was cold or was a
/// warm id given; a moved entry keeps its warm value.
pub proof fn lemma_archive_all_moves<V>(w: Map<Seq<char>, V>, c: Map<Seq<char>, V>, ids: Seq<Seq<char>>)
    ensures
        forall|k: Seq<char>| #[trigger] archive_all(w, c, ids).0.contains_key(k) <==> (w.contains_key(k)
            && !ids.contains(k)),
        forall|k: Seq<char>| #[trigger] archive_all(w, c, ids).1.contains_key(k) <==> (c.contains_key(k)
            || (w.contains_key(k) && ids.contains(k))),
        forall|k: Seq<char>| #[trigger] archive_all(w, c, ids).0.contains_key(k) ==> archive_all(w, c, ids).0[k]
            == w[k],
        forall|k: Seq<char>|
            w.contains_key(k) && ids.contains(k) ==> #[trigger] archive_all(w, c, ids).1[k] == w[k],
        forall|k: Seq<char>|
            !(w.contains_key(k) && ids.contains(k)) && c.contains_key(k) ==> #[trigger] archive_all(
                w,
                c,
                ids,
            ).1[k] == c[k],
    decreases ids.len(),
{
    if ids.len() > 0 {
        let pre = ids.drop_last();
        let last = ids.last();
        lemma_archive_all_moves(w, c, pre);
        let prev = archive_all(w, c, pre);
        let r = archive_all(w, c, ids);
        assert forall|k: Seq<char>| ids.contains(k) <==> (pre.contains(k) || k == last) by {
            if ids.contains(k) && k != last {
                let j = choose|j: int| 0 <= j < ids.len() && ids[j] == k;
                assert(pre[j] == k);
            }
            if pre.contains(k) {
                let j = choose|j: int| 0 <= j < pre.len() && pre[j] == k;
                assert(ids[j] == k);
            }
            if k == last {
                assert(ids[ids.len() - 1] == k);
            }
        }
        assert forall|k: Seq<char>| #[trigger] r.0.contains_key(k) <==> (w.contains_key(k) && !ids.contains(k)) by {
            assert(ids.contains(k) <==> (pre.contains(k) || k == last));
        }
        assert forall|k: Seq<char>| #[trigger] r.1.contains_key(k) <==> (c.contains_key(k) || (w.contains_key(k)
            && ids.contains(k))) by {
            assert(ids.contains(k) <==> (pre.contains(k) || k == last));
        }
        assert forall|k: Seq<char>| w.contains_key(k) && ids.contains(k) implies #[trigger] r.1[k] == w[k] by {
            assert(ids.contains(k) <==> (pre.contains(k) || k == last));
        }
        assert forall|k: Seq<char>|
            !(w.contains_key(k) && ids.contains(k)) && c.contains_key(k) implies #[trigger] r.1[k] == c[k] by {
            assert(ids.contains(k) <==> (pre.contains(k) || k == last));
        }
    }
}

} // verus!
