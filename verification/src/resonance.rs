//! Resonance bookkeeping: what agents are learning and querying, kept per
//! agent in bounded logs, with the statistics of the resonance engine.
use vstd::prelude::*;
use crate::keyed::{names, StrMap};
use vstd::string::StringExecFns;

verus! {

/// Maximum learning events stored per agent.
pub const MAX_LEARNING_PER_AGENT: usize = 50;

/// Maximum active queries stored per agent.
pub const MAX_QUERIES_PER_AGENT: usize = 20;

/// Maximum resonance hits remembered.
pub const MAX_RECENT_RESONANCES: usize = 100;

/// How many of the remembered resonance hits `recent_resonances` shows.
pub const RECENT_RESONANCES_SHOWN: usize = 10;

/// Resonance engine statistics.
#[derive(Debug, Clone, Copy, PartialEq, Eq, Structural)]
pub struct ResonanceStats {
    pub learnings_tracked: usize,
    pub queries_tracked: usize,
    pub resonances_detected: usize,
}

impl Default for ResonanceStats {
    /// All counts zero.
    fn default() -> (s: ResonanceStats)
        ensures
            s == (ResonanceStats { learnings_tracked: 0, queries_tracked: 0, resonances_detected: 0 }),
    {
        ResonanceStats { learnings_tracked: 0, queries_tracked: 0, resonances_detected: 0 }
    }
}

impl ResonanceStats {
    /// Count one more learning event tracked.
    pub fn count_learning(&mut self)
        requires
            old(self).learnings_tracked < usize::MAX,
        ensures
            *final(self) == (ResonanceStats {
                learnings_tracked: (old(self).learnings_tracked + 1) as usize,
                ..*old(self)
            }),
    {
        self.learnings_tracked = self.learnings_tracked + 1;
    }

    /// Count one more query tracked.
    pub fn count_query(&mut self)
        requires
            old(self).queries_tracked < usize::MAX,
        ensures
            *final(self) == (ResonanceStats {
                queries_tracked: (old(self).queries_tracked + 1) as usize,
                ..*old(self)
            }),
    {
        self.queries_tracked = self.queries_tracked + 1;
    }

    /// Count `hits` more resonances detected.
    pub fn count_resonances(&mut self, hits: usize)
        requires
            old(self).resonances_detected + hits <= usize::MAX,
        ensures
            *final(self) == (ResonanceStats {
                resonances_detected: (old(self).resonances_detected + hits) as usize,
                ..*old(self)
            }),
    {
        self.resonances_detected = self.resonances_detected + hits;
    }
}

/// Pruning statistics.
#[derive(Debug, Clone, Copy, PartialEq, Eq, Structural)]
pub struct ResonancePruneStats {
    pub learnings_pruned: usize,
    pub queries_pruned: usize,
}

impl Default for ResonancePruneStats {
    /// All counts zero.
    fn default() -> (s: ResonancePruneStats)
        ensures
            s == (ResonancePruneStats { learnings_pruned: 0, queries_pruned: 0 }),
    {
        ResonancePruneStats { learnings_pruned: 0, queries_pruned: 0 }
    }
}

/// The last `max` elements of `s` (all of them where there are no more).
pub open spec fn keep_last<T>(s: Seq<T>, max: nat) -> Seq<T> {
    if s.len() > max {
        s.skip(s.len() - max)
    } else {
        s
    }
}

/// The elements of `s` whose flag in `flags` is set, order kept.
pub open spec fn kept<T>(s: Seq<T>, flags: Seq<bool>) -> Seq<T>
    decreases s.len(),
{
    if s.len() == 0 {
        Seq::empty()
    } else {
        let prev = kept(s.drop_last(), flags.drop_last());
        if flags.last() {
            prev.push(s.last())
        } else {
            prev
        }
    }
}

/// A bounded log holds at most its limit of items: the latest ones, oldest
/// first.
pub proof fn lemma_keep_last_bounded<T>(s: Seq<T>, max: nat)
    ensures
        keep_last(s, max).len() <= max || keep_last(s, max) == s,
        keep_last(s, max).len() == if s.len() > max { max } else { s.len() },
        forall|i: int|
            0 <= i < keep_last(s, max).len() ==> #[trigger] keep_last(s, max)[i] == s[s.len()
                - keep_last(s, max).len() + i],
{
}

/// Drop the oldest elements of `v` until at most `max` are left.
fn trim_front<T>(v: &mut Vec<T>, max: usize)
    ensures
        final(v)@ == keep_last(old(v)@, max as nat),
{
    if v.len() > max {
        let excess = v.len() - max;
        let mut rest: Vec<T> = Vec::new();
        std::mem::swap(&mut rest, v);
        let ghost all = rest@;
        let mut i: usize = 0;
        while i < excess
            invariant
                i <= excess,
                excess == all.len() - max,
                rest@ == all.skip(i as int),
            decreases excess - i,
        {
            rest.remove(0);
            assert(all.skip(i as int).remove(0) =~= all.skip(i + 1));
            i = i + 1;
        }
        *v = rest;
    }
}

/// Append `item`, then drop the oldest elements until at most `max` are left.
pub fn push_bounded<T>(v: &mut Vec<T>, item: T, max: usize)
    ensures
        final(v)@ == keep_last(old(v)@.push(item), max as nat),
{
    v.push(item);
    trim_front(v, max);
}

/// Append `items`, then drop the oldest elements until at most `max` are left.
pub fn extend_bounded<T>(v: &mut Vec<T>, items: Vec<T>, max: usize)
    ensures
        final(v)@ == keep_last(old(v)@ + items@, max as nat),
{
    let mut items = items;
    v.append(&mut items);
    trim_front(v, max);
}

/// The last `n` elements of `v` (all of them where there are no more).
pub fn last_n<T>(v: &Vec<T>, n: usize) -> (r: &[T])
    ensures
        r@ == keep_last(v@, n as nat),
{
    let start = if v.len() > n {
        v.len() - n
    } else {
        0
    };
    let (_, tail) = v.as_slice().split_at(start);
    assert(v@.subrange(0, v@.len() as int) =~= v@);
    assert(v@.subrange(start as int, v@.len() as int) =~= v@.skip(start as int));
    tail
}

/// Keep the elements of `v` whose flag in `keep` is set, order kept; return
/// how many were dropped.
pub fn retain_flagged<T>(v: &mut Vec<T>, keep: &Vec<bool>) -> (dropped: usize)
    requires
        keep@.len() == old(v)@.len(),
    ensures
        final(v)@ == kept(old(v)@, keep@),
        dropped == old(v)@.len() - final(v)@.len(),
{
    let mut rest: Vec<T> = Vec::new();
    std::mem::swap(&mut rest, v);
    let ghost all = rest@;
    let n = rest.len();
    let mut out: Vec<T> = Vec::new();
    let mut i: usize = 0;
    while i < n
        invariant
            n == all.len(),
            keep@.len() == n,
            i <= n,
            rest@ == all.skip(i as int),
            out@ == kept(all.take(i as int), keep@.take(i as int)),
            out@.len() <= i,
        decreases n - i,
    {
        let item = rest.remove(0);
        assert(all.skip(i as int).remove(0) =~= all.skip(i + 1));
        assert(all.take(i + 1).drop_last() =~= all.take(i as int));
        assert(keep@.take(i + 1).drop_last() =~= keep@.take(i as int));
        if keep[i] {
            out.push(item);
        }
        i = i + 1;
    }
    assert(all.take(n as int) =~= all);
    assert(keep@.take(n as int) =~= keep@);
    let dropped = n - out.len();
    *v = out;
    dropped
}

/// Per-agent logs, each holding at most a fixed number of the latest items.
pub struct AgentLogs<T> {
    pub logs: StrMap<Vec<T>>,
    pub max_per_agent: usize,
}

impl<T> AgentLogs<T> {
    /// The log of `agent`, oldest first (empty where the agent has none).
    pub open spec fn log_of(&self, agent: Seq<char>) -> Seq<T> {
        if self.logs@.contains_key(agent) {
            self.logs@[agent]@
        } else {
            Seq::empty()
        }
    }

    /// Empty logs that keep up to `max_per_agent` items per agent.
    pub fn new(max_per_agent: usize) -> (l: Self)
        ensures
            l.logs.wf(),
            l.logs@ == Map::<Seq<char>, Vec<T>>::empty(),
            l.max_per_agent == max_per_agent,
    {
        AgentLogs { logs: StrMap::new(), max_per_agent }
    }

    /// Add `item` to the log of `agent`, dropping its oldest items beyond
    /// the limit.
    pub fn record(&mut self, agent: &str, item: T)
        requires
            old(self).logs.wf(),
        ensures
            final(self).logs.wf(),
            final(self).max_per_agent == old(self).max_per_agent,
            final(self).logs@.dom() == old(self).logs@.dom().insert(agent@),
            final(self).log_of(agent@) == keep_last(
                old(self).log_of(agent@).push(item),
                old(self).max_per_agent as nat,
            ),
            forall|other: Seq<char>|
                other != agent@ ==> #[trigger] final(self).logs@.contains_key(other)
                    == old(self).logs@.contains_key(other) && final(self).log_of(other) == old(
                    self,
                ).log_of(other),
    {
        let max = self.max_per_agent;
        match self.logs.index_of(agent) {
            Some(i) => {
                let log = self.logs.value_at_mut(i);
                push_bounded(log, item, max);
                proof {
                    assert(final(self).logs@.dom() =~= old(self).logs@.dom().insert(agent@));
                }
            },
            None => {
                let mut log: Vec<T> = Vec::new();
                push_bounded(&mut log, item, max);
                assert(Seq::<T>::empty().push(item) =~= seq![item]);
                self.logs.insert(String::from_str(agent), log);
                proof {
                    assert(self.logs@.dom() =~= old(self).logs@.dom().insert(agent@));
                }
            },
        }
    }

    /// The positions of the logs of agents other than `agent`, in order: the
    /// logs a record of `agent` is matched against.
    pub fn other_agents(&self, agent: &str) -> (r: Vec<usize>)
        requires
            self.logs.wf(),
        ensures
            forall|k: int|
                0 <= k < r@.len() ==> #[trigger] r@[k] < self.logs.size() && self.logs.keys()[r@[k] as int]
                    != agent@,
            forall|i: int|
                0 <= i < self.logs.size() && self.logs.keys()[i] != agent@ ==> #[trigger] r@.contains(
                    i as usize,
                ),
            forall|a: int, b: int| 0 <= a < b < r@.len() ==> #[trigger] r@[a] < #[trigger] r@[b],
    {
        let n = self.logs.len();
        let mut out: Vec<usize> = Vec::new();
        let mut i: usize = 0;
        while i < n
            invariant
                n == self.logs.size(),
                self.logs.wf(),
                i <= n,
                forall|k: int|
                    0 <= k < out@.len() ==> #[trigger] out@[k] < i && self.logs.keys()[out@[k] as int]
                        != agent@,
                forall|j: int|
                    0 <= j < i && self.logs.keys()[j] != agent@ ==> #[trigger] out@.contains(
                        j as usize,
                    ),
                forall|a: int, b: int| 0 <= a < b < out@.len() ==> #[trigger] out@[a] < #[trigger] out@[b],
            decreases n - i,
        {
            if !crate::text::str_equal(self.logs.key_at(i), agent) {
                let ghost before = out@;
                out.push(i);
                proof {
                    assert forall|j: int|
                        0 <= j < i + 1 && self.logs.keys()[j] != agent@ implies #[trigger] out@.contains(
                        j as usize,
                    ) by {
                        if j < i {
                            assert(before.contains(j as usize));
                            let w = choose|w: int| 0 <= w < before.len() && before[w] == j as usize;
                            assert(out@[w] == j as usize);
                        } else {
                            assert(out@[before.len() as int] == j as usize);
                        }
                    }
                }
            }
            i = i + 1;
        }
        out
    }

    /// Keep, in the log at position `i`, the items whose flag in `keep` is
    /// set; return how many were dropped.
    pub fn retain_at(&mut self, i: usize, keep: &Vec<bool>) -> (dropped: usize)
        requires
            old(self).logs.wf(),
            i < old(self).logs.size(),
            keep@.len() == old(self).logs.values()[i as int]@.len(),
        ensures
            final(self).logs.wf(),
            final(self).max_per_agent == old(self).max_per_agent,
            final(self).logs.keys() == old(self).logs.keys(),
            final(self).logs@ == old(self).logs@.insert(
                old(self).logs.keys()[i as int],
                final(self).logs@[old(self).logs.keys()[i as int]],
            ),
            final(self).logs@[old(self).logs.keys()[i as int]]@ == kept(
                old(self).logs.values()[i as int]@,
                keep@,
            ),
            dropped == old(self).logs.values()[i as int]@.len() - final(self).logs@[old(
                self,
            ).logs.keys()[i as int]]@.len(),
    {
        proof {
            crate::keyed::lemma_key_index(self.logs.keys(), i as int);
        }
        let log = self.logs.value_at_mut(i);
        retain_flagged(log, keep)
    }

    /// The logs, in the order of their agents.
    pub open spec fn log_seqs(&self) -> Seq<Seq<T>> {
        Seq::new(self.logs.size(), |i: int| self.logs@[self.logs.keys()[i]]@)
    }

    /// Keep, in the log at each position `i`, the items whose flag in
    /// `keep[i]` is set, order kept; then remove the agents whose log is left
    /// empty. Returns how many items were dropped in all.
    pub fn retain_all(&mut self, keep: &Vec<Vec<bool>>) -> (dropped: usize)
        requires
            old(self).logs.wf(),
            keep@.len() == old(self).logs.size(),
            forall|i: int| 0 <= i < keep@.len() ==> #[trigger] keep@[i]@.len() == old(self).log_seqs()[i].len(),
            total_len(old(self).log_seqs()) <= usize::MAX,
        ensures
            final(self).logs.wf(),
            final(self).max_per_agent == old(self).max_per_agent,
            dropped == dropped_total(old(self).log_seqs(), flag_seqs(keep@)),
            forall|i: int|
                0 <= i < old(self).logs.size() ==> {
                    let k = #[trigger] old(self).logs.keys()[i];
                    let left = kept(old(self).log_seqs()[i], keep@[i]@);
                    &&& final(self).logs@.contains_key(k) == (left.len() > 0)
                    &&& left.len() > 0 ==> final(self).logs@[k]@ == left
                },
            forall|a: Seq<char>| #[trigger] final(self).logs@.contains_key(a) ==> old(self).logs@.contains_key(a),
    {
        let ghost logs0 = old(self).log_seqs();
        let ghost keys0 = old(self).logs.keys();
        let ghost flags = flag_seqs(keep@);
        let n = self.logs.len();
        let mut total: usize = 0;
        let mut i: usize = 0;
        proof {
            lemma_total_len_prefix(logs0, 0);
            assert(logs0.take(0) =~= Seq::<Seq<T>>::empty());
            assert(flags.take(0) =~= Seq::<Seq<bool>>::empty());
        }
        while i < n
            invariant
                n == keys0.len(),
                n == logs0.len(),
                n == keep@.len(),
                flags == flag_seqs(keep@),
                logs0 == old(self).log_seqs(),
                keys0 == old(self).logs.keys(),
                old(self).logs.wf(),
                forall|j: int| 0 <= j < n ==> #[trigger] keep@[j]@.len() == logs0[j].len(),
                total_len(logs0) <= usize::MAX,
                i <= n,
                self.logs.wf(),
                self.max_per_agent == old(self).max_per_agent,
                self.logs.keys() == keys0,
                forall|j: int| i <= j < n ==> self.logs@[#[trigger] keys0[j]] == old(self).logs@[keys0[j]],
                forall|j: int| 0 <= j < i ==> self.logs@[#[trigger] keys0[j]]@ == kept(logs0[j], keep@[j]@),
                total == dropped_total(logs0.take(i as int), flags.take(i as int)),
                total <= total_len(logs0.take(i as int)),
                total_len(logs0.take(i as int)) <= total_len(logs0),
            decreases n - i,
        {
            proof {
                crate::keyed::lemma_key_index(keys0, i as int);
                crate::keyed::lemma_key_index(self.logs.keys(), i as int);
                assert(self.logs.keys().contains(keys0[i as int]));
                assert(logs0[i as int] == old(self).logs@[keys0[i as int]]@);
            }
            let d = self.retain_at(i, &keep[i]);
            proof {
                let t = logs0.take(i + 1);
                assert(t.drop_last() =~= logs0.take(i as int));
                assert(flags.take(i + 1).drop_last() =~= flags.take(i as int));
                assert(flags[i as int] == keep@[i as int]@);
                lemma_total_len_prefix(logs0, i + 1);
                assert forall|j: int| 0 <= j < i + 1 implies self.logs@[#[trigger] keys0[j]]@ == kept(logs0[j], keep@[j]@) by {
                    if j < i {
                        assert(keys0[j] != keys0[i as int]);
                    }
                }
                assert forall|j: int| i + 1 <= j < n implies self.logs@[#[trigger] keys0[j]] == old(self).logs@[keys0[j]] by {
                    assert(keys0[j] != keys0[i as int]);
                }
            }
            total = total + d;
            i = i + 1;
        }
        proof {
            assert(logs0.take(n as int) =~= logs0);
            assert(flags.take(n as int) =~= flags);
        }
        let ghost mid = self.logs@;
        self.drop_empty();
        proof {
            assert forall|j: int| 0 <= j < n implies {
                let k = #[trigger] keys0[j];
                let left = kept(logs0[j], keep@[j]@);
                &&& self.logs@.contains_key(k) == (left.len() > 0)
                &&& left.len() > 0 ==> self.logs@[k]@ == left
            } by {
                assert(mid.contains_key(keys0[j]));
            }
            assert forall|a: Seq<char>| #[trigger] self.logs@.contains_key(a) implies old(self).logs@.contains_key(a) by {
                assert(mid.contains_key(a));
            }
        }
        total
    }

    /// Remove the agents whose log is empty.
    pub fn drop_empty(&mut self)
        requires
            old(self).logs.wf(),
        ensures
            final(self).logs.wf(),
            final(self).max_per_agent == old(self).max_per_agent,
            forall|a: Seq<char>|
                #[trigger] final(self).logs@.contains_key(a) == (old(self).logs@.contains_key(a)
                    && old(self).logs@[a]@.len() > 0),
            forall|a: Seq<char>|
                #[trigger] final(self).logs@.contains_key(a) ==> final(self).logs@[a]
                    == old(self).logs@[a],
    {
        let mut empty: Vec<String> = Vec::new();
        let n = self.logs.len();
        let mut i: usize = 0;
        while i < n
            invariant
                self.logs.wf(),
                self.logs@ == old(self).logs@,
                self.max_per_agent == old(self).max_per_agent,
                n == self.logs.size(),
                i <= n,
                forall|a: Seq<char>|
                    #![trigger names(empty@).contains(a)]
                    names(empty@).contains(a) <==> exists|j: int|
                        0 <= j < i && self.logs.keys()[j] == a && self.logs.values()[j]@.len() == 0,
            decreases n - i,
        {
            if self.logs.value_at(i).len() == 0 {
                let k = String::from_str(self.logs.key_at(i));
                let ghost before = names(empty@);
                empty.push(k);
                proof {
                    assert(names(empty@) =~= before.push(self.logs.keys()[i as int]));
                    assert forall|a: Seq<char>| names(empty@).contains(a) <==> exists|j: int|
                        0 <= j < i + 1 && self.logs.keys()[j] == a && self.logs.values()[j]@.len() == 0 by {
                        if names(empty@).contains(a) {
                            let w = choose|w: int| 0 <= w < names(empty@).len() && names(empty@)[w] == a;
                            if w < before.len() {
                                assert(before[w] == a);
                                assert(before.contains(a));
                            } else {
                                assert(self.logs.keys()[i as int] == a);
                            }
                        }
                        if exists|j: int| 0 <= j < i + 1 && self.logs.keys()[j] == a && self.logs.values()[j]@.len() == 0 {
                            let j = choose|j: int| 0 <= j < i + 1 && self.logs.keys()[j] == a && self.logs.values()[j]@.len() == 0;
                            if j < i {
                                assert(before.contains(a));
                                let w = choose|w: int| 0 <= w < before.len() && before[w] == a;
                                assert(names(empty@)[w] == a);
                            } else {
                                assert(names(empty@)[before.len() as int] == a);
                            }
                        }
                    }
                }
            } else {
                proof {
                    assert forall|a: Seq<char>| names(empty@).contains(a) <==> exists|j: int|
                        0 <= j < i + 1 && self.logs.keys()[j] == a && self.logs.values()[j]@.len() == 0 by {
                        if exists|j: int| 0 <= j < i + 1 && self.logs.keys()[j] == a && self.logs.values()[j]@.len() == 0 {
                            let j = choose|j: int| 0 <= j < i + 1 && self.logs.keys()[j] == a && self.logs.values()[j]@.len() == 0;
                            assert(j != i);
                        }
                    }
                }
            }
            i = i + 1;
        }
        let ghost before_map = self.logs@;
        let ghost before_keys = self.logs.keys();
        let ghost before_vals = self.logs.values();
        proof {
            assert forall|a: Seq<char>| names(empty@).contains(a) <==> (before_map.contains_key(a) && before_map[a]@.len() == 0) by {
                if names(empty@).contains(a) {
                    let j = choose|j: int| 0 <= j < n && before_keys[j] == a && before_vals[j]@.len() == 0;
                    crate::keyed::lemma_key_index(before_keys, j);
                    assert(before_keys.contains(a));
                }
                if before_map.contains_key(a) && before_map[a]@.len() == 0 {
                    let j = crate::keyed::key_index(before_keys, a);
                    assert(0 <= j < n && before_keys[j] == a);
                }
            }
        }
        let m = empty.len();
        let mut k: usize = 0;
        while k < m
            invariant
                self.logs.wf(),
                self.max_per_agent == old(self).max_per_agent,
                before_map == old(self).logs@,
                m == empty@.len(),
                k <= m,
                forall|a: Seq<char>|
                    #[trigger] self.logs@.contains_key(a) == (before_map.contains_key(a) && !names(
                        empty@,
                    ).take(k as int).contains(a)),
                forall|a: Seq<char>|
                    #[trigger] self.logs@.contains_key(a) ==> self.logs@[a] == before_map[a],
            decreases m - k,
        {
            let ghost prev = self.logs@;
            self.logs.remove(empty[k].as_str());
            proof {
                let t0 = names(empty@).take(k as int);
                let t1 = names(empty@).take(k + 1);
                assert(t1 =~= t0.push(empty@[k as int]@));
                assert forall|a: Seq<char>| t1.contains(a) <==> (t0.contains(a) || a == empty@[k as int]@) by {
                    if t1.contains(a) {
                        let w = choose|w: int| 0 <= w < t1.len() && t1[w] == a;
                        if w < t0.len() {
                            assert(t0[w] == a);
                        }
                    }
                    if t0.contains(a) {
                        let w = choose|w: int| 0 <= w < t0.len() && t0[w] == a;
                        assert(t1[w] == a);
                    }
                    if a == empty@[k as int]@ {
                        assert(t1[k as int] == a);
                    }
                }
            }
            k = k + 1;
        }
        proof {
            assert(names(empty@).take(m as int) =~= names(empty@));
        }
    }
}

} // verus!

verus! {

/// The flags of each log, as sequences.
pub open spec fn flag_seqs(keep: Seq<Vec<bool>>) -> Seq<Seq<bool>> {
    keep.map_values(|v: Vec<bool>| v@)
}

/// The number of items over all the logs `logs`.
pub open spec fn total_len<T>(logs: Seq<Seq<T>>) -> int
    decreases logs.len(),
{
    if logs.len() == 0 {
        0
    } else {
        total_len(logs.drop_last()) + logs.last().len()
    }
}

/// The number of items dropped when each of the logs `logs` keeps only the
/// items flagged in the matching entry of `keep`.
pub open spec fn dropped_total<T>(logs: Seq<Seq<T>>, keep: Seq<Seq<bool>>) -> int
    decreases logs.len(),
{
    if logs.len() == 0 {
        0
    } else {
        dropped_total(logs.drop_last(), keep.drop_last()) + logs.last().len() - kept(
            logs.last(),
            keep.last(),
        ).len()
    }
}

/// The first logs hold no more items than all of them.
proof fn lemma_total_len_prefix<T>(logs: Seq<Seq<T>>, i: int)
    requires
        0 <= i <= logs.len(),
    ensures
        total_len(logs.take(i)) <= total_len(logs),
        0 <= total_len(logs.take(i)),
    decreases logs.len(),
{
    if i < logs.len() {
        assert(logs.take(i) =~= logs.drop_last().take(i));
        lemma_total_len_prefix(logs.drop_last(), i);
    } else {
        assert(logs.take(i) =~= logs);
        if logs.len() > 0 {
            lemma_total_len_prefix(logs.drop_last(), logs.len() - 1);
            assert(logs.drop_last().take(logs.len() - 1) =~= logs.drop_last());
        }
    }
}

/// Keeping items by their flags keeps exactly the flagged ones, in their
/// order: with every flag set the sequence is unchanged, with none set
/// nothing is left, and two stretches filtered one after the other give
/// what filtering them joined gives.
pub proof fn lemma_kept_is_flagged_subsequence<T>(
    s: Seq<T>,
    flags: Seq<bool>,
    s2: Seq<T>,
    flags2: Seq<bool>,
)
    requires
        flags.len() == s.len(),
        flags2.len() == s2.len(),
    ensures
        (forall|i: int| 0 <= i < flags.len() ==> #[trigger] flags[i]) ==> kept(s, flags) == s,
        (forall|i: int| 0 <= i < flags.len() ==> !#[trigger] flags[i]) ==> kept(s, flags) == Seq::<T>::empty(),
        kept(s + s2, flags + flags2) == kept(s, flags) + kept(s2, flags2),
        kept(s, flags).len() <= s.len(),
    decreases s2.len(),
{
    lemma_kept_all_or_none(s, flags);
    if s2.len() == 0 {
        assert(s + s2 =~= s);
        assert(flags + flags2 =~= flags);
        assert(kept(s, flags) + kept(s2, flags2) =~= kept(s, flags));
    } else {
        lemma_kept_is_flagged_subsequence(s, flags, s2.drop_last(), flags2.drop_last());
        assert((s + s2).drop_last() =~= s + s2.drop_last());
        assert((flags + flags2).drop_last() =~= flags + flags2.drop_last());
        assert((s + s2).last() == s2.last());
        assert((flags + flags2).last() == flags2.last());
        if flags2.last() {
            assert(kept(s, flags) + kept(s2.drop_last(), flags2.drop_last()).push(s2.last()) =~= (kept(
                s,
                flags,
            ) + kept(s2.drop_last(), flags2.drop_last())).push(s2.last()));
        }
    }
}

/// With every flag set nothing goes; with none set everything goes; and no
/// more items are kept than there were.
proof fn lemma_kept_all_or_none<T>(s: Seq<T>, flags: Seq<bool>)
    requires
        flags.len() == s.len(),
    ensures
        (forall|i: int| 0 <= i < flags.len() ==> #[trigger] flags[i]) ==> kept(s, flags) == s,
        (forall|i: int| 0 <= i < flags.len() ==> !#[trigger] flags[i]) ==> kept(s, flags) == Seq::<T>::empty(),
        kept(s, flags).len() <= s.len(),
    decreases s.len(),
{
    if s.len() > 0 {
        lemma_kept_all_or_none(s.drop_last(), flags.drop_last());
        if forall|i: int| 0 <= i < flags.len() ==> #[trigger] flags[i] {
            assert forall|i: int| 0 <= i < flags.drop_last().len() implies #[trigger] flags.drop_last()[i] by {
                assert(flags[i]);
            }
            assert(flags[flags.len() - 1]);
            assert(s.drop_last().push(s.last()) =~= s);
        }
        if forall|i: int| 0 <= i < flags.len() ==> !#[trigger] flags[i] {
            assert forall|i: int| 0 <= i < flags.drop_last().len() implies !#[trigger] flags.drop_last()[i] by {
                assert(!flags[i]);
            }
            assert(!flags[flags.len() - 1]);
        }
    }
}

/// A kept item stands where a set flag is: each element of the result is
/// the element of `s` at some flagged position, and these positions rise.
pub proof fn lemma_kept_positions<T>(s: Seq<T>, flags: Seq<bool>)
    requires
        flags.len() == s.len(),
    ensures
        exists|pos: Seq<int>|
            #![trigger pos.len()]
            {
                &&& pos.len() == kept(s, flags).len()
                &&& forall|k: int| 0 <= k < pos.len() ==> 0 <= #[trigger] pos[k] < s.len() && flags[pos[k]]
                    && kept(s, flags)[k] == s[pos[k]]
                &&& forall|a: int, b: int| 0 <= a < b < pos.len() ==> #[trigger] pos[a] < #[trigger] pos[b]
                &&& forall|i: int| 0 <= i < s.len() && #[trigger] flags[i] ==> exists|k: int|
                    0 <= k < pos.len() && pos[k] == i
            },
    decreases s.len(),
{
    if s.len() == 0 {
        let pos = Seq::<int>::empty();
        assert(pos.len() == kept(s, flags).len());
    } else {
        lemma_kept_positions(s.drop_last(), flags.drop_last());
        let sp = s.drop_last();
        let fp = flags.drop_last();
        let prev = choose|pos: Seq<int>|
            #![trigger pos.len()]
            {
                &&& pos.len() == kept(sp, fp).len()
                &&& forall|k: int| 0 <= k < pos.len() ==> 0 <= #[trigger] pos[k] < sp.len() && fp[pos[k]]
                    && kept(sp, fp)[k] == sp[pos[k]]
                &&& forall|a: int, b: int| 0 <= a < b < pos.len() ==> #[trigger] pos[a] < #[trigger] pos[b]
                &&& forall|i: int| 0 <= i < sp.len() && #[trigger] fp[i] ==> exists|k: int|
                    0 <= k < pos.len() && pos[k] == i
            };
        let last = s.len() - 1;
        if flags.last() {
            let pos = prev.push(last);
            assert(pos.len() == kept(s, flags).len());
            assert forall|k: int| 0 <= k < pos.len() implies 0 <= #[trigger] pos[k] < s.len() && flags[pos[k]]
                && kept(s, flags)[k] == s[pos[k]] by {
                if k < prev.len() {
                    assert(fp[prev[k]] == flags[prev[k]]);
                    assert(sp[prev[k]] == s[prev[k]]);
                }
            }
            assert forall|i: int| 0 <= i < s.len() && #[trigger] flags[i] implies exists|k: int|
                0 <= k < pos.len() && pos[k] == i by {
                if i < last {
                    assert(fp[i]);
                    let k = choose|k: int| 0 <= k < prev.len() && prev[k] == i;
                    assert(pos[k] == i);
                } else {
                    assert(pos[prev.len() as int] == i);
                }
            }
        } else {
            let pos = prev;
            assert(pos.len() == kept(s, flags).len());
            assert forall|k: int| 0 <= k < pos.len() implies 0 <= #[trigger] pos[k] < s.len() && flags[pos[k]]
                && kept(s, flags)[k] == s[pos[k]] by {
                assert(fp[prev[k]] == flags[prev[k]]);
                assert(sp[prev[k]] == s[prev[k]]);
            }
            assert forall|i: int| 0 <= i < s.len() && #[trigger] flags[i] implies exists|k: int|
                0 <= k < pos.len() && pos[k] == i by {
                assert(i < last);
                assert(fp[i]);
            }
        }
    }
}

} // verus!
