//! The agent registry at the heart of an agent space: agents kept under
//! unique ids, and the routing decisions of sending and broadcasting.
use vstd::prelude::*;
use vstd::string::StringExecFns;
use crate::text::str_equal;

verus! {

/// Errors that can occur in an agent space.
#[derive(Debug, Clone, PartialEq, Eq)]
pub enum SpaceError {
    AgentNotFound(String),
    CapabilityDenied(String),
    ConservationViolation(String),
}

/// The text that explains an error.
pub open spec fn space_error_text(e: SpaceError) -> Seq<char> {
    match e {
        SpaceError::AgentNotFound(id) => "agent not found: "@ + id@,
        SpaceError::CapabilityDenied(reason) => "capability denied: "@ + reason@,
        SpaceError::ConservationViolation(reason) => "conservation violation: "@ + reason@,
    }
}

/// Whether `e` reports that the agent `id` was not found.
pub open spec fn is_not_found(e: SpaceError, id: Seq<char>) -> bool {
    match e {
        SpaceError::AgentNotFound(s) => s@ == id,
        _ => false,
    }
}

impl SpaceError {
    /// The text that explains this error.
    pub fn to_string(&self) -> (s: String)
        ensures
            s@ == space_error_text(*self),
    {
        let (prefix, detail) = match self {
            SpaceError::AgentNotFound(id) => ("agent not found: ", id.as_str()),
            SpaceError::CapabilityDenied(reason) => ("capability denied: ", reason.as_str()),
            SpaceError::ConservationViolation(reason) => ("conservation violation: ", reason.as_str()),
        };
        let mut s = String::from_str(prefix);
        s.append(detail);
        s
    }
}

/// The error that reports the agent `id` was not found.
fn not_found(id: &str) -> (e: SpaceError)
    ensures
        is_not_found(e, id@),
{
    SpaceError::AgentNotFound(String::from_str(id))
}

/// Whether no id occurs twice.
pub open spec fn unique_ids(ids: Seq<Seq<char>>) -> bool {
    forall|i: int, j: int| 0 <= i < j < ids.len() ==> ids[i] != ids[j]
}

/// The position of `id` among `ids` (meaningful where it occurs).
pub open spec fn id_position(ids: Seq<Seq<char>>, id: Seq<char>) -> int {
    choose|i: int| 0 <= i < ids.len() && ids[i] == id
}

/// Agents kept in registration order under unique ids.
///
/// Each agent is kept under the id it was registered with.
pub struct Registry<A> {
    ids: Vec<String>,
    items: Vec<A>,
}

impl<A> Registry<A> {
    /// The ids, in registration order.
    pub closed spec fn ids(&self) -> Seq<Seq<char>> {
        self.ids@.map_values(|s: String| s@)
    }

    /// The agents, in the order of their ids.
    pub closed spec fn items(&self) -> Seq<A> {
        self.items@
    }

    /// One agent per id, and no id twice.
    pub open spec fn wf(&self) -> bool {
        &&& self.ids().len() == self.items().len()
        &&& unique_ids(self.ids())
    }

    /// The agent kept under `id`, if any.
    pub open spec fn lookup(&self, id: Seq<char>) -> Option<A> {
        if self.ids().contains(id) {
            Some(self.items()[id_position(self.ids(), id)])
        } else {
            None
        }
    }

    /// An empty registry.
    pub fn new() -> (r: Self)
        ensures
            r.wf(),
            r.ids() == Seq::<Seq<char>>::empty(),
            r.items() == Seq::<A>::empty(),
    {
        let r = Registry { ids: Vec::new(), items: Vec::new() };
        assert(r.ids() =~= Seq::<Seq<char>>::empty());
        r
    }

    /// Number of agents.
    pub fn len(&self) -> (n: usize)
        requires
            self.wf(),
        ensures
            n == self.items().len(),
    {
        self.items.len()
    }

    /// Whether there are no agents.
    pub fn is_empty(&self) -> (b: bool)
        requires
            self.wf(),
        ensures
            b == (self.items().len() == 0),
    {
        self.items.len() == 0
    }

    /// The position of the agent kept under `id`.
    pub fn index_of(&self, id: &str) -> (r: Option<usize>)
        requires
            self.wf(),
        ensures
            r is None <==> !self.ids().contains(id@),
            r matches Some(i) ==> i < self.ids().len() && self.ids()[i as int] == id@ && i
                == id_position(self.ids(), id@),
    {
        let n = self.ids.len();
        let mut i: usize = 0;
        while i < n
            invariant
                n == self.ids@.len(),
                self.wf(),
                i <= n,
                forall|j: int| 0 <= j < i ==> self.ids()[j] != id@,
            decreases n - i,
        {
            if str_equal(self.ids[i].as_str(), id) {
                proof {
                    let p = id_position(self.ids(), id@);
                    assert(self.ids()[i as int] == id@);
                    assert(0 <= p < self.ids().len() && self.ids()[p] == id@);
                }
                return Some(i);
            }
            i = i + 1;
        }
        proof {
            if self.ids().contains(id@) {
                let w = choose|w: int| 0 <= w < self.ids().len() && self.ids()[w] == id@;
                assert(self.ids()[w] == id@);
            }
        }
        None
    }

    /// The id at position `i`.
    pub fn id_at(&self, i: usize) -> (s: &str)
        requires
            self.wf(),
            i < self.ids().len(),
        ensures
            s@ == self.ids()[i as int],
    {
        self.ids[i].as_str()
    }

    /// The agent at position `i`.
    pub fn item_at(&self, i: usize) -> (a: &A)
        requires
            self.wf(),
            i < self.items().len(),
        ensures
            *a == self.items()[i as int],
    {
        &self.items[i]
    }

    /// The agent at position `i`, for changing it.
    pub fn item_at_mut(&mut self, i: usize) -> (a: &mut A)
        requires
            old(self).wf(),
            i < old(self).items().len(),
        ensures
            *a == old(self).items()[i as int],
            final(self).items() == old(self).items().update(i as int, *final(a)),
            final(self).ids() == old(self).ids(),
            final(self).wf(),
    {
        &mut self.items[i]
    }

    /// All agents, in order.
    pub fn items_slice(&self) -> (s: &[A])
        requires
            self.wf(),
        ensures
            s@ == self.items(),
    {
        self.items.as_slice()
    }

    /// All agents, in order, for changing them in place.
    pub fn items_slice_mut(&mut self) -> (s: &mut [A])
        requires
            old(self).wf(),
        ensures
            s@ == old(self).items(),
            final(self).items() == final(s)@,
            final(self).ids() == old(self).ids(),
    {
        self.items.as_mut_slice()
    }

    /// The agent kept under `id`.
    pub fn get(&self, id: &str) -> (r: Option<&A>)
        requires
            self.wf(),
        ensures
            match r {
                Some(a) => self.lookup(id@) == Some(*a),
                None => self.lookup(id@) is None,
            },
    {
        match self.index_of(id) {
            Some(i) => Some(&self.items[i]),
            None => None,
        }
    }

    /// Keep `item` under `id`. Refused, changing nothing, where an agent is
    /// already kept under that id.
    pub fn register(&mut self, id: String, item: A) -> (added: bool)
        requires
            old(self).wf(),
        ensures
            final(self).wf(),
            added == !old(self).ids().contains(id@),
            added ==> final(self).ids() == old(self).ids().push(id@) && final(self).items()
                == old(self).items().push(item),
            !added ==> final(self).ids() == old(self).ids() && final(self).items() == old(
                self,
            ).items(),
            added ==> final(self).lookup(id@) == Some(item),
            forall|other: Seq<char>|
                other != id@ ==> #[trigger] final(self).lookup(other) == old(self).lookup(other),
    {
        match self.index_of(id.as_str()) {
            Some(_) => false,
            None => {
                let ghost old_ids = self.ids();
                let ghost old_items = self.items();
                self.ids.push(id);
                self.items.push(item);
                assert(self.ids() =~= old_ids.push(id@));
                proof {
                    let ids = self.ids();
                    assert(ids[ids.len() - 1] == id@);
                    lemma_position_of(ids, (ids.len() - 1) as int);
                    assert forall|other: Seq<char>| other != id@ implies #[trigger] self.lookup(other)
                        == old(self).lookup(other) by {
                        if old_ids.contains(other) {
                            let w = choose|w: int| 0 <= w < old_ids.len() && old_ids[w] == other;
                            lemma_position_of(old_ids, w);
                            assert(ids[w] == other);
                            lemma_position_of(ids, w);
                        }
                        if ids.contains(other) {
                            let w = choose|w: int| 0 <= w < ids.len() && ids[w] == other;
                            assert(w != ids.len() - 1);
                            assert(old_ids[w] == other);
                        }
                    }
                }
                true
            },
        }
    }

    /// Remove the agent kept under `id` and give it back; the last agent
    /// takes its position.
    pub fn deregister(&mut self, id: &str) -> (r: Option<A>)
        requires
            old(self).wf(),
        ensures
            final(self).wf(),
            r is None <==> !old(self).ids().contains(id@),
            r is None ==> final(self).ids() == old(self).ids() && final(self).items() == old(
                self,
            ).items(),
            r matches Some(a) ==> {
                let p = id_position(old(self).ids(), id@);
                &&& a == old(self).items()[p]
                &&& final(self).ids() == old(self).ids().update(p, old(self).ids().last()).drop_last()
                &&& final(self).items() == old(self).items().update(p, old(self).items().last()).drop_last()
            },
            final(self).lookup(id@) is None,
            forall|other: Seq<char>|
                other != id@ ==> #[trigger] final(self).lookup(other) == old(self).lookup(other),
    {
        match self.index_of(id) {
            Some(i) => {
                let ghost old_ids = self.ids();
                let ghost old_raw = self.ids@;
                self.ids.swap_remove(i);
                let a = self.items.swap_remove(i);
                assert(self.ids() =~= old_ids.update(i as int, old_ids.last()).drop_last()) by {
                    assert(self.ids@ == old_raw.update(i as int, old_raw.last()).drop_last());
                }
                proof {
                    let ids = self.ids();
                    assert forall|x: int, y: int| 0 <= x < y < ids.len() implies ids[x] != ids[y] by {
                        if x == i {
                            assert(ids[x] == old_ids[old_ids.len() - 1]);
                            assert(ids[y] == old_ids[y]);
                        } else if y == i {
                            assert(ids[y] == old_ids[old_ids.len() - 1]);
                            assert(ids[x] == old_ids[x]);
                        } else {
                            assert(ids[x] == old_ids[x]);
                            assert(ids[y] == old_ids[y]);
                        }
                    }
                }
                proof {
                    let ids = self.ids();
                    let items = self.items();
                    let last = old_ids.len() - 1;
                    assert(!ids.contains(id@)) by {
                        if ids.contains(id@) {
                            let w = choose|w: int| 0 <= w < ids.len() && ids[w] == id@;
                            if w == i {
                                assert(ids[w] == old_ids[last]);
                                assert(old_ids[i as int] == id@);
                            } else {
                                assert(ids[w] == old_ids[w]);
                            }
                        }
                    }
                    assert forall|other: Seq<char>| other != id@ implies #[trigger] self.lookup(other)
                        == old(self).lookup(other) by {
                        if old_ids.contains(other) {
                            let w = choose|w: int| 0 <= w < old_ids.len() && old_ids[w] == other;
                            lemma_position_of(old_ids, w);
                            assert(w != i);
                            let nw = if w == last { i as int } else { w };
                            assert(ids[nw] == other);
                            lemma_position_of(ids, nw);
                        }
                        if ids.contains(other) {
                            let w = choose|w: int| 0 <= w < ids.len() && ids[w] == other;
                            if w == i {
                                assert(old_ids[last] == other);
                            } else {
                                assert(old_ids[w] == other);
                            }
                        }
                    }
                }
                Some(a)
            },
            None => None,
        }
    }

    /// Decide where a message from `from` to `to` goes: the position of the
    /// receiver, or the error naming the first of sender and receiver that
    /// is missing.
    pub fn route(&self, from: &str, to: &str) -> (r: Result<usize, SpaceError>)
        requires
            self.wf(),
        ensures
            !self.ids().contains(from@) ==> (r matches Err(e) && is_not_found(e, from@)),
            self.ids().contains(from@) && !self.ids().contains(to@) ==> (r matches Err(e)
                && is_not_found(e, to@)),
            self.ids().contains(from@) && self.ids().contains(to@) ==> r == Ok::<usize, SpaceError>(
                id_position(self.ids(), to@) as usize,
            ),
    {
        if self.index_of(from).is_none() {
            return Err(not_found(from));
        }
        match self.index_of(to) {
            Some(i) => Ok(i),
            None => Err(not_found(to)),
        }
    }

    /// The positions a broadcast from `from` reaches: every agent but the
    /// sender, in order; the error where the sender is missing.
    pub fn recipients(&self, from: &str) -> (r: Result<Vec<usize>, SpaceError>)
        requires
            self.wf(),
        ensures
            !self.ids().contains(from@) ==> (r matches Err(e) && is_not_found(e, from@)),
            self.ids().contains(from@) ==> (r matches Ok(v) && v@ == broadcast_targets(
                self.ids(),
                from@,
            )),
            self.ids().contains(from@) ==> (r matches Ok(v) && v@.len() == self.items().len() - 1),
    {
        if self.index_of(from).is_none() {
            return Err(not_found(from));
        }
        let n = self.ids.len();
        let mut out: Vec<usize> = Vec::new();
        let mut i: usize = 0;
        while i < n
            invariant
                n == self.ids@.len(),
                self.wf(),
                i <= n,
                out@ == broadcast_targets(self.ids().take(i as int), from@),
            decreases n - i,
        {
            assert(self.ids().take(i + 1).drop_last() =~= self.ids().take(i as int));
            assert(self.ids().take(i + 1).last() == self.ids()[i as int]);
            if !str_equal(self.ids[i].as_str(), from) {
                out.push(i);
            }
            i = i + 1;
        }
        assert(self.ids().take(n as int) =~= self.ids());
        proof {
            lemma_broadcast_reaches_all_others(self.ids(), from@);
        }
        Ok(out)
    }
}

/// In a sequence of unique ids, the position of an id is where it stands.
pub proof fn lemma_position_of(ids: Seq<Seq<char>>, i: int)
    requires
        unique_ids(ids),
        0 <= i < ids.len(),
    ensures
        id_position(ids, ids[i]) == i,
{
    let k = ids[i];
    assert(0 <= i < ids.len() && ids[i] == k);
    let j = id_position(ids, k);
    if j != i {
        if j < i {
            assert(ids[j] != ids[i]);
        } else {
            assert(ids[i] != ids[j]);
        }
    }
}

/// A broadcast from a registered agent reaches every other agent exactly
/// once, in registration order, and never the sender: one fewer than the
/// number of agents.
pub proof fn lemma_broadcast_reaches_all_others(ids: Seq<Seq<char>>, from: Seq<char>)
    requires
        unique_ids(ids),
        ids.contains(from),
        ids.len() <= usize::MAX,
    ensures
        broadcast_targets(ids, from).len() == ids.len() - 1,
        forall|k: int|
            0 <= k < broadcast_targets(ids, from).len() ==> {
                let t = #[trigger] broadcast_targets(ids, from)[k];
                &&& 0 <= t < ids.len()
                &&& ids[t as int] != from
            },
        forall|a: int, b: int|
            0 <= a < b < broadcast_targets(ids, from).len() ==> #[trigger] broadcast_targets(
                ids,
                from,
            )[a] < #[trigger] broadcast_targets(ids, from)[b],
        forall|i: int|
            0 <= i < ids.len() && ids[i] != from ==> #[trigger] broadcast_targets(
                ids,
                from,
            ).contains(i as usize),
{
    lemma_targets_shape(ids, from);
}

/// The shape of the broadcast targets of any sequence of ids.
proof fn lemma_targets_shape(ids: Seq<Seq<char>>, from: Seq<char>)
    requires
        ids.len() <= usize::MAX,
    ensures
        forall|k: int|
            0 <= k < broadcast_targets(ids, from).len() ==> {
                let t = #[trigger] broadcast_targets(ids, from)[k];
                &&& 0 <= t < ids.len()
                &&& ids[t as int] != from
            },
        forall|a: int, b: int|
            0 <= a < b < broadcast_targets(ids, from).len() ==> #[trigger] broadcast_targets(
                ids,
                from,
            )[a] < #[trigger] broadcast_targets(ids, from)[b],
        forall|i: int|
            0 <= i < ids.len() && ids[i] != from ==> #[trigger] broadcast_targets(
                ids,
                from,
            ).contains(i as usize),
        broadcast_targets(ids, from).len() <= ids.len(),
        unique_ids(ids) && ids.contains(from) ==> broadcast_targets(ids, from).len() == ids.len()
            - 1,
        !ids.contains(from) ==> broadcast_targets(ids, from).len() == ids.len(),
    decreases ids.len(),
{
    if ids.len() > 0 {
        let p = ids.drop_last();
        lemma_targets_shape(p, from);
        let tp = broadcast_targets(p, from);
        let t = broadcast_targets(ids, from);
        let l = ids.len() - 1;
        assert forall|j: int| 0 <= j < l implies #[trigger] ids[j] == p[j] by {}
        {
            assert forall|k: int| 0 <= k < t.len() implies {
                let x = #[trigger] t[k];
                &&& 0 <= x < ids.len()
                &&& ids[x as int] != from
            } by {
                if k < tp.len() {
                    assert(t[k] == tp[k]);
                }
            }
            assert forall|i: int| 0 <= i < ids.len() && ids[i] != from implies #[trigger] t.contains(i as usize) by {
                if i < l {
                    assert(tp.contains(i as usize));
                    let w = choose|w: int| 0 <= w < tp.len() && tp[w] == i as usize;
                    assert(t[w] == i as usize);
                } else {
                    assert(t[tp.len() as int] == i as usize);
                }
            }
        }
        assert forall|a: int, b: int| 0 <= a < b < t.len() implies #[trigger] t[a] < #[trigger] t[b] by {
            if b < tp.len() {
                assert(t[a] == tp[a] && t[b] == tp[b]);
            } else {
                assert(t[a] == tp[a]);
                assert(0 <= tp[a] < p.len());
            }
        }
        if unique_ids(ids) && ids.contains(from) {
            if ids.last() == from {
                assert(!p.contains(from)) by {
                    if p.contains(from) {
                        let w = choose|w: int| 0 <= w < p.len() && p[w] == from;
                        assert(ids[w] == ids[l]);
                    }
                }
            } else {
                let w = choose|w: int| 0 <= w < ids.len() && ids[w] == from;
                assert(p[w] == from);
                assert(unique_ids(p)) by {
                    assert forall|x: int, y: int| 0 <= x < y < p.len() implies p[x] != p[y] by {
                        assert(ids[x] != ids[y]);
                    }
                }
            }
        }
        if !ids.contains(from) {
            assert(!p.contains(from)) by {
                if p.contains(from) {
                    let w = choose|w: int| 0 <= w < p.len() && p[w] == from;
                    assert(ids[w] == from);
                }
            }
            assert(ids[l] != from);
        }
    }
}

/// The positions of the ids other than `from`, in order.
pub open spec fn broadcast_targets(ids: Seq<Seq<char>>, from: Seq<char>) -> Seq<usize>
    decreases ids.len(),
{
    if ids.len() == 0 {
        Seq::empty()
    } else {
        let prev = broadcast_targets(ids.drop_last(), from);
        if ids.last() == from {
            prev
        } else {
            prev.push((ids.len() - 1) as usize)
        }
    }
}

} // verus!

verus! {

/// A coordination space: agents kept under their ids, and the log of the
/// events the space emitted, oldest first.
pub struct Space<A, E> {
    agents: Registry<A>,
    events: Vec<E>,
}

impl<A, E> Space<A, E> {
    /// The agents and their ids.
    pub closed spec fn registry(&self) -> Registry<A> {
        self.agents
    }

    /// The events emitted so far, oldest first.
    pub closed spec fn events(&self) -> Seq<E> {
        self.events@
    }

    /// The registry keeps one agent per id.
    pub open spec fn wf(&self) -> bool {
        self.registry().wf()
    }

    /// Whether `after` is `before` with one event appended, one that
    /// `made` describes.
    pub open spec fn one_more_event(before: Seq<E>, after: Seq<E>, made: spec_fn(E) -> bool) -> bool {
        &&& after.len() == before.len() + 1
        &&& after.drop_last() == before
        &&& made(after.last())
    }

    /// An empty space.
    pub fn new() -> (s: Self)
        ensures
            s.wf(),
            s.registry().ids() == Seq::<Seq<char>>::empty(),
            s.registry().items() == Seq::<A>::empty(),
            s.events() == Seq::<E>::empty(),
    {
        Space { agents: Registry::new(), events: Vec::new() }
    }

    /// The agents and their ids, to read.
    pub fn agents(&self) -> (r: &Registry<A>)
        ensures
            *r == self.registry(),
    {
        &self.agents
    }

    /// The agent at position `i`, for changing it; ids and events stay.
    pub fn agent_at_mut(&mut self, i: usize) -> (a: &mut A)
        requires
            old(self).wf(),
            i < old(self).registry().items().len(),
        ensures
            *a == old(self).registry().items()[i as int],
            final(self).wf(),
            final(self).registry().items() == old(self).registry().items().update(i as int, *final(a)),
            final(self).registry().ids() == old(self).registry().ids(),
            final(self).events() == old(self).events(),
    {
        self.agents.item_at_mut(i)
    }

    /// All agents, in order, for changing them in place; ids and events stay.
    pub fn agents_slice_mut(&mut self) -> (s: &mut [A])
        requires
            old(self).wf(),
        ensures
            s@ == old(self).registry().items(),
            final(self).registry().items() == final(s)@,
            final(self).registry().ids() == old(self).registry().ids(),
            final(self).events() == old(self).events(),
    {
        self.agents.items_slice_mut()
    }

    /// The events emitted so far, oldest first.
    pub fn event_log(&self) -> (v: &Vec<E>)
        ensures
            v@ == self.events(),
    {
        &self.events
    }

    /// Keep `item` under `id` and log the event `make_event` makes; refused,
    /// changing nothing and logging nothing, where an agent is already kept
    /// under that id.
    pub fn register<F: FnOnce() -> E>(&mut self, id: String, item: A, make_event: F) -> (added: bool)
        requires
            old(self).wf(),
            make_event.requires(()),
        ensures
            final(self).wf(),
            added == !old(self).registry().ids().contains(id@),
            added ==> final(self).registry().ids() == old(self).registry().ids().push(id@)
                && final(self).registry().items() == old(self).registry().items().push(item)
                && Self::one_more_event(
                old(self).events(),
                final(self).events(),
                |e: E| make_event.ensures((), e),
            ),
            !added ==> final(self).registry().ids() == old(self).registry().ids()
                && final(self).registry().items() == old(self).registry().items()
                && final(self).events() == old(self).events(),
    {
        let ghost events0 = self.events@;
        let added = self.agents.register(id, item);
        if added {
            let e = make_event();
            self.events.push(e);
            assert(self.events@.drop_last() =~= events0);
        }
        added
    }

    /// Remove the agent kept under `id`, give it back, and log the event
    /// `make_event` makes; where no agent is kept under `id`, change nothing
    /// and log nothing.
    pub fn deregister<F: FnOnce() -> E>(&mut self, id: &str, make_event: F) -> (r: Option<A>)
        requires
            old(self).wf(),
            make_event.requires(()),
        ensures
            final(self).wf(),
            r is None <==> !old(self).registry().ids().contains(id@),
            r is None ==> final(self).registry().ids() == old(self).registry().ids()
                && final(self).registry().items() == old(self).registry().items()
                && final(self).events() == old(self).events(),
            r matches Some(a) ==> {
                let p = id_position(old(self).registry().ids(), id@);
                let ids0 = old(self).registry().ids();
                let items0 = old(self).registry().items();
                &&& a == items0[p]
                &&& final(self).registry().ids() == ids0.update(p, ids0.last()).drop_last()
                &&& final(self).registry().items() == items0.update(p, items0.last()).drop_last()
                &&& Self::one_more_event(
                    old(self).events(),
                    final(self).events(),
                    |e: E| make_event.ensures((), e),
                )
            },
    {
        let ghost events0 = self.events@;
        let r = self.agents.deregister(id);
        if r.is_some() {
            let e = make_event();
            self.events.push(e);
            assert(self.events@.drop_last() =~= events0);
        }
        r
    }

    /// Route a message from `from` to `to`: the receiver's position, with the
    /// event `make_event` makes logged; or the error naming the first of
    /// sender and receiver that is missing, changing nothing.
    pub fn send<F: FnOnce() -> E>(&mut self, from: &str, to: &str, make_event: F) -> (r: Result<usize, SpaceError>)
        requires
            old(self).wf(),
            make_event.requires(()),
        ensures
            final(self).wf(),
            final(self).registry() == old(self).registry(),
            !old(self).registry().ids().contains(from@) ==> (r matches Err(e) && is_not_found(e, from@)),
            old(self).registry().ids().contains(from@) && !old(self).registry().ids().contains(to@)
                ==> (r matches Err(e) && is_not_found(e, to@)),
            old(self).registry().ids().contains(from@) && old(self).registry().ids().contains(to@)
                ==> r == Ok::<usize, SpaceError>(id_position(old(self).registry().ids(), to@) as usize),
            r is Ok ==> Self::one_more_event(
                old(self).events(),
                final(self).events(),
                |e: E| make_event.ensures((), e),
            ),
            r is Err ==> final(self).events() == old(self).events(),
    {
        let r = self.agents.route(from, to);
        if r.is_ok() {
            let ghost events0 = self.events@;
            let e = make_event();
            self.events.push(e);
            assert(self.events@.drop_last() =~= events0);
        }
        r
    }

    /// The positions a broadcast from `from` reaches (every agent but the
    /// sender, in order), with the event that `make_event` makes from their
    /// number logged; or the error where the sender is missing, changing
    /// nothing.
    pub fn broadcast<F: FnOnce(usize) -> E>(&mut self, from: &str, make_event: F) -> (r: Result<Vec<usize>, SpaceError>)
        requires
            old(self).wf(),
            forall|n: usize| make_event.requires((n,)),
        ensures
            final(self).wf(),
            final(self).registry() == old(self).registry(),
            !old(self).registry().ids().contains(from@) ==> (r matches Err(e) && is_not_found(e, from@))
                && final(self).events() == old(self).events(),
            old(self).registry().ids().contains(from@) ==> (r matches Ok(v) && v@ == broadcast_targets(
                old(self).registry().ids(),
                from@,
            ) && v@.len() == old(self).registry().items().len() - 1 && Self::one_more_event(
                old(self).events(),
                final(self).events(),
                |e: E| make_event.ensures((v@.len() as usize,), e),
            )),
    {
        let r = self.agents.recipients(from);
        match r {
            Ok(v) => {
                let ghost events0 = self.events@;
                let e = make_event(v.len());
                self.events.push(e);
                assert(self.events@.drop_last() =~= events0);
                Ok(v)
            },
            Err(e) => Err(e),
        }
    }
}

} // verus!
