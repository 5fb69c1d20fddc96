//! The cortical bus: the central event spine. Events wait in a bounded
//! queue and leave it most important first; per-trace rate limiting decides
//! which events are worth rendering.
use vstd::prelude::*;
use crate::text::str_equal;

verus! {

/// Queue size of a bus made with `EventBus::new`.
pub const DEFAULT_BUS_CAPACITY: usize = 1000;

/// How many events of one trace are rendered.
pub const MAX_RENDERS_PER_TRACE: usize = 5;

/// Bus statistics.
#[derive(Debug, Clone, Copy, PartialEq, Eq, Structural)]
pub struct BusStats {
    pub published: u64,
    pub dropped: u64,
    pub dispatched: u64,
    pub pending: u64,
    pub subscribers: usize,
}

impl Default for BusStats {
    /// All counts zero.
    fn default() -> (s: BusStats)
        ensures
            s == (BusStats { published: 0, dropped: 0, dispatched: 0, pending: 0, subscribers: 0 }),
    {
        BusStats { published: 0, dropped: 0, dispatched: 0, pending: 0, subscribers: 0 }
    }
}

/// Whether an event with key `(urgency, time)` leaves the queue before one
/// with key `(urgency2, time2)`: lower urgency value first (the urgency is
/// the negated importance), then earlier time.
pub open spec fn key_before(urgency: i64, time: u64, urgency2: i64, time2: u64) -> bool {
    urgency < urgency2 || (urgency == urgency2 && time < time2)
}

/// Whether `i` is the first position of an entry that no other entry of `s`
/// precedes: the entry that leaves the queue next.
pub open spec fn is_next<T>(s: Seq<(i64, u64, T)>, i: int) -> bool {
    &&& 0 <= i < s.len()
    &&& forall|j: int|
        0 <= j < s.len() ==> !key_before(#[trigger] s[j].0, s[j].1, s[i].0, s[i].1)
    &&& forall|j: int| 0 <= j < i ==> key_before(s[i].0, s[i].1, #[trigger] s[j].0, s[j].1)
}

/// The position of the entry that leaves the queue next.
pub open spec fn next_index<T>(s: Seq<(i64, u64, T)>) -> int {
    choose|i: int| is_next(s, i)
}

/// The events that leave a queue holding `s` when up to `k` are taken, in
/// the order they leave, and what stays.
pub open spec fn drain<T>(s: Seq<(i64, u64, T)>, k: nat) -> (Seq<T>, Seq<(i64, u64, T)>)
    decreases k,
{
    if k == 0 || s.len() == 0 {
        (Seq::empty(), s)
    } else {
        let i = next_index(s);
        let rest = drain(s.remove(i), (k - 1) as nat);
        (seq![s[i].2] + rest.0, rest.1)
    }
}

/// How often the trace `id` was checked, per the counters `counts`.
pub open spec fn count_of(counts: Seq<(Seq<char>, nat)>, id: Seq<char>) -> nat
    decreases counts.len(),
{
    if counts.len() == 0 {
        0
    } else if counts.last().0 == id {
        counts.last().1
    } else {
        count_of(counts.drop_last(), id)
    }
}

/// A call made on a bus, with what it answered: a subscription, a publish
/// (accepted or not), a dispatch, or a render check of a trace.
pub enum BusCall {
    Subscribe,
    Publish(bool),
    Dispatch,
    Render(Seq<char>, bool),
}

/// How many publish calls `calls` holds.
pub open spec fn publish_calls(calls: Seq<BusCall>) -> nat
    decreases calls.len(),
{
    if calls.len() == 0 {
        0
    } else {
        publish_calls(calls.drop_last()) + if calls.last() is Publish {
            1nat
        } else {
            0nat
        }
    }
}

/// How many subscribe calls `calls` holds.
pub open spec fn subscribe_calls(calls: Seq<BusCall>) -> nat
    decreases calls.len(),
{
    if calls.len() == 0 {
        0
    } else {
        subscribe_calls(calls.drop_last()) + if calls.last() is Subscribe {
            1nat
        } else {
            0nat
        }
    }
}

/// How many render checks of the trace `trace` `calls` holds.
pub open spec fn render_calls(calls: Seq<BusCall>, trace: Seq<char>) -> nat
    decreases calls.len(),
{
    if calls.len() == 0 {
        0
    } else {
        render_calls(calls.drop_last(), trace) + if calls.last() matches BusCall::Render(t, _)
            && t == trace {
            1nat
        } else {
            0nat
        }
    }
}

/// A bounded priority queue of events with publication statistics, the
/// subscribers that dispatched events are delivered to, and a per-trace
/// render limit.
pub struct EventBus<T, S> {
    queue: Vec<(i64, u64, T)>,
    subscribers: Vec<S>,
    max_queue_size: usize,
    trace_counts: Vec<(String, usize)>,
    max_per_trace: usize,
    events_published: u64,
    events_dropped: u64,
    events_dispatched: u64,
}

impl<T, S> EventBus<T, S> {
    /// The waiting events with their keys, in arrival order.
    pub closed spec fn queue(&self) -> Seq<(i64, u64, T)> {
        self.queue@
    }

    /// The subscribers, in the order they subscribed.
    pub closed spec fn subscribers(&self) -> Seq<S> {
        self.subscribers@
    }

    /// The most events that wait at once.
    pub closed spec fn capacity(&self) -> nat {
        self.max_queue_size as nat
    }

    /// How many events of one trace are rendered.
    pub closed spec fn render_limit(&self) -> nat {
        self.max_per_trace as nat
    }

    /// The per-trace counters, in the order the traces were first seen.
    pub closed spec fn trace_counts(&self) -> Seq<(Seq<char>, nat)> {
        self.trace_counts@.map_values(|e: (String, usize)| (e.0@, e.1 as nat))
    }

    /// Events accepted so far.
    pub closed spec fn published(&self) -> nat {
        self.events_published as nat
    }

    /// Events refused so far because the queue was full.
    pub closed spec fn dropped(&self) -> nat {
        self.events_dropped as nat
    }

    /// Events dispatched so far.
    pub closed spec fn dispatched(&self) -> nat {
        self.events_dispatched as nat
    }

    /// How often the trace `id` was checked.
    pub open spec fn trace_count(&self, id: Seq<char>) -> nat {
        count_of(self.trace_counts(), id)
    }

    /// The bus's own consistency: the queue within its capacity, every
    /// accepted event either waiting or dispatched, and no trace counted twice.
    pub closed spec fn wf(&self) -> bool {
        &&& self.queue@.len() <= self.max_queue_size
        &&& self.events_published == self.events_dispatched + self.queue@.len()
        &&& forall|i: int, j: int|
            0 <= i < j < self.trace_counts@.len() ==> self.trace_counts@[i].0@
                != self.trace_counts@[j].0@
    }

    /// A bus whose queue holds up to `DEFAULT_BUS_CAPACITY` events.
    pub fn new() -> (b: Self)
        ensures
            b.wf(),
            b.queue() == Seq::<(i64, u64, T)>::empty(),
            b.subscribers() == Seq::<S>::empty(),
            b.capacity() == DEFAULT_BUS_CAPACITY,
            b.render_limit() == MAX_RENDERS_PER_TRACE,
            b.trace_counts() == Seq::<(Seq<char>, nat)>::empty(),
            b.published() == 0 && b.dropped() == 0 && b.dispatched() == 0,
    {
        Self::with_capacity(DEFAULT_BUS_CAPACITY)
    }

    /// A bus whose queue holds up to `max_queue_size` events.
    pub fn with_capacity(max_queue_size: usize) -> (b: Self)
        ensures
            b.wf(),
            b.queue() == Seq::<(i64, u64, T)>::empty(),
            b.subscribers() == Seq::<S>::empty(),
            b.capacity() == max_queue_size,
            b.render_limit() == MAX_RENDERS_PER_TRACE,
            b.trace_counts() == Seq::<(Seq<char>, nat)>::empty(),
            b.published() == 0 && b.dropped() == 0 && b.dispatched() == 0,
    {
        let b = EventBus {
            queue: Vec::new(),
            subscribers: Vec::new(),
            max_queue_size,
            trace_counts: Vec::new(),
            max_per_trace: MAX_RENDERS_PER_TRACE,
            events_published: 0,
            events_dropped: 0,
            events_dispatched: 0,
        };
        assert(b.trace_counts() =~= Seq::<(Seq<char>, nat)>::empty());
        b
    }

    /// Publish an event with key `(urgency, time)`. Refused, and counted as
    /// dropped, where the queue is full (backpressure).
    pub fn publish(&mut self, urgency: i64, time: u64, event: T) -> (accepted: bool)
        requires
            old(self).wf(),
            old(self).published() < u64::MAX,
            old(self).dropped() < u64::MAX,
        ensures
            final(self).wf(),
            accepted == (old(self).queue().len() < old(self).capacity()),
            accepted ==> final(self).queue() == old(self).queue().push((urgency, time, event))
                && final(self).published() == old(self).published() + 1 && final(self).dropped()
                == old(self).dropped(),
            !accepted ==> final(self).queue() == old(self).queue() && final(self).published()
                == old(self).published() && final(self).dropped() == old(self).dropped() + 1,
            final(self).dispatched() == old(self).dispatched(),
            final(self).capacity() == old(self).capacity(),
            final(self).render_limit() == old(self).render_limit(),
            final(self).subscribers() == old(self).subscribers(),
            final(self).trace_counts() == old(self).trace_counts(),
            bus_step(*old(self), *final(self), BusCall::Publish(accepted)),
    {
        if self.queue.len() >= self.max_queue_size {
            self.events_dropped = self.events_dropped + 1;
            return false;
        }
        self.events_published = self.events_published + 1;
        self.queue.push((urgency, time, event));
        true
    }

    /// Position of the event that leaves the queue next.
    fn find_next(&self) -> (r: Option<usize>)
        ensures
            r is None <==> self.queue().len() == 0,
            r matches Some(i) ==> is_next(self.queue(), i as int),
    {
        let n = self.queue.len();
        if n == 0 {
            return None;
        }
        let mut best: usize = 0;
        let mut i: usize = 1;
        while i < n
            invariant
                n == self.queue@.len(),
                1 <= i <= n,
                best < i,
                forall|j: int|
                    0 <= j < i ==> !key_before(
                        #[trigger] self.queue@[j].0,
                        self.queue@[j].1,
                        self.queue@[best as int].0,
                        self.queue@[best as int].1,
                    ),
                forall|j: int|
                    0 <= j < best ==> key_before(
                        self.queue@[best as int].0,
                        self.queue@[best as int].1,
                        #[trigger] self.queue@[j].0,
                        self.queue@[j].1,
                    ),
            decreases n - i,
        {
            let (u, t, _) = &self.queue[i];
            let (bu, bt, _) = &self.queue[best];
            if *u < *bu || (*u == *bu && *t < *bt) {
                best = i;
            }
            i = i + 1;
        }
        Some(best)
    }

    /// Take up to `max` events out of the queue, in the order they leave it,
    /// and count them as dispatched.
    pub fn dispatch_some(&mut self, max: usize) -> (out: Vec<T>)
        requires
            old(self).wf(),
        ensures
            final(self).wf(),
            out@ == drain(old(self).queue(), max as nat).0,
            final(self).queue() == drain(old(self).queue(), max as nat).1,
            final(self).dispatched() == old(self).dispatched() + out@.len(),
            final(self).published() == old(self).published(),
            final(self).dropped() == old(self).dropped(),
            final(self).capacity() == old(self).capacity(),
            final(self).render_limit() == old(self).render_limit(),
            final(self).subscribers() == old(self).subscribers(),
            final(self).trace_counts() == old(self).trace_counts(),
            bus_step(*old(self), *final(self), BusCall::Dispatch),
    {
        let ghost orig = self.queue();
        let mut out: Vec<T> = Vec::new();
        let mut taken: usize = 0;
        while taken < max && !self.is_empty()
            invariant
                taken <= max,
                self.queue@.len() <= self.max_queue_size,
                forall|i: int, j: int|
                    0 <= i < j < self.trace_counts@.len() ==> self.trace_counts@[i].0@
                        != self.trace_counts@[j].0@,
                self.queue().len() + taken == orig.len(),
                out@.len() == taken,
                drain(orig, max as nat).0 == out@ + drain(self.queue(), (max - taken) as nat).0,
                drain(orig, max as nat).1 == drain(self.queue(), (max - taken) as nat).1,
                self.dispatched() == old(self).dispatched(),
                self.published() == self.dispatched() + orig.len(),
                self.published() == old(self).published(),
                self.dropped() == old(self).dropped(),
                self.capacity() == old(self).capacity(),
                self.render_limit() == old(self).render_limit(),
                self.trace_counts() == old(self).trace_counts(),
                self.subscribers() == old(self).subscribers(),
            decreases max - taken,
        {
            let i = self.find_next().unwrap();
            proof {
                assert(is_next(self.queue(), next_index(self.queue())));
                lemma_next_unique(self.queue(), i as int, next_index(self.queue()));
            }
            let ghost cur = self.queue();
            let (_, _, ev) = self.queue.remove(i);
            proof {
                let d = drain(self.queue(), (max - taken - 1) as nat);
                assert(drain(cur, (max - taken) as nat).0 == seq![ev] + d.0);
                assert(out@.push(ev) + d.0 =~= out@ + (seq![ev] + d.0));
            }
            out.push(ev);
            taken = taken + 1;
        }
        proof {
            assert(drain(self.queue(), (max - taken) as nat).0 == Seq::<T>::empty());
            assert(out@ + Seq::<T>::empty() =~= out@);
        }
        self.events_dispatched = self.events_dispatched + taken as u64;
        out
    }

    /// Take every event out of the queue, in the order they leave it, and
    /// count them as dispatched.
    pub fn dispatch_all(&mut self) -> (out: Vec<T>)
        requires
            old(self).wf(),
        ensures
            final(self).wf(),
            out@ == drain(old(self).queue(), old(self).queue().len()).0,
            final(self).queue() == Seq::<(i64, u64, T)>::empty(),
            final(self).dispatched() == old(self).dispatched() + out@.len(),
            final(self).published() == old(self).published(),
            final(self).dropped() == old(self).dropped(),
            final(self).capacity() == old(self).capacity(),
            final(self).render_limit() == old(self).render_limit(),
            final(self).subscribers() == old(self).subscribers(),
            final(self).trace_counts() == old(self).trace_counts(),
            bus_step(*old(self), *final(self), BusCall::Dispatch),
    {
        let n = self.queue.len();
        proof {
            lemma_drain_len(self.queue(), n as nat);
        }
        self.dispatch_some(n)
    }

    /// Number of events waiting.
    pub fn pending(&self) -> (n: usize)
        ensures
            n == self.queue().len(),
    {
        self.queue.len()
    }

    /// Whether no event waits.
    pub fn is_empty(&self) -> (b: bool)
        ensures
            b == (self.queue().len() == 0),
    {
        self.queue.len() == 0
    }

    /// Bus statistics.
    pub fn stats(&self) -> (s: BusStats)
        ensures
            s.published == self.published(),
            s.dropped == self.dropped(),
            s.dispatched == self.dispatched(),
            s.pending == self.queue().len(),
            s.subscribers == self.subscribers().len(),
    {
        BusStats {
            published: self.events_published,
            dropped: self.events_dropped,
            dispatched: self.events_dispatched,
            pending: self.queue.len() as u64,
            subscribers: self.subscribers.len(),
        }
    }

    /// Register a subscriber; dispatched events are delivered to every
    /// subscriber, in the order they subscribed.
    pub fn subscribe(&mut self, subscriber: S)
        requires
            old(self).wf(),
        ensures
            final(self).wf(),
            final(self).subscribers() == old(self).subscribers().push(subscriber),
            bus_step(*old(self), *final(self), BusCall::Subscribe),
            final(self).queue() == old(self).queue(),
            final(self).published() == old(self).published(),
            final(self).dropped() == old(self).dropped(),
            final(self).dispatched() == old(self).dispatched(),
            final(self).capacity() == old(self).capacity(),
            final(self).render_limit() == old(self).render_limit(),
            final(self).trace_counts() == old(self).trace_counts(),
    {
        self.subscribers.push(subscriber);
    }

    /// The subscribers, in the order they subscribed.
    pub fn subscriber_list(&self) -> (v: &Vec<S>)
        ensures
            v@ == self.subscribers(),
    {
        &self.subscribers
    }

    /// How often the trace `trace_id` was checked.
    pub fn checks_of(&self, trace_id: &str) -> (n: usize)
        requires
            self.wf(),
        ensures
            n == self.trace_count(trace_id@),
    {
        proof {
            self.lemma_counts_unique();
        }
        match self.find_trace(trace_id) {
            Some(i) => {
                proof {
                    lemma_count_at(self.trace_counts(), i as int);
                }
                self.trace_counts[i].1
            },
            None => {
                proof {
                    lemma_count_absent(self.trace_counts(), trace_id@);
                }
                0
            },
        }
    }

    /// Count one more check of the trace `trace_id`, and say whether the event
    /// is still worth rendering: true for the first checks of a trace, up to
    /// the render limit.
    pub fn should_render(&mut self, trace_id: &str) -> (render: bool)
        requires
            old(self).wf(),
            old(self).trace_count(trace_id@) < usize::MAX,
        ensures
            final(self).wf(),
            final(self).trace_count(trace_id@) == old(self).trace_count(trace_id@) + 1,
            forall|other: Seq<char>|
                other != trace_id@ ==> final(self).trace_count(other) == old(self).trace_count(
                    other,
                ),
            render == (final(self).trace_count(trace_id@) <= final(self).render_limit()),
            final(self).queue() == old(self).queue(),
            final(self).published() == old(self).published(),
            final(self).dropped() == old(self).dropped(),
            final(self).dispatched() == old(self).dispatched(),
            final(self).capacity() == old(self).capacity(),
            final(self).render_limit() == old(self).render_limit(),
            final(self).subscribers() == old(self).subscribers(),
            bus_step(*old(self), *final(self), BusCall::Render(trace_id@, render)),
    {
        let ghost old_counts = self.trace_counts();
        proof {
            self.lemma_counts_unique();
        }
        match self.find_trace(trace_id) {
            Some(i) => {
                proof {
                    lemma_count_at(old_counts, i as int);
                }
                let c = self.trace_counts[i].1 + 1;
                self.trace_counts[i].1 = c;
                proof {
                    assert(self.trace_counts() =~= old_counts.update(i as int, (trace_id@, c as nat)));
                    lemma_count_update(old_counts, i as int, c as nat);
                    assert forall|a: int, b: int|
                        0 <= a < b < self.trace_counts@.len() implies self.trace_counts@[a].0@
                        != self.trace_counts@[b].0@ by {
                        assert(self.trace_counts()[a].0 == old_counts[a].0);
                        assert(self.trace_counts()[b].0 == old_counts[b].0);
                    }
                }
                c <= self.max_per_trace
            },
            None => {
                proof {
                    lemma_count_absent(old_counts, trace_id@);
                }
                self.trace_counts.push((String::from_str(trace_id), 1));
                proof {
                    assert(self.trace_counts() =~= old_counts.push((trace_id@, 1nat)));
                    lemma_count_push(old_counts, trace_id@);
                    assert forall|a: int, b: int|
                        0 <= a < b < self.trace_counts@.len() implies self.trace_counts@[a].0@
                        != self.trace_counts@[b].0@ by {
                        assert(self.trace_counts()[a].0 == self.trace_counts@[a].0@);
                        assert(self.trace_counts()[b].0 == self.trace_counts@[b].0@);
                        if b < old_counts.len() {
                            assert(self.trace_counts()[a].0 == old_counts[a].0);
                            assert(self.trace_counts()[b].0 == old_counts[b].0);
                        } else {
                            assert(old_counts[a].0 != trace_id@);
                        }
                    }
                }
                1 <= self.max_per_trace
            },
        }
    }

    /// No trace is counted twice.
    proof fn lemma_counts_unique(&self)
        requires
            self.wf(),
        ensures
            forall|a: int, b: int|
                0 <= a < b < self.trace_counts().len() ==> self.trace_counts()[a].0
                    != self.trace_counts()[b].0,
    {
        assert forall|a: int, b: int|
            0 <= a < b < self.trace_counts().len() implies self.trace_counts()[a].0
            != self.trace_counts()[b].0 by {
            assert(self.trace_counts()[a].0 == self.trace_counts@[a].0@);
            assert(self.trace_counts()[b].0 == self.trace_counts@[b].0@);
        }
    }

    /// Every accepted event is either waiting or dispatched, and the queue
    /// never holds more than its capacity.
    pub proof fn lemma_events_accounted(&self)
        requires
            self.wf(),
        ensures
            self.published() == self.dispatched() + self.queue().len(),
            self.queue().len() <= self.capacity(),
    {
    }

    /// Position of the counter of the trace `trace_id`.
    fn find_trace(&self, trace_id: &str) -> (r: Option<usize>)
        ensures
            r matches Some(i) ==> i < self.trace_counts().len() && self.trace_counts()[i as int].0
                == trace_id@,
            r is None ==> forall|j: int|
                0 <= j < self.trace_counts().len() ==> self.trace_counts()[j].0 != trace_id@,
    {
        let n = self.trace_counts.len();
        let mut i: usize = 0;
        while i < n
            invariant
                n == self.trace_counts@.len(),
                i <= n,
                forall|j: int| 0 <= j < i ==> self.trace_counts()[j].0 != trace_id@,
            decreases n - i,
        {
            if str_equal(self.trace_counts[i].0.as_str(), trace_id) {
                return Some(i);
            }
            i = i + 1;
        }
        None
    }

}

/// There is one position of the event that leaves next.
proof fn lemma_next_unique<T>(s: Seq<(i64, u64, T)>, i: int, k: int)
    requires
        is_next(s, i),
        is_next(s, k),
    ensures
        i == k,
{
    if i < k {
        assert(key_before(s[k].0, s[k].1, s[i].0, s[i].1));
    } else if k < i {
        assert(key_before(s[i].0, s[i].1, s[k].0, s[k].1));
    }
}

/// Some entry of a non-empty queue leaves next.
pub proof fn lemma_next_exists<T>(s: Seq<(i64, u64, T)>)
    requires
        s.len() > 0,
    ensures
        is_next(s, next_index(s)),
    decreases s.len(),
{
    if s.len() == 1 {
        assert(is_next(s, 0));
    } else {
        let p = s.drop_last();
        lemma_next_exists(p);
        let i = next_index(p);
        let l = s.len() - 1;
        if key_before(s[l].0, s[l].1, s[i].0, s[i].1) {
            assert(is_next(s, l)) by {
                assert forall|j: int| 0 <= j < l implies key_before(s[l].0, s[l].1, #[trigger] s[j].0, s[j].1) by {
                    assert(p[j] == s[j]);
                    assert(!key_before(p[j].0, p[j].1, p[i].0, p[i].1));
                }
            }
        } else {
            assert(is_next(s, i)) by {
                assert forall|j: int| 0 <= j < s.len() implies !key_before(#[trigger] s[j].0, s[j].1, s[i].0, s[i].1) by {
                    if j < l {
                        assert(p[j] == s[j]);
                    }
                }
                assert forall|j: int| 0 <= j < i implies key_before(s[i].0, s[i].1, #[trigger] s[j].0, s[j].1) by {
                    assert(p[j] == s[j]);
                }
            }
        }
    }
}

/// The first event dispatched from a non-empty queue is one that no waiting
/// event precedes: the lowest urgency value (highest importance) first, then
/// the earliest time, and among equal keys the one that arrived first.
pub proof fn lemma_dispatch_most_urgent_first<T>(s: Seq<(i64, u64, T)>, k: nat)
    requires
        s.len() > 0,
        k > 0,
    ensures
        drain(s, k).0.len() > 0,
        drain(s, k).0[0] == s[next_index(s)].2,
        forall|j: int|
            0 <= j < s.len() ==> !key_before(
                #[trigger] s[j].0,
                s[j].1,
                s[next_index(s)].0,
                s[next_index(s)].1,
            ),
        0 <= next_index(s) < s.len(),
        forall|j: int|
            0 <= j < s.len() ==> s[next_index(s)].0 < #[trigger] s[j].0 || (s[next_index(s)].0 == s[j].0
                && s[next_index(s)].1 <= s[j].1),
        forall|j: int|
            0 <= j < next_index(s) ==> s[next_index(s)].0 < #[trigger] s[j].0 || (s[next_index(s)].0
                == s[j].0 && s[next_index(s)].1 < s[j].1),
{
    lemma_next_exists(s);
}

/// Draining as many events as wait takes them all.
pub proof fn lemma_drain_len<T>(s: Seq<(i64, u64, T)>, k: nat)
    ensures
        drain(s, k).0.len() + drain(s, k).1.len() == s.len(),
        k >= s.len() ==> drain(s, k).1.len() == 0 && drain(s, k).0.len() == s.len(),
    decreases k,
{
    if k == 0 || s.len() == 0 {
    } else {
        let i = next_index(s);
        lemma_next_exists(s);
        lemma_drain_len(s.remove(i), (k - 1) as nat);
    }
}

/// The count stored at position `i` is the count of its trace, where no trace
/// is counted twice.
proof fn lemma_count_at(counts: Seq<(Seq<char>, nat)>, i: int)
    requires
        0 <= i < counts.len(),
        forall|a: int, b: int| 0 <= a < b < counts.len() ==> counts[a].0 != counts[b].0,
    ensures
        count_of(counts, counts[i].0) == counts[i].1,
    decreases counts.len(),
{
    if i < counts.len() - 1 {
        let p = counts.drop_last();
        assert(p[i] == counts[i]);
        lemma_count_at(p, i);
    }
}

/// A trace that no counter names has count 0.
proof fn lemma_count_absent(counts: Seq<(Seq<char>, nat)>, id: Seq<char>)
    requires
        forall|j: int| 0 <= j < counts.len() ==> counts[j].0 != id,
    ensures
        count_of(counts, id) == 0,
    decreases counts.len(),
{
    if counts.len() > 0 {
        let p = counts.drop_last();
        assert forall|j: int| 0 <= j < p.len() implies p[j].0 != id by {
            assert(p[j] == counts[j]);
        }
        lemma_count_absent(p, id);
    }
}

/// Setting the count at position `i` changes that trace's count and no other.
proof fn lemma_count_update(counts: Seq<(Seq<char>, nat)>, i: int, c: nat)
    requires
        0 <= i < counts.len(),
        forall|a: int, b: int| 0 <= a < b < counts.len() ==> counts[a].0 != counts[b].0,
    ensures
        count_of(counts.update(i, (counts[i].0, c)), counts[i].0) == c,
        forall|other: Seq<char>|
            other != counts[i].0 ==> count_of(counts.update(i, (counts[i].0, c)), other)
                == count_of(counts, other),
    decreases counts.len(),
{
    let u = counts.update(i, (counts[i].0, c));
    if i == counts.len() - 1 {
        assert(u.drop_last() =~= counts.drop_last());
        assert(u.last() == (counts[i].0, c));
        assert forall|other: Seq<char>| other != counts[i].0 implies count_of(u, other) == count_of(
            counts,
            other,
        ) by {
            assert(count_of(u, other) == count_of(u.drop_last(), other));
        }
    } else {
        let p = counts.drop_last();
        assert(u.drop_last() =~= p.update(i, (p[i].0, c)));
        assert(u.last() == counts.last());
        assert(p[i] == counts[i]);
        assert(counts.last().0 != counts[i].0);
        assert forall|a: int, b: int| 0 <= a < b < p.len() implies p[a].0 != p[b].0 by {
            assert(p[a] == counts[a] && p[b] == counts[b]);
        }
        lemma_count_update(p, i, c);
        assert forall|other: Seq<char>| other != counts[i].0 implies count_of(u, other) == count_of(
            counts,
            other,
        ) by {
            if counts.last().0 != other {
                assert(count_of(u, other) == count_of(u.drop_last(), other));
                assert(count_of(p.update(i, (p[i].0, c)), other) == count_of(p, other));
            }
        }
    }
}

/// Appending a counter for a new trace sets its count and no other.
proof fn lemma_count_push(counts: Seq<(Seq<char>, nat)>, id: Seq<char>)
    ensures
        count_of(counts.push((id, 1nat)), id) == 1,
        forall|other: Seq<char>|
            other != id ==> count_of(counts.push((id, 1nat)), other) == count_of(counts, other),
{
    assert(counts.push((id, 1nat)).drop_last() =~= counts);
}

} // verus!

verus! {

/// A bus as `new` or `with_capacity` makes it.
pub open spec fn fresh_bus<T, S>(b: EventBus<T, S>) -> bool {
    &&& b.queue() == Seq::<(i64, u64, T)>::empty()
    &&& b.subscribers() == Seq::<S>::empty()
    &&& b.render_limit() == MAX_RENDERS_PER_TRACE
    &&& b.trace_counts() == Seq::<(Seq<char>, nat)>::empty()
    &&& b.published() == 0 && b.dropped() == 0 && b.dispatched() == 0
}

/// What one call does to the bus's counters, as the call's contract gives it:
/// `b0` before the call, `b1` after.
pub open spec fn bus_step<T, S>(b0: EventBus<T, S>, b1: EventBus<T, S>, call: BusCall) -> bool {
    &&& b1.capacity() == b0.capacity()
    &&& b1.render_limit() == b0.render_limit()
    &&& match call {
        BusCall::Subscribe => {
            &&& b1.subscribers().len() == b0.subscribers().len() + 1
            &&& b1.published() == b0.published()
            &&& b1.dropped() == b0.dropped()
            &&& b1.trace_counts() == b0.trace_counts()
        },
        BusCall::Publish(accepted) => {
            &&& accepted == (b0.queue().len() < b0.capacity())
            &&& b1.published() == b0.published() + if accepted {
                1nat
            } else {
                0nat
            }
            &&& b1.dropped() == b0.dropped() + if accepted {
                0nat
            } else {
                1nat
            }
            &&& b1.subscribers() == b0.subscribers()
            &&& b1.trace_counts() == b0.trace_counts()
        },
        BusCall::Dispatch => {
            &&& b1.published() == b0.published()
            &&& b1.dropped() == b0.dropped()
            &&& b1.subscribers() == b0.subscribers()
            &&& b1.trace_counts() == b0.trace_counts()
        },
        BusCall::Render(trace, render) => {
            &&& b1.trace_count(trace) == b0.trace_count(trace) + 1
            &&& forall|t: Seq<char>| t != trace ==> #[trigger] b1.trace_count(t) == b0.trace_count(t)
            &&& render == (b1.trace_count(trace) <= b1.render_limit())
            &&& b1.published() == b0.published()
            &&& b1.dropped() == b0.dropped()
            &&& b1.subscribers() == b0.subscribers()
        },
    }
}

/// Over any sequence of calls on a fresh bus (`states[i]` before call `i`,
/// `states[i + 1]` after it): every publish is either accepted or dropped,
/// every accepted event waits or has been dispatched and the queue stays
/// within the capacity the bus was made with, each subscribe adds one
/// subscriber, each trace has been counted once per render check of it, and
/// a render check answers yes exactly while its trace has been checked at
/// most `MAX_RENDERS_PER_TRACE` times, that check included.
pub proof fn lemma_bus_history<T, S>(states: Seq<EventBus<T, S>>, calls: Seq<BusCall>)
    requires
        states.len() == calls.len() + 1,
        fresh_bus(states[0]),
        forall|i: int| 0 <= i < states.len() ==> #[trigger] states[i].wf(),
        forall|i: int| 0 <= i < calls.len() ==> bus_step(states[i], states[i + 1], #[trigger] calls[i]),
    ensures
        states.last().published() + states.last().dropped() == publish_calls(calls),
        states.last().published() == states.last().dispatched() + states.last().queue().len(),
        states.last().queue().len() <= states.last().capacity(),
        states.last().capacity() == states[0].capacity(),
        states.last().subscribers().len() == subscribe_calls(calls),
        states.last().render_limit() == MAX_RENDERS_PER_TRACE,
        forall|t: Seq<char>| #[trigger] states.last().trace_count(t) == render_calls(calls, t),
        forall|i: int|
            0 <= i < calls.len() ==> (#[trigger] calls[i] matches BusCall::Render(t, r) ==> r == (
            render_calls(calls.take(i + 1), t) <= MAX_RENDERS_PER_TRACE)),
    decreases calls.len(),
{
    let last = states.last();
    assert(states[states.len() - 1].wf());
    last.lemma_events_accounted();
    if calls.len() == 0 {
        assert forall|t: Seq<char>| #[trigger] last.trace_count(t) == render_calls(calls, t) by {
            assert(last.trace_counts().len() == 0);
        }
    } else {
        let n = calls.len() - 1;
        let ps = states.drop_last();
        let pc = calls.drop_last();
        assert forall|i: int| 0 <= i < ps.len() implies #[trigger] ps[i].wf() by {
            assert(ps[i] == states[i]);
            assert(states[i].wf());
        }
        assert forall|i: int| 0 <= i < pc.len() implies bus_step(ps[i], ps[i + 1], #[trigger] pc[i]) by {
            assert(ps[i] == states[i] && ps[i + 1] == states[i + 1] && pc[i] == calls[i]);
            assert(bus_step(states[i], states[i + 1], calls[i]));
        }
        lemma_bus_history(ps, pc);
        let prev = ps.last();
        assert(prev == states[n]);
        assert(bus_step(states[n], states[n + 1], calls[n]));
        assert(last == states[n + 1]);
        assert forall|t: Seq<char>| #[trigger] last.trace_count(t) == render_calls(calls, t) by {
            assert(prev.trace_count(t) == render_calls(pc, t));
        }
        assert forall|i: int| 0 <= i < calls.len() implies (#[trigger] calls[i] matches BusCall::Render(
            t,
            r,
        ) ==> r == (render_calls(calls.take(i + 1), t) <= MAX_RENDERS_PER_TRACE)) by {
            if i < n {
                assert(pc[i] == calls[i]);
                assert(pc.take(i + 1) =~= calls.take(i + 1));
            } else {
                assert(calls.take(i + 1) =~= calls);
                if let BusCall::Render(t, r) = calls[i] {
                    assert(last.trace_count(t) == render_calls(calls, t));
                }
            }
        }
    }
}

} // verus!
