//! Message types and the bounded, priority-ranked queue that holds an
//! agent's pending messages.
use vstd::prelude::*;
use std::collections::VecDeque;

verus! {

/// Message types for inter-agent communication.
#[derive(Debug, Clone, Copy, PartialEq, Eq, Structural)]
pub enum MessageType {
    /// Direct point-to-point message.
    Direct,
    /// Broadcast to all agents.
    Broadcast,
    /// Query: expects a response.
    Query,
    /// Response to a query.
    Response,
    /// Event notification (fire and forget).
    Event,
    /// Conservation enforcement (system-level).
    Conservation,
}

/// The name of a message type.
pub open spec fn message_type_name(t: MessageType) -> Seq<char> {
    match t {
        MessageType::Direct => "direct"@,
        MessageType::Broadcast => "broadcast"@,
        MessageType::Query => "query"@,
        MessageType::Response => "response"@,
        MessageType::Event => "event"@,
        MessageType::Conservation => "conservation"@,
    }
}

/// Each message type is named by its lowercase word.
pub proof fn lemma_message_type_names()
    ensures
        message_type_name(MessageType::Direct) == "direct"@,
        message_type_name(MessageType::Broadcast) == "broadcast"@,
        message_type_name(MessageType::Query) == "query"@,
        message_type_name(MessageType::Response) == "response"@,
        message_type_name(MessageType::Event) == "event"@,
        message_type_name(MessageType::Conservation) == "conservation"@,
{
}

impl MessageType {
    /// String representation.
    pub fn as_str(&self) -> (s: &'static str)
        ensures
            s@ == message_type_name(*self),
    {
        match self {
            MessageType::Direct => "direct",
            MessageType::Broadcast => "broadcast",
            MessageType::Query => "query",
            MessageType::Response => "response",
            MessageType::Event => "event",
            MessageType::Conservation => "conservation",
        }
    }

    /// Whether a message of this type expects a response: only a query does.
    pub fn expects_response(&self) -> (b: bool)
        ensures
            b == (*self == MessageType::Query),
    {
        match self {
            MessageType::Query => true,
            _ => false,
        }
    }
}

impl Default for MessageType {
    /// The default message type is a direct message.
    fn default() -> (t: MessageType)
        ensures
            t == MessageType::Direct,
    {
        MessageType::Direct
    }
}

} // verus!

verus! {

/// Capacity of a queue made with `RankedQueue::new`.
pub const DEFAULT_QUEUE_CAPACITY: usize = 1024;

/// Whether `i` is the first position of a lowest-ranked entry of `s`.
pub open spec fn is_first_lowest<T>(s: Seq<(u64, T)>, i: int) -> bool {
    &&& 0 <= i < s.len()
    &&& forall|j: int| 0 <= j < s.len() ==> s[i].0 <= #[trigger] s[j].0
    &&& forall|j: int| 0 <= j < i ==> s[i].0 < #[trigger] s[j].0
}

/// Whether `i` is the first position of a highest-ranked entry of `s`.
pub open spec fn is_first_highest<T>(s: Seq<(u64, T)>, i: int) -> bool {
    &&& 0 <= i < s.len()
    &&& forall|j: int| 0 <= j < s.len() ==> #[trigger] s[j].0 <= s[i].0
    &&& forall|j: int| 0 <= j < i ==> #[trigger] s[j].0 < s[i].0
}

/// Whether `i` is the last position of a highest-ranked entry of `s`.
pub open spec fn is_last_highest<T>(s: Seq<(u64, T)>, i: int) -> bool {
    &&& 0 <= i < s.len()
    &&& forall|j: int| 0 <= j < s.len() ==> #[trigger] s[j].0 <= s[i].0
    &&& forall|j: int| i < j < s.len() ==> #[trigger] s[j].0 < s[i].0
}

/// The first position of a lowest-ranked entry (of a non-empty sequence).
pub open spec fn first_lowest<T>(s: Seq<(u64, T)>) -> int {
    choose|i: int| is_first_lowest(s, i)
}

/// The first position of a highest-ranked entry (of a non-empty sequence).
pub open spec fn first_highest<T>(s: Seq<(u64, T)>) -> int {
    choose|i: int| is_first_highest(s, i)
}

/// The last position of a highest-ranked entry (of a non-empty sequence).
pub open spec fn last_highest<T>(s: Seq<(u64, T)>) -> int {
    choose|i: int| is_last_highest(s, i)
}

/// A bounded queue whose entries carry a rank: a higher rank is served first.
///
/// Entries keep their arrival order. When the queue is full, a push first
/// evicts the earliest of the lowest-ranked entries (backpressure). A pop
/// takes the earliest of the highest-ranked entries; a peek shows the latest
/// of them.
pub struct RankedQueue<T> {
    entries: VecDeque<(u64, T)>,
    max_size: usize,
}

impl<T> View for RankedQueue<T> {
    type V = Seq<(u64, T)>;

    /// The entries, ranks with items, in arrival order.
    closed spec fn view(&self) -> Seq<(u64, T)> {
        self.entries@
    }
}

impl<T> RankedQueue<T> {
    #[verifier::type_invariant]
    closed spec fn within_capacity(&self) -> bool {
        self.entries@.len() <= self.max_size
    }

    /// The most entries the queue holds.
    pub closed spec fn capacity(&self) -> nat {
        self.max_size as nat
    }

    /// An empty queue that holds up to `DEFAULT_QUEUE_CAPACITY` entries.
    pub fn new() -> (q: Self)
        ensures
            q@ == Seq::<(u64, T)>::empty(),
            q.capacity() == DEFAULT_QUEUE_CAPACITY,
    {
        RankedQueue { entries: VecDeque::new(), max_size: DEFAULT_QUEUE_CAPACITY }
    }

    /// An empty queue that holds up to `max_size` entries.
    pub fn with_capacity(max_size: usize) -> (q: Self)
        ensures
            q@ == Seq::<(u64, T)>::empty(),
            q.capacity() == max_size,
    {
        RankedQueue { entries: VecDeque::new(), max_size }
    }

    /// Position of the earliest lowest-ranked entry.
    fn find_lowest_rank(&self) -> (r: Option<usize>)
        ensures
            r is None <==> self@.len() == 0,
            r matches Some(i) ==> is_first_lowest(self@, i as int),
    {
        let n = self.entries.len();
        if n == 0 {
            return None;
        }
        let mut best: usize = 0;
        let mut i: usize = 1;
        while i < n
            invariant
                n == self@.len(),
                1 <= i <= n,
                best < i,
                forall|j: int| 0 <= j < i ==> self@[best as int].0 <= #[trigger] self@[j].0,
                forall|j: int| 0 <= j < best ==> self@[best as int].0 < #[trigger] self@[j].0,
            decreases n - i,
        {
            if self.entries[i].0 < self.entries[best].0 {
                best = i;
            }
            i = i + 1;
        }
        Some(best)
    }

    /// Push an entry. When the queue is full, the earliest lowest-ranked entry
    /// is evicted first. Returns false, changing nothing, only where the queue
    /// is full and empty at once (capacity 0).
    pub fn push(&mut self, rank: u64, item: T) -> (accepted: bool)
        ensures
            accepted == (old(self).capacity() > 0),
            final(self).capacity() == old(self).capacity(),
            final(self)@.len() <= final(self).capacity(),
            old(self)@.len() < old(self).capacity() ==> final(self)@ == old(self)@.push(
                (rank, item),
            ),
            old(self)@.len() >= old(self).capacity() && accepted ==> final(self)@ == old(
                self,
            )@.remove(first_lowest(old(self)@)).push((rank, item)),
            !accepted ==> final(self)@ == old(self)@,
    {
        proof {
            use_type_invariant(&*self);
        }
        let mut entries: VecDeque<(u64, T)> = VecDeque::new();
        if self.entries.len() >= self.max_size {
            match self.find_lowest_rank() {
                Some(i) => {
                    proof {
                        assert(is_first_lowest(self@, first_lowest(self@)));
                        lemma_first_lowest_unique(self@, i as int, first_lowest(self@));
                    }
                    std::mem::swap(&mut entries, &mut self.entries);
                    entries.remove(i);
                },
                None => {
                    return false;
                },
            }
        } else {
            std::mem::swap(&mut entries, &mut self.entries);
        }
        entries.push_back((rank, item));
        self.entries = entries;
        true
    }

    /// Position of the earliest highest-ranked entry.
    fn find_highest_rank(&self) -> (r: Option<usize>)
        ensures
            r is None <==> self@.len() == 0,
            r matches Some(i) ==> is_first_highest(self@, i as int),
    {
        let n = self.entries.len();
        if n == 0 {
            return None;
        }
        let mut best: usize = 0;
        let mut i: usize = 1;
        while i < n
            invariant
                n == self@.len(),
                1 <= i <= n,
                best < i,
                forall|j: int| 0 <= j < i ==> #[trigger] self@[j].0 <= self@[best as int].0,
                forall|j: int| 0 <= j < best ==> #[trigger] self@[j].0 < self@[best as int].0,
            decreases n - i,
        {
            if self.entries[i].0 > self.entries[best].0 {
                best = i;
            }
            i = i + 1;
        }
        Some(best)
    }

    /// Take the earliest highest-ranked entry out of the queue.
    pub fn pop(&mut self) -> (r: Option<T>)
        ensures
            final(self).capacity() == old(self).capacity(),
            final(self)@.len() <= final(self).capacity(),
            old(self)@.len() == 0 ==> r is None && final(self)@ == old(self)@,
            old(self)@.len() > 0 ==> r == Some(old(self)@[first_highest(old(self)@)].1)
                && final(self)@ == old(self)@.remove(first_highest(old(self)@)),
    {
        proof {
            use_type_invariant(&*self);
        }
        match self.find_highest_rank() {
            Some(i) => {
                proof {
                    assert(is_first_highest(self@, first_highest(self@)));
                    lemma_first_highest_unique(self@, i as int, first_highest(self@));
                }
                let mut entries: VecDeque<(u64, T)> = VecDeque::new();
                std::mem::swap(&mut entries, &mut self.entries);
                let taken = entries.remove(i);
                self.entries = entries;
                match taken {
                    Some((_, item)) => Some(item),
                    None => None,
                }
            },
            None => None,
        }
    }

    /// The latest highest-ranked entry, left in the queue.
    pub fn peek(&self) -> (r: Option<&T>)
        ensures
            self@.len() == 0 ==> r is None,
            self@.len() > 0 ==> r == Some(&self@[last_highest(self@)].1),
    {
        let n = self.entries.len();
        if n == 0 {
            return None;
        }
        let mut best: usize = 0;
        let mut i: usize = 1;
        while i < n
            invariant
                n == self@.len(),
                1 <= i <= n,
                best < i,
                forall|j: int| 0 <= j < i ==> #[trigger] self@[j].0 <= self@[best as int].0,
                forall|j: int| best < j < i ==> #[trigger] self@[j].0 < self@[best as int].0,
            decreases n - i,
        {
            if self.entries[i].0 >= self.entries[best].0 {
                best = i;
            }
            i = i + 1;
        }
        proof {
            assert(is_last_highest(self@, best as int));
            assert(is_last_highest(self@, last_highest(self@)));
            lemma_last_highest_unique(self@, best as int, last_highest(self@));
        }
        Some(&self.entries[best].1)
    }

    /// Number of entries in the queue.
    pub fn len(&self) -> (n: usize)
        ensures
            n == self@.len(),
    {
        self.entries.len()
    }

    /// Whether the queue is empty.
    pub fn is_empty(&self) -> (b: bool)
        ensures
            b == (self@.len() == 0),
    {
        self.entries.len() == 0
    }

    /// Remove every entry.
    pub fn clear(&mut self)
        ensures
            final(self)@ == Seq::<(u64, T)>::empty(),
            final(self).capacity() == old(self).capacity(),
    {
        self.entries = VecDeque::new();
    }
}

/// There is one earliest lowest-ranked position.
proof fn lemma_first_lowest_unique<T>(s: Seq<(u64, T)>, i: int, k: int)
    requires
        is_first_lowest(s, i),
        is_first_lowest(s, k),
    ensures
        i == k,
{
    if i < k {
        assert(s[k].0 < s[i].0);
    } else if k < i {
        assert(s[i].0 < s[k].0);
    }
}

/// There is one earliest highest-ranked position.
proof fn lemma_first_highest_unique<T>(s: Seq<(u64, T)>, i: int, k: int)
    requires
        is_first_highest(s, i),
        is_first_highest(s, k),
    ensures
        i == k,
{
    if i < k {
        assert(s[i].0 < s[k].0);
    } else if k < i {
        assert(s[k].0 < s[i].0);
    }
}

/// There is one latest highest-ranked position.
proof fn lemma_last_highest_unique<T>(s: Seq<(u64, T)>, i: int, k: int)
    requires
        is_last_highest(s, i),
        is_last_highest(s, k),
    ensures
        i == k,
{
    if i < k {
        assert(s[k].0 < s[i].0);
    } else if k < i {
        assert(s[i].0 < s[k].0);
    }
}

} // verus!

verus! {

/// Every non-empty sequence of ranked entries has an earliest lowest-ranked
/// entry, an earliest highest-ranked one and a latest highest-ranked one:
/// a push into a full queue always has an entry to evict, and a pop or a
/// peek of a non-empty queue always has an entry to give.
pub proof fn lemma_rank_extremes_exist<T>(s: Seq<(u64, T)>)
    requires
        s.len() > 0,
    ensures
        is_first_lowest(s, first_lowest(s)),
        is_first_highest(s, first_highest(s)),
        is_last_highest(s, last_highest(s)),
    decreases s.len(),
{
    if s.len() == 1 {
        assert(is_first_lowest(s, 0));
        assert(is_first_highest(s, 0));
        assert(is_last_highest(s, 0));
    } else {
        let p = s.drop_last();
        lemma_rank_extremes_exist(p);
        let l = s.len() - 1;
        let lo = first_lowest(p);
        let hi = first_highest(p);
        let lh = last_highest(p);
        assert forall|j: int| 0 <= j < l implies #[trigger] s[j] == p[j] by {}
        if s[l].0 < s[lo].0 {
            assert(is_first_lowest(s, l));
        } else {
            assert(is_first_lowest(s, lo));
        }
        if s[l].0 > s[hi].0 {
            assert(is_first_highest(s, l));
        } else {
            assert(is_first_highest(s, hi));
        }
        if s[l].0 >= s[lh].0 {
            assert(is_last_highest(s, l));
        } else {
            assert(is_last_highest(s, lh));
        }
    }
}

/// A pop gives the earliest of the highest-ranked entries, a push into a full
/// queue evicts the earliest of the lowest-ranked ones, and a peek shows the
/// latest of the highest-ranked ones.
pub proof fn lemma_pop_takes_highest_push_evicts_lowest<T>(s: Seq<(u64, T)>)
    requires
        s.len() > 0,
    ensures
        forall|j: int| 0 <= j < s.len() ==> #[trigger] s[j].0 <= s[first_highest(s)].0,
        forall|j: int| 0 <= j < s.len() ==> s[first_lowest(s)].0 <= #[trigger] s[j].0,
        0 <= first_highest(s) < s.len(),
        0 <= first_lowest(s) < s.len(),
        0 <= last_highest(s) < s.len(),
        forall|j: int| 0 <= j < first_highest(s) ==> #[trigger] s[j].0 < s[first_highest(s)].0,
        forall|j: int| 0 <= j < first_lowest(s) ==> s[first_lowest(s)].0 < #[trigger] s[j].0,
        forall|j: int| 0 <= j < s.len() ==> #[trigger] s[j].0 <= s[last_highest(s)].0,
        forall|j: int| last_highest(s) < j < s.len() ==> #[trigger] s[j].0 < s[last_highest(s)].0,
{
    lemma_rank_extremes_exist(s);
}

/// An item pushed into an empty queue that accepts it is what the next pop
/// gives back, and the queue is then empty again.
pub proof fn lemma_push_then_pop<T>(rank: u64, item: T)
    ensures
        first_highest(Seq::<(u64, T)>::empty().push((rank, item))) == 0,
        Seq::<(u64, T)>::empty().push((rank, item))[0].1 == item,
        Seq::<(u64, T)>::empty().push((rank, item)).remove(0) == Seq::<(u64, T)>::empty(),
{
    let s = Seq::<(u64, T)>::empty().push((rank, item));
    lemma_rank_extremes_exist(s);
    assert(s.remove(0) =~= Seq::<(u64, T)>::empty());
}

} // verus!

verus! {

/// The sign bit of a 64-bit pattern.
pub const SIGN_BIT: u64 = 0x8000_0000_0000_0000;

/// The value of a 64-bit pattern read as sign and magnitude: the top bit is
/// the sign, the other bits the magnitude. For the bit pattern of a float
/// that is not NaN, this orders patterns as the floats are ordered, the two
/// zeros included.
pub open spec fn sign_magnitude(bits: u64) -> int {
    if bits >= SIGN_BIT {
        -((bits - SIGN_BIT) as int)
    } else {
        bits as int
    }
}

/// The rank that `rank_of_bits` gives a bit pattern.
pub open spec fn bits_rank(bits: u64) -> u64 {
    if bits == SIGN_BIT {
        SIGN_BIT
    } else if bits > SIGN_BIT {
        (u64::MAX - bits) as u64
    } else {
        (bits + SIGN_BIT) as u64
    }
}

/// An unsigned rank for a 64-bit pattern read as sign and magnitude: a
/// greater value has a greater rank, and equal values (the two zeros) have
/// equal ranks. Negative patterns have their bits flipped; the others have
/// the sign bit set; negative zero ranks as zero.
pub fn rank_of_bits(bits: u64) -> (r: u64)
    ensures
        r == bits_rank(bits),
{
    if bits == SIGN_BIT {
        SIGN_BIT
    } else if bits >> 63u64 == 1 {
        assert((bits >> 63u64 == 1) ==> bits >= 0x8000_0000_0000_0000u64 && !bits == 0xffff_ffff_ffff_ffffu64 - bits) by (bit_vector);
        !bits
    } else {
        assert((bits >> 63u64 != 1) ==> bits < 0x8000_0000_0000_0000u64 && (bits | (1u64 << 63u64)) == bits + 0x8000_0000_0000_0000u64) by (bit_vector);
        bits | (1u64 << 63u64)
    }
}

/// Ranks order bit patterns exactly as their sign-and-magnitude values do:
/// one rank is below another exactly when its value is, and two ranks are
/// equal exactly when the values are.
pub proof fn lemma_rank_orders_like_values(a: u64, b: u64)
    ensures
        sign_magnitude(a) < sign_magnitude(b) <==> bits_rank(a) < bits_rank(b),
        sign_magnitude(a) == sign_magnitude(b) <==> bits_rank(a) == bits_rank(b),
{
}

} // verus!
