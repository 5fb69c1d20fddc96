//! Core types: the canonical vocabulary every cortex speaks.
use vstd::prelude::*;
use crate::text::{push_char, str_equal};

verus! {

/// The eight canonical operations every cortex speaks.
#[derive(Debug, Clone, Copy, PartialEq, Eq, Hash, Structural)]
pub enum Operation {
    Embed,
    Query,
    Train,
    Predict,
    Analyze,
    Remember,
    Recall,
    Transform,
}

/// The name of an operation, as `as_str` gives it.
pub open spec fn operation_name(op: Operation) -> Seq<char> {
    match op {
        Operation::Embed => "embed"@,
        Operation::Query => "query"@,
        Operation::Train => "train"@,
        Operation::Predict => "predict"@,
        Operation::Analyze => "analyze"@,
        Operation::Remember => "remember"@,
        Operation::Recall => "recall"@,
        Operation::Transform => "transform"@,
    }
}

/// The operation whose name is `s`, if any.
pub open spec fn parse_operation(s: Seq<char>) -> Option<Operation> {
    if s == "embed"@ {
        Some(Operation::Embed)
    } else if s == "query"@ {
        Some(Operation::Query)
    } else if s == "train"@ {
        Some(Operation::Train)
    } else if s == "predict"@ {
        Some(Operation::Predict)
    } else if s == "analyze"@ {
        Some(Operation::Analyze)
    } else if s == "remember"@ {
        Some(Operation::Remember)
    } else if s == "recall"@ {
        Some(Operation::Recall)
    } else if s == "transform"@ {
        Some(Operation::Transform)
    } else {
        None
    }
}

/// The compute tier that serves an operation.
pub open spec fn tier_of(op: Operation) -> ComputeTier {
    match op {
        Operation::Embed | Operation::Remember | Operation::Recall | Operation::Query => {
            ComputeTier::Hot
        },
        Operation::Predict | Operation::Analyze | Operation::Transform => ComputeTier::Warm,
        Operation::Train => ComputeTier::Batch,
    }
}

impl Operation {
    /// All operations, in declaration order.
    pub const ALL: [Operation; 8] = [
        Operation::Embed,
        Operation::Query,
        Operation::Train,
        Operation::Predict,
        Operation::Analyze,
        Operation::Remember,
        Operation::Recall,
        Operation::Transform,
    ];

    /// String representation.
    pub fn as_str(&self) -> (s: &'static str)
        ensures
            s@ == operation_name(*self),
    {
        match self {
            Operation::Embed => "embed",
            Operation::Query => "query",
            Operation::Train => "train",
            Operation::Predict => "predict",
            Operation::Analyze => "analyze",
            Operation::Remember => "remember",
            Operation::Recall => "recall",
            Operation::Transform => "transform",
        }
    }

    /// Determine the compute tier for this operation.
    pub fn compute_tier(&self) -> (t: ComputeTier)
        ensures
            t == tier_of(*self),
    {
        match self {
            Operation::Embed | Operation::Remember | Operation::Recall | Operation::Query => {
                ComputeTier::Hot
            },
            Operation::Predict | Operation::Analyze | Operation::Transform => ComputeTier::Warm,
            Operation::Train => ComputeTier::Batch,
        }
    }

    /// Parse an operation from its name (case-sensitive).
    pub fn from_str(s: &str) -> (r: Result<Operation, ()>)
        ensures
            r == (match parse_operation(s@) {
                Some(op) => Ok(op),
                None => Err(()),
            }),
    {
        if str_equal(s, "embed") {
            Ok(Operation::Embed)
        } else if str_equal(s, "query") {
            Ok(Operation::Query)
        } else if str_equal(s, "train") {
            Ok(Operation::Train)
        } else if str_equal(s, "predict") {
            Ok(Operation::Predict)
        } else if str_equal(s, "analyze") {
            Ok(Operation::Analyze)
        } else if str_equal(s, "remember") {
            Ok(Operation::Remember)
        } else if str_equal(s, "recall") {
            Ok(Operation::Recall)
        } else if str_equal(s, "transform") {
            Ok(Operation::Transform)
        } else {
            Err(())
        }
    }
}

impl std::str::FromStr for Operation {
    type Err = ();

    fn from_str(s: &str) -> (r: Result<Self, Self::Err>)
        ensures
            r == (match parse_operation(s@) {
                Some(op) => Ok(op),
                None => Err(()),
            }),
    {
        Operation::from_str(s)
    }
}

/// Embed, Remember, Recall and Query are served by the hot tier; Predict,
/// Analyze and Transform by the warm tier; Train by the batch tier.
pub proof fn lemma_tier_assignment(op: Operation)
    ensures
        tier_of(op) == ComputeTier::Hot <==> (op == Operation::Embed || op == Operation::Remember
            || op == Operation::Recall || op == Operation::Query),
        tier_of(op) == ComputeTier::Warm <==> (op == Operation::Predict || op == Operation::Analyze
            || op == Operation::Transform),
        tier_of(op) == ComputeTier::Batch <==> op == Operation::Train,
{
}

/// Each operation is named by its lowercase word, and each compute tier,
/// protocol and response status by its own.
pub proof fn lemma_names(op: Operation)
    ensures
        operation_name(Operation::Embed) == "embed"@,
        operation_name(Operation::Query) == "query"@,
        operation_name(Operation::Train) == "train"@,
        operation_name(Operation::Predict) == "predict"@,
        operation_name(Operation::Analyze) == "analyze"@,
        operation_name(Operation::Remember) == "remember"@,
        operation_name(Operation::Recall) == "recall"@,
        operation_name(Operation::Transform) == "transform"@,
        tier_name(ComputeTier::Hot) == "hot"@,
        tier_name(ComputeTier::Warm) == "warm"@,
        tier_name(ComputeTier::Batch) == "batch"@,
        protocol_name(Protocol::A2a) == "a2a"@,
        protocol_name(Protocol::Mcp) == "mcp"@,
        protocol_name(Protocol::Rest) == "rest"@,
        protocol_name(Protocol::Tap) == "tap"@,
        status_name(ResponseStatus::Success) == "ok"@,
        status_name(ResponseStatus::Error) == "error"@,
        status_name(ResponseStatus::Partial) == "partial"@,
        forall|s: Seq<char>| #[trigger] parse_operation(s) == Some(op) ==> s == operation_name(op),
{
}

/// Parsing the name of an operation gives the operation back.
pub proof fn lemma_operation_name_round_trip(op: Operation)
    ensures
        parse_operation(operation_name(op)) == Some(op),
{
    reveal_strlit("embed");
    reveal_strlit("query");
    reveal_strlit("train");
    reveal_strlit("predict");
    reveal_strlit("analyze");
    reveal_strlit("remember");
    reveal_strlit("recall");
    reveal_strlit("transform");
    assert("train"@.len() == 5 && "transform"@.len() == 9);
    assert("remember"@.len() == 8 && "recall"@.len() == 6);
    assert("embed"@[0] == 'e' && "query"@[0] == 'q' && "train"@[0] == 't');
    assert("predict"@[0] == 'p' && "analyze"@[0] == 'a' && "remember"@[0] == 'r');
    assert("recall"@[0] == 'r' && "transform"@[0] == 't');
}

/// Tiered compute: hot, warm or batch.
#[derive(Debug, Clone, Copy, PartialEq, Eq, Hash, Structural)]
pub enum ComputeTier {
    /// Under 5 ms, synchronous, in memory.
    Hot,
    /// 5 to 500 ms, a foreign call or a small model.
    Warm,
    /// Over 500 ms, in the background.
    Batch,
}

/// The name of a compute tier.
pub open spec fn tier_name(t: ComputeTier) -> Seq<char> {
    match t {
        ComputeTier::Hot => "hot"@,
        ComputeTier::Warm => "warm"@,
        ComputeTier::Batch => "batch"@,
    }
}

impl ComputeTier {
    /// String representation.
    pub fn as_str(&self) -> (s: &'static str)
        ensures
            s@ == tier_name(*self),
    {
        match self {
            ComputeTier::Hot => "hot",
            ComputeTier::Warm => "warm",
            ComputeTier::Batch => "batch",
        }
    }
}

/// Supported protocols.
#[derive(Debug, Clone, Copy, PartialEq, Eq, Hash, Structural)]
pub enum Protocol {
    A2a,
    Mcp,
    Rest,
    Tap,
}

/// The name of a protocol.
pub open spec fn protocol_name(p: Protocol) -> Seq<char> {
    match p {
        Protocol::A2a => "a2a"@,
        Protocol::Mcp => "mcp"@,
        Protocol::Rest => "rest"@,
        Protocol::Tap => "tap"@,
    }
}

impl Protocol {
    /// String representation.
    pub fn as_str(&self) -> (s: &'static str)
        ensures
            s@ == protocol_name(*self),
    {
        match self {
            Protocol::A2a => "a2a",
            Protocol::Mcp => "mcp",
            Protocol::Rest => "rest",
            Protocol::Tap => "tap",
        }
    }
}

/// Response status.
#[derive(Debug, Clone, Copy, PartialEq, Eq, Structural)]
pub enum ResponseStatus {
    /// The request succeeded (named "ok").
    Success,
    Error,
    Partial,
}

/// The name of a response status.
pub open spec fn status_name(s: ResponseStatus) -> Seq<char> {
    match s {
        ResponseStatus::Success => "ok"@,
        ResponseStatus::Error => "error"@,
        ResponseStatus::Partial => "partial"@,
    }
}

impl ResponseStatus {
    /// String representation.
    pub fn as_str(&self) -> (s: &'static str)
        ensures
            s@ == status_name(*self),
    {
        match self {
            ResponseStatus::Success => "ok",
            ResponseStatus::Error => "error",
            ResponseStatus::Partial => "partial",
        }
    }
}

} // verus!

verus! {

/// Multiplier of the identifier generator's linear congruential step.
pub const ID_LCG_MULTIPLIER: u64 = 6364136223846793005;

/// Increment of the identifier generator's linear congruential step.
pub const ID_LCG_INCREMENT: u64 = 1442695040888963407;

/// Mixed into the clock reading to form the generator's starting state.
pub const ID_SEED_MIX: u64 = 0x5DEECE66D;

/// Number of hex digits in an identifier.
pub const ID_LEN: usize = 16;

/// Number of hex digits in a trace identifier.
pub const TRACE_ID_LEN: usize = 12;

/// One step of the identifier generator.
pub open spec fn lcg_next(state: u64) -> u64 {
    vstd::wrapping::u64_specs::wrapping_add(
        vstd::wrapping::u64_specs::wrapping_mul(state, ID_LCG_MULTIPLIER),
        ID_LCG_INCREMENT,
    )
}

/// The generator state after `k` steps from `state`.
pub open spec fn lcg_iter(state: u64, k: nat) -> u64
    decreases k,
{
    if k == 0 {
        state
    } else {
        lcg_next(lcg_iter(state, (k - 1) as nat))
    }
}

/// The lowercase hex digit for a value below 16.
pub open spec fn hex_char(n: u64) -> char {
    if n < 10 {
        (48 + n) as char
    } else {
        (97 + n - 10) as char
    }
}

/// The digit drawn from a generator state: bits 56 to 59.
pub open spec fn state_nibble(state: u64) -> u64 {
    (state >> 56u64) & 0xfu64
}

/// The first `count` digits that the generator produces from `state`:
/// digit `i` comes from the state after `i + 1` steps.
pub open spec fn id_digits(state: u64, count: nat) -> Seq<char> {
    Seq::new(count, |i: int| hex_char(state_nibble(lcg_iter(state, (i + 1) as nat))))
}

/// Whether every character of `s` is a lowercase hex digit.
pub open spec fn is_lower_hex(s: Seq<char>) -> bool {
    forall|i: int|
        0 <= i < s.len() ==> ('0' <= #[trigger] s[i] <= '9' || 'a' <= s[i] <= 'f')
}

/// The digits of a generator started at `state`, `count` of them, and the
/// generator's state after drawing them.
fn hex_stream(state: u64, count: usize) -> (r: (String, u64))
    ensures
        r.0@ == id_digits(state, count as nat),
        r.1 == lcg_iter(state, count as nat),
{
    let mut out = String::new();
    let mut st = state;
    let mut i: usize = 0;
    while i < count
        invariant
            i <= count,
            st == lcg_iter(state, i as nat),
            out@ =~= id_digits(state, i as nat),
        decreases count - i,
    {
        st = st.wrapping_mul(ID_LCG_MULTIPLIER).wrapping_add(ID_LCG_INCREMENT);
        let nibble: u64 = (st >> 56u64) & 0xfu64;
        assert(nibble < 16) by (bit_vector)
            requires
                nibble == (st >> 56u64) & 0xfu64,
        ;
        let c: char = if nibble < 10 {
            ((48u64 + nibble) as u8) as char
        } else {
            ((87u64 + nibble) as u8) as char
        };
        push_char(&mut out, c);
        i = i + 1;
    }
    (out, st)
}

/// The digit for a value below 16 is its lowercase hex digit: "0" to "9"
/// for 0 to 9, "a" to "f" for 10 to 15; and the digit an identifier draws
/// from a generator state is the state's top nibble but one (bits 56 to 59).
pub proof fn lemma_hex_digits(n: u64, state: u64)
    requires
        n < 16,
    ensures
        hex_char(n) == "0123456789abcdef"@[n as int],
        state_nibble(state) == (state / 0x100_0000_0000_0000) % 16,
{
    reveal_strlit("0123456789abcdef");
    assert((state >> 56u64) & 0xfu64 == (state / 0x100_0000_0000_0000u64) % 16) by (bit_vector);
}

/// Every identifier is a string of lowercase hex digits of the given length.
pub proof fn lemma_id_digits_shape(state: u64, count: nat)
    ensures
        id_digits(state, count).len() == count,
        is_lower_hex(id_digits(state, count)),
{
    let s = id_digits(state, count);
    assert forall|i: int| 0 <= i < s.len() implies ('0' <= #[trigger] s[i] <= '9' || 'a' <= s[i] <= 'f') by {
        let st = lcg_iter(state, (i + 1) as nat);
        let n = state_nibble(st);
        assert(n < 16) by (bit_vector)
            requires
                n == (st >> 56u64) & 0xfu64,
        ;
    }
}

/// Taking `a` steps and then `b` steps is taking `a + b` steps.
proof fn lemma_lcg_iter_add(state: u64, a: nat, b: nat)
    ensures
        lcg_iter(lcg_iter(state, a), b) == lcg_iter(state, a + b),
    decreases b,
{
    if b > 0 {
        lemma_lcg_iter_add(state, a, (b - 1) as nat);
    }
}

/// Successive identifiers drawn from one generator are consecutive blocks of
/// a single digit stream: the second draw continues where the first stopped.
pub proof fn lemma_successive_ids_continue_stream(state: u64)
    ensures
        id_digits(lcg_iter(state, ID_LEN as nat), ID_LEN as nat) =~= id_digits(
            state,
            2 * ID_LEN as nat,
        ).subrange(ID_LEN as int, 2 * ID_LEN as int),
{
    let mid = lcg_iter(state, ID_LEN as nat);
    assert forall|i: int| 0 <= i < ID_LEN implies #[trigger] id_digits(mid, ID_LEN as nat)[i]
        == id_digits(state, 2 * ID_LEN as nat)[i + ID_LEN] by {
        lemma_lcg_iter_add(state, ID_LEN as nat, (i + 1) as nat);
    }
}

/// Reads the system clock.
///
/// Calls `std::time::UNIX_EPOCH.elapsed` and gives the whole seconds since
/// the Unix epoch (`Duration::as_secs`), or 0 where the clock stands before
/// the epoch. Nothing is stated of the value: it depends on the time.
#[verifier::external_body]
fn clock_secs() -> u64 {
    match std::time::UNIX_EPOCH.elapsed() {
        Ok(d) => d.as_secs(),
        Err(_) => 0,
    }
}

/// The state the generator draws from: a generator that has never drawn
/// (state 0) is seeded from `seconds`, the clock's reading.
pub open spec fn seeded_state(state: u64, seconds: u64) -> u64 {
    if state == 0 {
        seconds ^ ID_SEED_MIX
    } else {
        state
    }
}

/// Generate a random-ish identifier (16 lowercase hex digits) from the linear
/// congruential generator whose state is `state`. A state of 0 means the
/// generator has not drawn yet: it is first seeded from the clock. Each call
/// advances the generator by 16 steps, one per digit. Not cryptographically
/// secure.
pub fn generate_id(state: &mut u64) -> (id: String)
    ensures
        id@.len() == ID_LEN,
        is_lower_hex(id@),
        exists|seconds: u64|
            {
                let start = #[trigger] seeded_state(*old(state), seconds);
                &&& id@ == id_digits(start, ID_LEN as nat)
                &&& *final(state) == lcg_iter(start, ID_LEN as nat)
            },
        *old(state) != 0 ==> id@ == id_digits(*old(state), ID_LEN as nat),
        *old(state) != 0 ==> *final(state) == lcg_iter(*old(state), ID_LEN as nat),
{
    let ghost seconds: u64 = 0;
    if *state == 0 {
        let now = clock_secs();
        proof {
            seconds = now;
        }
        *state = now ^ ID_SEED_MIX;
    }
    let ghost start = *state;
    assert(start == seeded_state(*old(state), seconds));
    let (id, next) = hex_stream(*state, ID_LEN);
    *state = next;
    proof {
        lemma_id_digits_shape(start, ID_LEN as nat);
    }
    id
}

/// Generate a short trace identifier (12 lowercase hex digits): the first
/// digits of the next identifier that the generator draws. The generator
/// advances as it does for `generate_id`.
pub fn generate_trace_id(state: &mut u64) -> (id: String)
    ensures
        id@.len() == TRACE_ID_LEN,
        is_lower_hex(id@),
        exists|seconds: u64|
            {
                let start = #[trigger] seeded_state(*old(state), seconds);
                &&& id@ == id_digits(start, TRACE_ID_LEN as nat)
                &&& *final(state) == lcg_iter(start, ID_LEN as nat)
            },
        *old(state) != 0 ==> id@ == id_digits(*old(state), TRACE_ID_LEN as nat),
        *old(state) != 0 ==> *final(state) == lcg_iter(*old(state), ID_LEN as nat),
{
    let full = generate_id(state);
    let short = full.as_str().substring_char(0, TRACE_ID_LEN);
    let id = String::from_str(short);
    proof {
        let seconds = choose|seconds: u64|
            {
                let start = #[trigger] seeded_state(*old(state), seconds);
                &&& full@ == id_digits(start, ID_LEN as nat)
                &&& *state == lcg_iter(start, ID_LEN as nat)
            };
        let start = seeded_state(*old(state), seconds);
        assert(id@ =~= id_digits(start, TRACE_ID_LEN as nat));
        lemma_id_digits_shape(start, TRACE_ID_LEN as nat);
    }
    id
}

} // verus!

verus! {

/// The value of the first entry whose key is `key`, if any.
pub open spec fn payload_lookup(entries: Seq<(String, String)>, key: Seq<char>) -> Option<
    Seq<char>,
>
    decreases entries.len(),
{
    if entries.len() == 0 {
        None
    } else if entries[0].0@ == key {
        Some(entries[0].1@)
    } else {
        payload_lookup(entries.drop_first(), key)
    }
}

/// Get a payload value by key: the value of the first entry with that key.
pub fn payload_get<'a>(payload: &'a Vec<(String, String)>, key: &str) -> (r: Option<&'a str>)
    ensures
        match r {
            Some(v) => payload_lookup(payload@, key@) == Some(v@),
            None => payload_lookup(payload@, key@) is None,
        },
{
    let n = payload.len();
    let mut i: usize = 0;
    assert(payload@.subrange(0, n as int) =~= payload@);
    while i < n
        invariant
            n == payload@.len(),
            i <= n,
            payload_lookup(payload@, key@) == payload_lookup(payload@.subrange(i as int, n as int), key@),
        decreases n - i,
    {
        let entry = &payload[i];
        assert(payload@.subrange(i as int, n as int).drop_first() =~= payload@.subrange(
            i + 1,
            n as int,
        ));
        if str_equal(entry.0.as_str(), key) {
            return Some(entry.1.as_str());
        }
        i = i + 1;
    }
    None
}

/// Appending an entry whose key is not yet present makes the entry's value
/// what a lookup of that key gives; an earlier entry with the key still wins.
pub proof fn lemma_payload_lookup_after_push(
    entries: Seq<(String, String)>,
    entry: (String, String),
    key: Seq<char>,
)
    ensures
        payload_lookup(entries.push(entry), key) == (if payload_lookup(entries, key) is Some {
            payload_lookup(entries, key)
        } else if entry.0@ == key {
            Some(entry.1@)
        } else {
            None
        }),
    decreases entries.len(),
{
    if entries.len() == 0 {
        assert(entries.push(entry).drop_first() =~= Seq::<(String, String)>::empty());
        assert(entries.push(entry)[0] == entry);
        assert(payload_lookup(Seq::<(String, String)>::empty(), key) is None);
    } else {
        assert(entries.push(entry).drop_first() =~= entries.drop_first().push(entry));
        assert(entries.push(entry)[0] == entries[0]);
        lemma_payload_lookup_after_push(entries.drop_first(), entry, key);
    }
}

} // verus!
