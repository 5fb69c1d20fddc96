//! Agent decisions: the capability set an agent may act on, the order in
//! which a decision is screened, and why a decision is denied.
use vstd::prelude::*;
use vstd::string::StringExecFns;
use crate::types::{operation_name, Operation};

verus! {

/// Why a decision was denied.
#[derive(Debug, Clone, Copy, PartialEq, Eq, Structural)]
pub enum DecisionDenialReason {
    MissingCapability(Operation),
    EnergyExhausted,
    NoveltyExhausted,
    InformationLossExceeded,
    IdentityDriftExceeded,
    MomentumViolation,
}

/// The outcome of each conservation check for one decision: whether the
/// energy budget affords its cost (energy), whether the priorities it acts on
/// stay within the allowed shift (momentum), whether the novelty budget
/// affords it (entropy), whether the memories pruned this cycle stay within
/// the allowed loss (information), and whether the agent's identity stays
/// within the allowed drift (symmetry).
#[derive(Debug, Clone, Copy, PartialEq, Eq, Structural)]
pub struct ConservationChecks {
    pub affordable: bool,
    pub momentum_kept: bool,
    pub novelty_available: bool,
    pub information_kept: bool,
    pub identity_kept: bool,
}

impl ConservationChecks {
    /// Every conservation check passes.
    pub open spec fn all_pass(self) -> bool {
        self.affordable && self.momentum_kept && self.novelty_available && self.information_kept
            && self.identity_kept
    }
}

/// The text that explains a denial.
pub open spec fn denial_text(r: DecisionDenialReason) -> Seq<char> {
    match r {
        DecisionDenialReason::MissingCapability(op) => "agent lacks capability: "@ + operation_name(
            op,
        ),
        DecisionDenialReason::EnergyExhausted => "energy conservation law violated: budget exhausted"@,
        DecisionDenialReason::NoveltyExhausted =>
            "entropy conservation law violated: novelty budget exhausted"@,
        DecisionDenialReason::InformationLossExceeded =>
            "information conservation law violated: too many memories pruned"@,
        DecisionDenialReason::IdentityDriftExceeded =>
            "symmetry conservation law violated: identity drift exceeds threshold"@,
        DecisionDenialReason::MomentumViolation =>
            "momentum conservation law violated: priority shift too large"@,
    }
}

/// A denial names the law it was refused under, or the missing capability.
pub proof fn lemma_denial_texts(op: Operation)
    ensures
        denial_text(DecisionDenialReason::MissingCapability(op)) == "agent lacks capability: "@
            + operation_name(op),
        denial_text(DecisionDenialReason::EnergyExhausted)
            == "energy conservation law violated: budget exhausted"@,
        denial_text(DecisionDenialReason::NoveltyExhausted)
            == "entropy conservation law violated: novelty budget exhausted"@,
        denial_text(DecisionDenialReason::InformationLossExceeded)
            == "information conservation law violated: too many memories pruned"@,
        denial_text(DecisionDenialReason::IdentityDriftExceeded)
            == "symmetry conservation law violated: identity drift exceeds threshold"@,
        denial_text(DecisionDenialReason::MomentumViolation)
            == "momentum conservation law violated: priority shift too large"@,
{
}

impl DecisionDenialReason {
    /// The text that explains this denial.
    pub fn to_string(&self) -> (s: String)
        ensures
            s@ == denial_text(*self),
    {
        match self {
            DecisionDenialReason::MissingCapability(op) => {
                let mut s = String::from_str("agent lacks capability: ");
                s.append(op.as_str());
                s
            },
            DecisionDenialReason::EnergyExhausted => String::from_str(
                "energy conservation law violated: budget exhausted",
            ),
            DecisionDenialReason::NoveltyExhausted => String::from_str(
                "entropy conservation law violated: novelty budget exhausted",
            ),
            DecisionDenialReason::InformationLossExceeded => String::from_str(
                "information conservation law violated: too many memories pruned",
            ),
            DecisionDenialReason::IdentityDriftExceeded => String::from_str(
                "symmetry conservation law violated: identity drift exceeds threshold",
            ),
            DecisionDenialReason::MomentumViolation => String::from_str(
                "momentum conservation law violated: priority shift too large",
            ),
        }
    }
}

/// Whether `op` is among the capabilities `caps`.
pub fn has_capability(caps: &Vec<Operation>, op: Operation) -> (b: bool)
    ensures
        b == caps@.contains(op),
{
    let n = caps.len();
    let mut i: usize = 0;
    while i < n
        invariant
            n == caps@.len(),
            i <= n,
            forall|j: int| 0 <= j < i ==> caps@[j] != op,
        decreases n - i,
    {
        if caps[i] == op {
            return true;
        }
        i = i + 1;
    }
    false
}

/// Add a capability unless it is already there.
pub fn add_capability(caps: &mut Vec<Operation>, op: Operation)
    ensures
        final(caps)@ == (if old(caps)@.contains(op) {
            old(caps)@
        } else {
            old(caps)@.push(op)
        }),
{
    if !has_capability(caps, op) {
        caps.push(op);
    }
}

/// The capabilities `caps` with each of `ops` added in turn, skipping those
/// already present.
pub open spec fn with_capabilities(caps: Seq<Operation>, ops: Seq<Operation>) -> Seq<Operation>
    decreases ops.len(),
{
    if ops.len() == 0 {
        caps
    } else {
        let prev = with_capabilities(caps, ops.drop_last());
        if prev.contains(ops.last()) {
            prev
        } else {
            prev.push(ops.last())
        }
    }
}

/// Add each of several capabilities, in order, skipping those already present.
pub fn add_capabilities(caps: &mut Vec<Operation>, ops: &[Operation])
    ensures
        final(caps)@ == with_capabilities(old(caps)@, ops@),
{
    let n = ops.len();
    let mut i: usize = 0;
    while i < n
        invariant
            n == ops@.len(),
            i <= n,
            caps@ == with_capabilities(old(caps)@, ops@.take(i as int)),
        decreases n - i,
    {
        assert(ops@.take(i + 1).drop_last() =~= ops@.take(i as int));
        add_capability(caps, ops[i]);
        i = i + 1;
    }
    assert(ops@.take(n as int) =~= ops@);
}

/// Whether no capability occurs twice.
pub open spec fn no_duplicates(caps: Seq<Operation>) -> bool {
    forall|i: int, j: int| 0 <= i < j < caps.len() ==> caps[i] != caps[j]
}

/// Adding capabilities never makes one occur twice, and afterwards each added
/// capability is present.
pub proof fn lemma_with_capabilities_unique(caps: Seq<Operation>, ops: Seq<Operation>)
    requires
        no_duplicates(caps),
    ensures
        no_duplicates(with_capabilities(caps, ops)),
        forall|k: int| 0 <= k < ops.len() ==> with_capabilities(caps, ops).contains(#[trigger] ops[k]),
        forall|o: Operation| caps.contains(o) ==> with_capabilities(caps, ops).contains(o),
    decreases ops.len(),
{
    if ops.len() > 0 {
        let prev = with_capabilities(caps, ops.drop_last());
        lemma_with_capabilities_unique(caps, ops.drop_last());
        let next = with_capabilities(caps, ops);
        assert forall|k: int| 0 <= k < ops.len() implies next.contains(#[trigger] ops[k]) by {
            if k < ops.len() - 1 {
                assert(ops.drop_last()[k] == ops[k]);
                assert(prev.contains(ops[k]));
                if !prev.contains(ops.last()) {
                    let w = choose|w: int| 0 <= w < prev.len() && prev[w] == ops[k];
                    assert(next[w] == ops[k]);
                }
            } else {
                if !prev.contains(ops.last()) {
                    assert(next[prev.len() as int] == ops.last());
                }
            }
        }
        assert forall|o: Operation| caps.contains(o) implies next.contains(o) by {
            assert(prev.contains(o));
            if !prev.contains(ops.last()) {
                let w = choose|w: int| 0 <= w < prev.len() && prev[w] == o;
                assert(next[w] == o);
            }
        }
    }
}

/// Adding capabilities keeps the ones the agent had, in their order, at the
/// front, and afterwards the agent has exactly the capabilities it had or was
/// given: no other capability appears. Adding the same capabilities again
/// changes nothing.
pub proof fn lemma_capabilities_added(caps: Seq<Operation>, ops: Seq<Operation>)
    ensures
        forall|o: Operation| #[trigger] with_capabilities(caps, ops).contains(o) <==> (caps.contains(o)
            || ops.contains(o)),
        with_capabilities(caps, ops).len() >= caps.len(),
        with_capabilities(caps, ops).take(caps.len() as int) == caps,
        with_capabilities(with_capabilities(caps, ops), ops) == with_capabilities(caps, ops),
    decreases ops.len(),
{
    if ops.len() > 0 {
        let pre = ops.drop_last();
        let prev = with_capabilities(caps, pre);
        let next = with_capabilities(caps, ops);
        lemma_capabilities_added(caps, pre);
        assert forall|o: Operation| #[trigger] next.contains(o) <==> (caps.contains(o) || ops.contains(o)) by {
            if ops.contains(o) && !pre.contains(o) {
                let k = choose|k: int| 0 <= k < ops.len() && ops[k] == o;
                if k < pre.len() {
                    assert(pre[k] == o);
                }
            }
            if pre.contains(o) {
                let k = choose|k: int| 0 <= k < pre.len() && pre[k] == o;
                assert(ops[k] == o);
            }
            if o == ops.last() {
                assert(ops[ops.len() - 1] == o);
            }
            if prev.contains(o) && !prev.contains(ops.last()) {
                let w = choose|w: int| 0 <= w < prev.len() && prev[w] == o;
                assert(next[w] == o);
            }
            if !prev.contains(ops.last()) && o == ops.last() {
                assert(next[prev.len() as int] == o);
            }
            if next.contains(o) && !prev.contains(ops.last()) {
                let w = choose|w: int| 0 <= w < next.len() && next[w] == o;
                if w < prev.len() {
                    assert(prev[w] == o);
                }
            }
        }
        if !prev.contains(ops.last()) {
            assert(next.take(caps.len() as int) =~= prev.take(caps.len() as int));
        }
        lemma_capabilities_present(next, ops);
    } else {
        assert(caps.take(caps.len() as int) =~= caps);
    }
}

/// Adding capabilities the agent already has changes nothing.
proof fn lemma_capabilities_present(caps: Seq<Operation>, ops: Seq<Operation>)
    requires
        forall|k: int| 0 <= k < ops.len() ==> caps.contains(#[trigger] ops[k]),
    ensures
        with_capabilities(caps, ops) == caps,
    decreases ops.len(),
{
    if ops.len() > 0 {
        let pre = ops.drop_last();
        assert forall|k: int| 0 <= k < pre.len() implies caps.contains(#[trigger] pre[k]) by {
            assert(pre[k] == ops[k]);
        }
        lemma_capabilities_present(caps, pre);
        assert(caps.contains(ops[ops.len() - 1]));
    }
}

/// The denial, if any, of a decision to perform `op`. Every decision is gated
/// by the agent's capabilities and by the five conservation laws; the first
/// check that fails names the denial, in this order: a missing capability,
/// energy, momentum, entropy (novelty), information, symmetry (identity).
pub open spec fn screening(
    op: Operation,
    caps: Seq<Operation>,
    checks: ConservationChecks,
) -> Option<DecisionDenialReason> {
    if !caps.contains(op) {
        Some(DecisionDenialReason::MissingCapability(op))
    } else if !checks.affordable {
        Some(DecisionDenialReason::EnergyExhausted)
    } else if !checks.momentum_kept {
        Some(DecisionDenialReason::MomentumViolation)
    } else if !checks.novelty_available {
        Some(DecisionDenialReason::NoveltyExhausted)
    } else if !checks.information_kept {
        Some(DecisionDenialReason::InformationLossExceeded)
    } else if !checks.identity_kept {
        Some(DecisionDenialReason::IdentityDriftExceeded)
    } else {
        None
    }
}

/// Screen a decision to perform `op`, given the agent's capabilities and the
/// outcome of each conservation check. `None` approves the decision.
pub fn screen_decision(
    op: Operation,
    caps: &Vec<Operation>,
    checks: ConservationChecks,
) -> (r: Option<DecisionDenialReason>)
    ensures
        r == screening(op, caps@, checks),
{
    if !has_capability(caps, op) {
        Some(DecisionDenialReason::MissingCapability(op))
    } else if !checks.affordable {
        Some(DecisionDenialReason::EnergyExhausted)
    } else if !checks.momentum_kept {
        Some(DecisionDenialReason::MomentumViolation)
    } else if !checks.novelty_available {
        Some(DecisionDenialReason::NoveltyExhausted)
    } else if !checks.information_kept {
        Some(DecisionDenialReason::InformationLossExceeded)
    } else if !checks.identity_kept {
        Some(DecisionDenialReason::IdentityDriftExceeded)
    } else {
        None
    }
}

/// A decision is approved exactly when the agent holds the capability and
/// all five conservation checks pass; a denial names a law only when that
/// law's check failed.
pub proof fn lemma_screening_gates_every_law(
    op: Operation,
    caps: Seq<Operation>,
    checks: ConservationChecks,
)
    ensures
        screening(op, caps, checks) is None <==> (caps.contains(op) && checks.all_pass()),
        screening(op, caps, checks) == Some(DecisionDenialReason::EnergyExhausted)
            ==> !checks.affordable,
        screening(op, caps, checks) == Some(DecisionDenialReason::MomentumViolation)
            ==> !checks.momentum_kept,
        screening(op, caps, checks) == Some(DecisionDenialReason::NoveltyExhausted)
            ==> !checks.novelty_available,
        screening(op, caps, checks) == Some(DecisionDenialReason::InformationLossExceeded)
            ==> !checks.information_kept,
        screening(op, caps, checks) == Some(DecisionDenialReason::IdentityDriftExceeded)
            ==> !checks.identity_kept,
{
}

} // verus!
