//! Conservation-law aware decision making: the five laws and the read-only
//! summary of an agent's conservation state.
//!
//! 1. Energy: total decision energy is finite per cycle.
//! 2. Momentum: agents resist sudden priority flips.
//! 3. Entropy: novelty seeking is bounded.
//! 4. Information: memories cannot be silently lost.
//! 5. Symmetry: agent identity is preserved through transforms.
use vstd::prelude::*;

verus! {

/// The five conservation laws.
#[derive(Debug, Clone, Copy, PartialEq, Eq, Hash, Structural)]
pub enum ConservationLaw {
    /// Total decision energy is conserved (finite budget per cycle).
    Energy,
    /// Agents resist sudden priority changes (inertia).
    Momentum,
    /// Novelty seeking is bounded (prevents thrashing).
    Entropy,
    /// Memories cannot be silently lost (accounting for all state changes).
    Information,
    /// Agent identity is preserved through transforms.
    Symmetry,
}

/// The display name of a law.
pub open spec fn law_name(law: ConservationLaw) -> Seq<char> {
    match law {
        ConservationLaw::Energy => "Energy Conservation"@,
        ConservationLaw::Momentum => "Momentum Conservation"@,
        ConservationLaw::Entropy => "Entropy Conservation"@,
        ConservationLaw::Information => "Information Conservation"@,
        ConservationLaw::Symmetry => "Symmetry Conservation"@,
    }
}

/// The one-line description of a law.
pub open spec fn law_description(law: ConservationLaw) -> Seq<char> {
    match law {
        ConservationLaw::Energy => "Total decision energy is finite per cycle"@,
        ConservationLaw::Momentum => "Agents resist sudden priority flips"@,
        ConservationLaw::Entropy => "Novelty seeking is bounded to prevent thrashing"@,
        ConservationLaw::Information => "Memories cannot be silently lost"@,
        ConservationLaw::Symmetry => "Agent identity is preserved through transforms"@,
    }
}

/// Each law is named after what it conserves, followed by "Conservation".
pub proof fn lemma_law_names()
    ensures
        law_name(ConservationLaw::Energy) == "Energy Conservation"@,
        law_name(ConservationLaw::Momentum) == "Momentum Conservation"@,
        law_name(ConservationLaw::Entropy) == "Entropy Conservation"@,
        law_name(ConservationLaw::Information) == "Information Conservation"@,
        law_name(ConservationLaw::Symmetry) == "Symmetry Conservation"@,
        law_description(ConservationLaw::Energy) == "Total decision energy is finite per cycle"@,
        law_description(ConservationLaw::Momentum) == "Agents resist sudden priority flips"@,
        law_description(ConservationLaw::Entropy) == "Novelty seeking is bounded to prevent thrashing"@,
        law_description(ConservationLaw::Information) == "Memories cannot be silently lost"@,
        law_description(ConservationLaw::Symmetry) == "Agent identity is preserved through transforms"@,
{
}

impl ConservationLaw {
    /// All five laws, in order.
    pub const ALL: [ConservationLaw; 5] = [
        ConservationLaw::Energy,
        ConservationLaw::Momentum,
        ConservationLaw::Entropy,
        ConservationLaw::Information,
        ConservationLaw::Symmetry,
    ];

    /// The law's display name.
    pub fn name(&self) -> (s: &'static str)
        ensures
            s@ == law_name(*self),
            s@.len() > 0,
    {
        proof {
            reveal_strlit("Energy Conservation");
            reveal_strlit("Momentum Conservation");
            reveal_strlit("Entropy Conservation");
            reveal_strlit("Information Conservation");
            reveal_strlit("Symmetry Conservation");
        }
        match self {
            ConservationLaw::Energy => "Energy Conservation",
            ConservationLaw::Momentum => "Momentum Conservation",
            ConservationLaw::Entropy => "Entropy Conservation",
            ConservationLaw::Information => "Information Conservation",
            ConservationLaw::Symmetry => "Symmetry Conservation",
        }
    }

    /// The law's one-line description.
    pub fn description(&self) -> (s: &'static str)
        ensures
            s@ == law_description(*self),
            s@.len() > 0,
    {
        proof {
            reveal_strlit("Total decision energy is finite per cycle");
            reveal_strlit("Agents resist sudden priority flips");
            reveal_strlit("Novelty seeking is bounded to prevent thrashing");
            reveal_strlit("Memories cannot be silently lost");
            reveal_strlit("Agent identity is preserved through transforms");
        }
        match self {
            ConservationLaw::Energy => "Total decision energy is finite per cycle",
            ConservationLaw::Momentum => "Agents resist sudden priority flips",
            ConservationLaw::Entropy => "Novelty seeking is bounded to prevent thrashing",
            ConservationLaw::Information => "Memories cannot be silently lost",
            ConservationLaw::Symmetry => "Agent identity is preserved through transforms",
        }
    }
}

/// Read-only summary of an agent's conservation state.
#[derive(Debug, Clone, PartialEq, Eq, Structural)]
pub struct ConservationSummary {
    pub energy_pct: u8,
    pub novelty_pct: u8,
    pub pruned_this_cycle: usize,
    pub violations: usize,
    pub energy_sufficient: bool,
    pub novelty_sufficient: bool,
}

} // verus!
