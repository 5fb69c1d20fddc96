//! Exocortex: the verified core of a cognitive substrate for multi-agent systems.
//!
//! The crate holds the decision, bookkeeping and text logic of the exocortex
//! agent framework, each function with a contract that Verus checks.
pub mod agent;
pub mod bus;
pub mod conservation;
pub mod keyed;
pub mod memory;
pub mod message;
pub mod resonance;
pub mod shadow;
pub mod space;
pub mod text;
pub mod types;

pub use types::{ComputeTier, Operation, Protocol, ResponseStatus};
pub use conservation::{ConservationLaw, ConservationSummary};
pub use message::MessageType;
pub use agent::DecisionDenialReason;
pub use space::SpaceError;
pub use bus::BusStats;
pub use memory::{MemoryStats, MemoryTickStats};
pub use resonance::{ResonancePruneStats, ResonanceStats};
