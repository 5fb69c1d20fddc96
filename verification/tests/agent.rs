use exocortex::agent::{
    add_capabilities, add_capability, has_capability, screen_decision, ConservationChecks,
};
use exocortex::message::{rank_of_bits, RankedQueue};
use exocortex::space::{Registry, Space};
use exocortex::{DecisionDenialReason, Operation, SpaceError};

#[test]
fn capabilities_are_added_once() {
    let mut caps = Vec::new();
    add_capability(&mut caps, Operation::Remember);
    add_capability(&mut caps, Operation::Recall);
    add_capability(&mut caps, Operation::Remember);
    assert_eq!(caps, vec![Operation::Remember, Operation::Recall]);
    add_capabilities(&mut caps, &[Operation::Predict, Operation::Recall, Operation::Predict]);
    assert_eq!(caps, vec![Operation::Remember, Operation::Recall, Operation::Predict]);
    assert!(has_capability(&caps, Operation::Predict));
    assert!(!has_capability(&caps, Operation::Train));
}

#[test]
fn test_agent_decision_denied_missing_capability() {
    let caps = vec![Operation::Remember];
    assert_eq!(
        screen_decision(Operation::Train, &caps, checks(true, true, true, true, true)),
        Some(DecisionDenialReason::MissingCapability(Operation::Train))
    );
}

fn checks(
    affordable: bool,
    momentum_kept: bool,
    novelty_available: bool,
    information_kept: bool,
    identity_kept: bool,
) -> ConservationChecks {
    ConservationChecks { affordable, momentum_kept, novelty_available, information_kept, identity_kept }
}

#[test]
fn decisions_are_screened_in_order() {
    let caps = vec![Operation::Predict];
    assert_eq!(screen_decision(Operation::Predict, &caps, checks(true, true, true, true, true)), None);
    assert_eq!(
        screen_decision(Operation::Predict, &caps, checks(false, false, false, false, false)),
        Some(DecisionDenialReason::EnergyExhausted)
    );
    assert_eq!(
        screen_decision(Operation::Predict, &caps, checks(true, false, false, false, false)),
        Some(DecisionDenialReason::MomentumViolation)
    );
    assert_eq!(
        screen_decision(Operation::Predict, &caps, checks(true, true, false, false, false)),
        Some(DecisionDenialReason::NoveltyExhausted)
    );
    assert_eq!(
        screen_decision(Operation::Predict, &caps, checks(true, true, true, false, false)),
        Some(DecisionDenialReason::InformationLossExceeded)
    );
    assert_eq!(
        screen_decision(Operation::Predict, &caps, checks(true, true, true, true, false)),
        Some(DecisionDenialReason::IdentityDriftExceeded)
    );
    assert_eq!(
        screen_decision(Operation::Embed, &caps, checks(false, false, false, false, false)),
        Some(DecisionDenialReason::MissingCapability(Operation::Embed))
    );
}

#[test]
fn every_law_alone_denies_a_capable_decision() {
    let caps = vec![Operation::Remember];
    let cases = [
        (checks(false, true, true, true, true), DecisionDenialReason::EnergyExhausted),
        (checks(true, false, true, true, true), DecisionDenialReason::MomentumViolation),
        (checks(true, true, false, true, true), DecisionDenialReason::NoveltyExhausted),
        (checks(true, true, true, false, true), DecisionDenialReason::InformationLossExceeded),
        (checks(true, true, true, true, false), DecisionDenialReason::IdentityDriftExceeded),
    ];
    for (c, reason) in cases {
        assert_eq!(screen_decision(Operation::Remember, &caps, c), Some(reason));
    }
}

#[test]
fn denial_reasons_explain_themselves() {
    assert_eq!(
        DecisionDenialReason::MissingCapability(Operation::Train).to_string(),
        "agent lacks capability: train"
    );
    assert_eq!(
        DecisionDenialReason::EnergyExhausted.to_string(),
        "energy conservation law violated: budget exhausted"
    );
    assert_eq!(
        DecisionDenialReason::MomentumViolation.to_string(),
        "momentum conservation law violated: priority shift too large"
    );
    assert_eq!(
        SpaceError::AgentNotFound("ghost".to_string()).to_string(),
        "agent not found: ghost"
    );
    assert_eq!(
        SpaceError::ConservationViolation("x".to_string()).to_string(),
        "conservation violation: x"
    );
}

#[test]
fn test_message_priority_queue() {
    let mut q = RankedQueue::new();
    q.push(100, "low");
    q.push(900, "high");
    q.push(500, "mid");
    assert_eq!(q.pop(), Some("high"));
    assert_eq!(q.pop(), Some("mid"));
    assert_eq!(q.pop(), Some("low"));
    assert_eq!(q.pop(), None);
}

#[test]
fn test_queue_backpressure() {
    let mut q = RankedQueue::with_capacity(3);
    assert!(q.push(100, "1"));
    assert!(q.push(500, "2"));
    assert!(q.push(900, "3"));
    assert!(q.push(700, "4"));
    assert_eq!(q.len(), 3);
    assert_eq!(q.pop(), Some("3"));
    assert_eq!(q.pop(), Some("4"));
    assert_eq!(q.pop(), Some("2"));
}

#[test]
fn test_peek_returns_highest_priority_without_removing() {
    let mut q = RankedQueue::new();
    assert!(q.peek().is_none());
    q.push(100, "low");
    q.push(900, "high");
    q.push(500, "mid");
    assert_eq!(q.peek(), Some(&"high"));
    assert_eq!(q.len(), 3);
    assert_eq!(q.peek(), Some(&"high"));
    assert_eq!(q.len(), 3);
}

#[test]
fn test_clear_empties_queue() {
    let mut q = RankedQueue::new();
    q.push(500, "a");
    q.push(500, "b");
    assert_eq!(q.len(), 2);
    q.clear();
    assert!(q.is_empty());
    assert_eq!(q.len(), 0);
    assert!(q.pop().is_none());
}

#[test]
fn test_with_capacity_zero_drops_everything() {
    let mut q = RankedQueue::with_capacity(0);
    assert!(!q.push(500, "first"));
    assert!(q.is_empty());
}

#[test]
fn test_with_capacity_one_evicts_on_push() {
    let mut q = RankedQueue::with_capacity(1);
    assert!(q.push(100, "low"));
    assert!(q.push(900, "high"));
    assert_eq!(q.len(), 1);
    assert_eq!(q.pop(), Some("high"));
}

#[test]
fn equal_ranks_pop_earliest_and_peek_latest() {
    let mut q = RankedQueue::new();
    q.push(500, "first");
    q.push(500, "second");
    q.push(100, "low");
    assert_eq!(q.peek(), Some(&"second"));
    assert_eq!(q.pop(), Some("first"));
    let mut full = RankedQueue::with_capacity(2);
    full.push(100, "a");
    full.push(100, "b");
    full.push(50, "c");
    assert_eq!(full.pop(), Some("b"));
    assert_eq!(full.pop(), Some("c"));
}

#[test]
fn test_register_and_get() {
    let mut space: Registry<u32> = Registry::new();
    assert!(space.register("a1".to_string(), 1));
    assert_eq!(space.get("a1"), Some(&1));
    assert!(space.get("nonexistent").is_none());
}

#[test]
fn test_duplicate_register() {
    let mut space: Registry<u32> = Registry::new();
    space.register("a1".to_string(), 1);
    assert!(!space.register("a1".to_string(), 2));
    assert_eq!(space.len(), 1);
    assert_eq!(space.get("a1"), Some(&1));
}

#[test]
fn test_deregister() {
    let mut space: Registry<u32> = Registry::new();
    space.register("a1".to_string(), 1);
    assert_eq!(space.deregister("a1"), Some(1));
    assert!(space.get("a1").is_none());
    assert!(space.deregister("a1").is_none());
    assert!(space.is_empty());
}

#[test]
fn deregister_moves_the_last_agent_into_the_gap() {
    let mut space: Registry<u32> = Registry::new();
    space.register("a".to_string(), 1);
    space.register("b".to_string(), 2);
    space.register("c".to_string(), 3);
    space.deregister("a");
    assert_eq!(space.id_at(0), "c");
    assert_eq!(space.id_at(1), "b");
    assert_eq!(space.get("b"), Some(&2));
}

#[test]
fn test_send_nonexistent() {
    let mut space: Registry<u32> = Registry::new();
    space.register("a1".to_string(), 0);
    assert_eq!(space.route("a1", "ghost"), Err(SpaceError::AgentNotFound("ghost".to_string())));
    assert_eq!(space.route("ghost", "a1"), Err(SpaceError::AgentNotFound("ghost".to_string())));
    assert_eq!(space.route("ghost", "nobody"), Err(SpaceError::AgentNotFound("ghost".to_string())));
}

#[test]
fn test_send_message() {
    let mut space: Registry<u32> = Registry::new();
    space.register("a1".to_string(), 0);
    space.register("a2".to_string(), 0);
    let to = space.route("a1", "a2").unwrap();
    assert_eq!(to, 1);
    *space.item_at_mut(to) += 1;
    assert_eq!(space.get("a2"), Some(&1));
    assert_eq!(space.get("a1"), Some(&0));
}

#[test]
fn test_broadcast() {
    let mut space: Registry<u32> = Registry::new();
    space.register("a1".to_string(), 0);
    space.register("a2".to_string(), 0);
    space.register("a3".to_string(), 0);
    let targets = space.recipients("a1").unwrap();
    assert_eq!(targets.len(), 2);
    assert_eq!(targets, vec![1, 2]);
    assert_eq!(space.recipients("a2").unwrap(), vec![0, 2]);
    assert!(space.recipients("ghost").is_err());
}

#[test]
fn remaining_denials_and_errors_explain_themselves() {
    assert_eq!(
        DecisionDenialReason::NoveltyExhausted.to_string(),
        "entropy conservation law violated: novelty budget exhausted"
    );
    assert_eq!(
        DecisionDenialReason::InformationLossExceeded.to_string(),
        "information conservation law violated: too many memories pruned"
    );
    assert_eq!(
        DecisionDenialReason::IdentityDriftExceeded.to_string(),
        "symmetry conservation law violated: identity drift exceeds threshold"
    );
    assert_eq!(
        SpaceError::CapabilityDenied("no train".to_string()).to_string(),
        "capability denied: no train"
    );
}

#[test]
fn test_agent_message_queue() {
    let mut q = RankedQueue::new();
    q.push(100, "low");
    q.push(900, "high");
    q.push(500, "medium");
    assert_eq!(q.len(), 3);
    assert_eq!(q.pop(), Some("high"));
    assert_eq!(q.pop(), Some("medium"));
    assert_eq!(q.pop(), Some("low"));
    assert!(q.is_empty());
}

#[test]
fn test_agent_message_queue_backpressure() {
    let mut q = RankedQueue::with_capacity(3);
    assert!(q.push(100, "1"));
    assert!(q.push(500, "2"));
    assert!(q.push(900, "3"));
    assert!(q.push(700, "4"));
    assert_eq!(q.pop(), Some("3"));
}

#[test]
fn test_space_register() {
    let mut space: Registry<u32> = Registry::new();
    assert!(space.is_empty());
    assert!(space.register("a1".to_string(), 0));
    assert_eq!(space.len(), 1);
    assert!(space.get("a1").is_some());
}

#[test]
fn test_space_duplicate_register() {
    let mut space: Registry<u32> = Registry::new();
    space.register("a1".to_string(), 0);
    assert!(!space.register("a1".to_string(), 0));
    assert_eq!(space.len(), 1);
}

#[test]
fn test_space_deregister() {
    let mut space: Registry<u32> = Registry::new();
    space.register("a1".to_string(), 0);
    assert!(space.deregister("a1").is_some());
    assert!(space.is_empty());
    assert!(space.deregister("a1").is_none());
}

#[test]
fn test_space_send_message() {
    let mut space: Registry<u32> = Registry::new();
    space.register("sender".to_string(), 0);
    space.register("receiver".to_string(), 0);
    let to = space.route("sender", "receiver");
    assert!(to.is_ok());
    assert_eq!(space.id_at(to.unwrap()), "receiver");
}

#[test]
fn test_space_send_nonexistent() {
    let mut space: Registry<u32> = Registry::new();
    space.register("a1".to_string(), 0);
    assert!(space.route("a1", "ghost").is_err());
    assert!(space.route("ghost", "a1").is_err());
}

#[test]
fn test_space_broadcast() {
    let mut space: Registry<u32> = Registry::new();
    for id in ["a1", "a2", "a3", "a4"] {
        space.register(id.to_string(), 0);
    }
    let targets = space.recipients("a1").unwrap();
    assert_eq!(targets.len(), 3);
    for &i in &targets {
        *space.item_at_mut(i) += 1;
    }
    assert_eq!(space.get("a2"), Some(&1));
    assert_eq!(space.get("a3"), Some(&1));
    assert_eq!(space.get("a4"), Some(&1));
    assert_eq!(space.get("a1"), Some(&0));
}

#[test]
fn test_space_agent_ids() {
    let mut space: Registry<u32> = Registry::new();
    space.register("alpha".to_string(), 0);
    space.register("beta".to_string(), 0);
    space.register("gamma".to_string(), 0);
    let ids: Vec<&str> = (0..space.len()).map(|i| space.id_at(i)).collect();
    assert_eq!(ids.len(), 3);
}

#[test]
fn ranks_of_bit_patterns_follow_float_order() {
    assert_eq!(rank_of_bits(0), 0x8000_0000_0000_0000);
    assert_eq!(rank_of_bits(0x8000_0000_0000_0000), 0x8000_0000_0000_0000);
    assert_eq!(rank_of_bits(0x8000_0000_0000_0001), 0x7fff_ffff_ffff_fffe);
    assert_eq!(rank_of_bits(u64::MAX), 0);
    assert_eq!(rank_of_bits((-0.0f64).to_bits()), rank_of_bits(0.0f64.to_bits()));
    let values = [-1.0e9f64, -2.5, -1.0e-300, 0.0, 0.1, 0.5, 0.9, 3.0, 1.0e9, f64::INFINITY];
    for w in values.windows(2) {
        assert!(rank_of_bits(w[0].to_bits()) < rank_of_bits(w[1].to_bits()));
    }
    assert!(rank_of_bits(f64::NEG_INFINITY.to_bits()) < rank_of_bits((-1.0e9f64).to_bits()));
}

#[test]
fn space_logs_one_event_per_successful_step() {
    let mut space: Space<u32, String> = Space::new();
    assert!(space.register("a".to_string(), 1, || "connect a".to_string()));
    assert!(space.register("b".to_string(), 2, || "connect b".to_string()));
    assert!(space.register("c".to_string(), 3, || "connect c".to_string()));
    assert!(!space.register("a".to_string(), 9, || panic!("no event for a refused registration")));
    assert_eq!(space.event_log().len(), 3);
    assert_eq!(space.agents().get("a"), Some(&1));

    assert_eq!(space.send("a", "b", || "routed a->b".to_string()), Ok(1));
    assert_eq!(space.event_log().last().unwrap(), "routed a->b");
    assert_eq!(
        space.send("x", "b", || panic!("no event for a failed send")),
        Err(SpaceError::AgentNotFound("x".to_string()))
    );
    assert_eq!(
        space.send("a", "y", || panic!("no event for a failed send")),
        Err(SpaceError::AgentNotFound("y".to_string()))
    );
    assert_eq!(space.event_log().len(), 4);

    let targets = space.broadcast("b", |n| format!("broadcast to {}", n)).unwrap();
    assert_eq!(targets, vec![0, 2]);
    assert_eq!(space.event_log().last().unwrap(), "broadcast to 2");
    assert!(space.broadcast("zz", |_| panic!("no event for a failed broadcast")).is_err());

    *space.agent_at_mut(2) += 10;
    assert_eq!(space.agents().get("c"), Some(&13));

    assert_eq!(space.deregister("a", || "disconnect a".to_string()), Some(1));
    assert_eq!(space.deregister("a", || panic!("no event for a missing agent")), None);
    assert_eq!(space.event_log().len(), 6);
    assert_eq!(space.agents().len(), 2);
}
