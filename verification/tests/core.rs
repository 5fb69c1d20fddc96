use exocortex::types::{generate_id, generate_trace_id};
use exocortex::{ComputeTier, ConservationLaw, Operation};

#[test]
fn test_operation_enum() {
    assert_eq!(Operation::ALL.len(), 8);
    assert_eq!(Operation::Embed.as_str(), "embed");
    assert_eq!(Operation::Train.as_str(), "train");
}

#[test]
fn test_operation_from_str() {
    assert_eq!(Operation::from_str("embed"), Ok(Operation::Embed));
    assert_eq!(Operation::from_str("invalid"), Err(()));
}

#[test]
fn test_operation_compute_tier() {
    assert_eq!(Operation::Embed.compute_tier(), ComputeTier::Hot);
    assert_eq!(Operation::Predict.compute_tier(), ComputeTier::Warm);
    assert_eq!(Operation::Train.compute_tier(), ComputeTier::Batch);
}

#[test]
fn test_conservation_laws() {
    assert_eq!(ConservationLaw::ALL.len(), 5);

    for law in &ConservationLaw::ALL {
        assert!(!law.name().is_empty());
        assert!(!law.description().is_empty());
    }
}

#[test]
fn generated_ids_are_lowercase_hex() {
    let mut state: u64 = 0;
    let id = generate_id(&mut state);
    assert_eq!(id.len(), 16);
    assert!(id.chars().all(|c| c.is_ascii_hexdigit() && !c.is_ascii_uppercase()));
    assert_ne!(state, 0);
    let trace = generate_trace_id(&mut state);
    assert_eq!(trace.len(), 12);
    assert!(trace.chars().all(|c| c.is_ascii_hexdigit() && !c.is_ascii_uppercase()));
}

use exocortex::bus::EventBus;
use exocortex::memory::{tags_match, Tier, TierStore, LRU_MAX};
use exocortex::resonance::{
    push_bounded, AgentLogs, ResonanceStats, MAX_LEARNING_PER_AGENT, MAX_QUERIES_PER_AGENT,
};
use exocortex::shadow::{classify_color, render_glyph, ConfidenceBand, ShadowColor};
use exocortex::types::{payload_get, ID_SEED_MIX};
use exocortex::{MessageType, Protocol, ResponseStatus};

#[test]
fn operation_names_round_trip() {
    for op in Operation::ALL.iter() {
        assert_eq!(Operation::from_str(op.as_str()), Ok(*op));
        assert_eq!(op.as_str().parse::<Operation>(), Ok(*op));
    }
    assert!("Embed".parse::<Operation>().is_err());
    assert!("".parse::<Operation>().is_err());
}

#[test]
fn names_of_tiers_protocols_and_statuses() {
    assert_eq!(ComputeTier::Hot.as_str(), "hot");
    assert_eq!(ComputeTier::Warm.as_str(), "warm");
    assert_eq!(ComputeTier::Batch.as_str(), "batch");
    assert_eq!(Protocol::A2a.as_str(), "a2a");
    assert_eq!(Protocol::Tap.as_str(), "tap");
    assert_eq!(ResponseStatus::Success.as_str(), "ok");
    assert_eq!(ResponseStatus::Partial.as_str(), "partial");
    assert_eq!(MessageType::Conservation.as_str(), "conservation");
    assert_eq!(MessageType::default(), MessageType::Direct);
}

#[test]
fn ids_follow_the_generator_from_a_seed() {
    let mut state: u64 = ID_SEED_MIX;
    assert_eq!(generate_id(&mut state), "18c85cbd121d20f6");
    assert_eq!(state, 0x361b6473a57511fd);
    assert_eq!(generate_id(&mut state), "d717a8ea95533490");
    assert_eq!(generate_trace_id(&mut state), "0c59a07f954b");

    let mut other: u64 = ID_SEED_MIX;
    assert_eq!(generate_trace_id(&mut other), "18c85cbd121d");
    assert_eq!(other, 0x361b6473a57511fd);

    let mut seeded: u64 = 12345 ^ ID_SEED_MIX;
    assert_eq!(generate_id(&mut seeded), "2d2a6ea365b74035");
}

#[test]
fn successive_ids_differ() {
    let mut state: u64 = 0;
    let first = generate_id(&mut state);
    let second = generate_id(&mut state);
    let third = generate_id(&mut state);
    assert_ne!(first, second);
    assert_ne!(second, third);
}

#[test]
fn payload_get_returns_first_match() {
    let payload = vec![
        ("dims".to_string(), "384".to_string()),
        ("model".to_string(), "m1".to_string()),
        ("dims".to_string(), "768".to_string()),
    ];
    assert_eq!(payload_get(&payload, "dims"), Some("384"));
    assert_eq!(payload_get(&payload, "model"), Some("m1"));
    assert_eq!(payload_get(&payload, "missing"), None);
    assert_eq!(payload_get(&Vec::new(), "dims"), None);
}

#[test]
fn test_classify_anomaly_red() {
    assert_eq!(classify_color("anomaly", ConfidenceBand::High), ShadowColor::Red);
}

#[test]
fn test_classify_dream_purple() {
    assert_eq!(classify_color("dream", ConfidenceBand::High), ShadowColor::Purple);
}

#[test]
fn test_classify_predict_confidence() {
    assert_eq!(classify_color("predict", ConfidenceBand::High), ShadowColor::Green);
    assert_eq!(classify_color("predict", ConfidenceBand::Medium), ShadowColor::Yellow);
    assert_eq!(classify_color("predict", ConfidenceBand::Low), ShadowColor::Red);
}

#[test]
fn classify_other_types() {
    assert_eq!(classify_color("train", ConfidenceBand::Low), ShadowColor::Yellow);
    assert_eq!(classify_color("analyze", ConfidenceBand::Low), ShadowColor::Magenta);
    assert_eq!(classify_color("agent_connect", ConfidenceBand::Low), ShadowColor::Blue);
    assert_eq!(classify_color("something", ConfidenceBand::Low), ShadowColor::Blue);
    assert_eq!(ShadowColor::Magenta.as_str(), "magenta");
}

#[test]
fn test_render_embed() {
    let payload = vec![("dims".to_string(), "384".to_string())];
    let glyph = render_glyph("embed", &payload, "100");
    assert!(glyph.contains("🧮"));
    assert_eq!(glyph, "🧮 embed (384)");
    assert_eq!(classify_color("embed", ConfidenceBand::High), ShadowColor::Blue);
}

#[test]
fn test_render_anomaly() {
    let payload = vec![("detail".to_string(), "temp spike".to_string())];
    let glyph = render_glyph("anomaly", &payload, "100");
    assert!(glyph.contains("⚠️"));
    assert_eq!(glyph, "⚠️ anomaly: temp spike");
    assert_eq!(classify_color("anomaly", ConfidenceBand::High), ShadowColor::Red);
}

#[test]
fn render_glyph_defaults_and_fallbacks() {
    let empty: Vec<(String, String)> = Vec::new();
    assert_eq!(render_glyph("predict", &empty, "92"), "🧠 predict (92% conf)");
    assert_eq!(render_glyph("analyze", &empty, "0"), "📊 analysis");
    assert_eq!(render_glyph("resonance", &empty, "0"), "⚡ resonance: ? ↔ ?");
    assert_eq!(render_glyph("agent_connect", &empty, "0"), "📡 agent joined");
    assert_eq!(render_glyph("custom", &empty, "0"), "• custom");
    let ids = vec![
        ("source_agent".to_string(), "a".to_string()),
        ("target_agent".to_string(), "b".to_string()),
    ];
    assert_eq!(render_glyph("resonance", &ids, "0"), "⚡ resonance: a ↔ b");
}

#[test]
fn test_publish_and_dispatch() {
    let mut bus: EventBus<&str, u8> = EventBus::new();
    bus.publish(-500, 1, "test");
    bus.publish(-500, 2, "test2");
    assert_eq!(bus.pending(), 2);
    let dispatched = bus.dispatch_all();
    assert_eq!(dispatched.len(), 2);
    assert_eq!(bus.pending(), 0);
    assert_eq!(bus.stats().dispatched, 2);
}

#[test]
fn test_backpressure() {
    let mut bus: EventBus<&str, u8> = EventBus::with_capacity(5);
    for i in 0..5u64 {
        assert!(bus.publish(-500, i, "test"));
    }
    assert!(!bus.publish(-500, 9, "overflow"));
    let stats = bus.stats();
    assert_eq!(stats.published, 5);
    assert_eq!(stats.dropped, 1);
    assert_eq!(stats.pending, 5);
}

#[test]
fn test_priority_ordering() {
    let mut bus: EventBus<&str, u8> = EventBus::new();
    bus.publish(-100, 1, "low");
    bus.publish(-900, 2, "high");
    bus.publish(-500, 3, "mid");
    assert_eq!(bus.dispatch_all(), vec!["high", "mid", "low"]);
}

#[test]
fn bus_ties_leave_earliest_first_and_dispatch_some_stops() {
    let mut bus: EventBus<&str, u8> = EventBus::new();
    bus.publish(-500, 30, "late");
    bus.publish(-500, 10, "early");
    bus.publish(-500, 20, "middle");
    assert_eq!(bus.dispatch_some(2), vec!["early", "middle"]);
    assert_eq!(bus.pending(), 1);
    assert_eq!(bus.dispatch_some(5), vec!["late"]);
    assert!(bus.is_empty());
    bus.subscribe(1);
    bus.subscribe(2);
    bus.subscribe(3);
    assert_eq!(bus.stats().subscribers, 3);
    assert_eq!(bus.subscriber_list(), &vec![1, 2, 3]);
}

#[test]
fn bus_renders_first_five_events_of_a_trace() {
    let mut bus: EventBus<&str, u8> = EventBus::new();
    for _ in 0..5 {
        assert!(bus.should_render("t1"));
    }
    assert!(!bus.should_render("t1"));
    assert!(bus.should_render("t2"));
}

#[test]
fn bus_counts_every_publish_and_render_check() {
    let mut bus: EventBus<u32, u8> = EventBus::with_capacity(2);
    let mut publishes = 0u64;
    for i in 0..4u32 {
        bus.publish(0, i as u64, i);
        publishes += 1;
    }
    bus.dispatch_all();
    bus.publish(0, 9, 9);
    publishes += 1;
    let s = bus.stats();
    assert_eq!(s.published + s.dropped, publishes);
    assert_eq!((s.published, s.dropped, s.dispatched, s.pending), (3, 2, 2, 1));
    for k in 1..=7 {
        assert_eq!(bus.should_render("t"), k <= 5);
        if k % 2 == 0 {
            assert!(bus.should_render("other"));
        }
    }
    assert!(bus.should_render("other"));
    assert!(bus.should_render("other"));
    assert!(!bus.should_render("other"));
}

/// A memory as the tests keep it: content, tags, last reinforcement time and
/// confidence, with the tier thresholds the memory layer uses.
#[derive(Clone, Debug, PartialEq)]
struct Mem {
    content: String,
    tags: Vec<String>,
    last_reinforced: f64,
    confidence: f64,
}

const NOW: f64 = 1_700_000_000.0;

impl Mem {
    fn new(content: &str, tags: &[&str]) -> Mem {
        Mem {
            content: content.to_string(),
            tags: tags.iter().map(|t| t.to_string()).collect(),
            last_reinforced: NOW,
            confidence: 1.0,
        }
    }

    fn effective_confidence(&self) -> f64 {
        let age_days = (NOW - self.last_reinforced) / 86400.0;
        self.confidence * 0.5f64.powf(age_days / 30.0)
    }
}

fn remember(store: &mut TierStore<Mem, u8>, id: &str, content: &str, tags: &[&str]) {
    let m = Mem::new(content, tags);
    store.remember(id.to_string(), m.clone(), m, 0);
}

/// One cooling cycle with the memory layer's selection rules.
fn cooling_cycle(store: &mut TierStore<Mem, u8>) -> exocortex::memory::MemoryTickStats {
    let hot = store.tier(Tier::Hot);
    let to_cool: Vec<String> = (0..hot.len())
        .filter(|&i| NOW - hot.value_at(i).last_reinforced > 60.0)
        .map(|i| hot.key_at(i).to_string())
        .collect();
    let warm = store.tier(Tier::Warm);
    let to_archive: Vec<String> = (0..warm.len())
        .filter(|&i| {
            let e = warm.value_at(i);
            NOW - e.last_reinforced > 24.0 * 3600.0 || e.effective_confidence() < 0.1
        })
        .map(|i| warm.key_at(i).to_string())
        .collect();
    let cold = store.tier(Tier::Cold);
    let mut to_prune: Vec<String> = (0..cold.len())
        .filter(|&i| !to_archive.iter().any(|id| id == cold.key_at(i)))
        .filter(|&i| cold.value_at(i).effective_confidence() < 0.05)
        .map(|i| cold.key_at(i).to_string())
        .collect();
    for id in &to_archive {
        if warm.get(id).unwrap().effective_confidence() < 0.05 {
            to_prune.push(id.clone());
        }
    }
    store.tick(&to_cool, &to_archive, &to_prune)
}

fn age(store: &mut TierStore<Mem, u8>, tier: Tier, id: &str, by: f64, confidence: f64) {
    let i = store.tier(tier).index_of(id).unwrap();
    let e = store.entry_mut(tier, i);
    e.last_reinforced = NOW - by;
    e.confidence = confidence;
}

#[test]
fn test_tag_query() {
    let mut store: TierStore<Mem, u8> = TierStore::new();
    remember(&mut store, "g", "garden data", &["garden", "iot"]);
    remember(&mut store, "d", "dev data", &["devops"]);
    let warm = store.tier(Tier::Warm);
    let results: Vec<&Mem> = (0..warm.len())
        .map(|i| warm.value_at(i))
        .filter(|e| tags_match(&e.tags, &["garden"]))
        .collect();
    assert_eq!(results.len(), 1);
    assert_eq!(results[0].content, "garden data");
    assert!(!tags_match(&Vec::new(), &["garden"]));
}

#[test]
fn test_stats() {
    let mut store: TierStore<Mem, u8> = TierStore::new();
    remember(&mut store, "1", "m1", &[]);
    remember(&mut store, "2", "m2", &[]);
    remember(&mut store, "3", "m3", &[]);
    let stats = store.stats();
    assert!(stats.total >= 3);
    assert_eq!((stats.hot, stats.warm, stats.cold, stats.total), (3, 3, 0, 6));
    assert_eq!(store.get("2").unwrap().content, "m2");
}

#[test]
fn test_tick_cooling() {
    let mut store: TierStore<Mem, u8> = TierStore::new();
    remember(&mut store, "old", "old memory", &[]);
    age(&mut store, Tier::Warm, "old", 86400.0 * 2.0, 1.0);
    let stats = cooling_cycle(&mut store);
    assert!(stats.cooled_to_cold >= 1);
    assert_eq!((stats.hot, stats.warm, stats.cold), (1, 0, 1));
    assert_eq!(stats.total, store.total());
}

#[test]
fn test_recall_and_reinforce_reheats_to_hot() {
    let mut store: TierStore<Mem, u8> = TierStore::new();
    remember(&mut store, "id", "fact", &[]);
    age(&mut store, Tier::Warm, "id", 70.0, 1.0);
    age(&mut store, Tier::Hot, "id", 70.0, 1.0);
    let tick_stats = cooling_cycle(&mut store);
    assert!(tick_stats.cooled_to_warm >= 1);
    assert!(!store.tier(Tier::Hot).contains_key("id"));
    assert!(store.tier(Tier::Warm).contains_key("id"));

    // Reinforcing bumps the entry where the lookup finds it, then reheats it.
    let tier = store.locate("id").unwrap();
    let i = store.tier(tier).index_of("id").unwrap();
    store.entry_mut(tier, i).last_reinforced = NOW + 5.0;
    assert_eq!(store.reheat_if_cooled("id"), Some(Tier::Warm));
    assert!(store.tier(Tier::Hot).contains_key("id"));
    assert_eq!(store.get("id").unwrap().last_reinforced, NOW + 5.0);
    assert_eq!(store.hot_order().last().unwrap(), "id");
    assert_eq!(store.reheat_if_cooled("id"), Some(Tier::Hot));
    assert_eq!(store.hot_order().len(), 1);
    assert_eq!(store.reheat_if_cooled("nowhere"), None);
}

#[test]
fn test_tick_prunes_decayed_cold_memories() {
    let mut store: TierStore<Mem, u8> = TierStore::new();
    remember(&mut store, "e", "ephemeral", &[]);
    // Into the cold tier (warm and hot copies leave), then decay it.
    store.tick(&vec!["e".to_string()], &vec!["e".to_string()], &vec![]);
    age(&mut store, Tier::Cold, "e", 86400.0 * 365.0, 0.01);
    let before = store.total();
    assert!(store.tier(Tier::Cold).contains_key("e"));
    let prune_stats = cooling_cycle(&mut store);
    assert!(prune_stats.pruned >= 1);
    assert_eq!(store.total(), before - prune_stats.pruned);
    assert!(store.get("e").is_none());
    assert!(!store.embeddings().contains_key("e"));
}

#[test]
fn test_get_mut_updates_are_visible_via_get() {
    let mut store: TierStore<String, u8> = TierStore::new();
    store.remember("id".to_string(), "orig".to_string(), "orig".to_string(), 0);
    let i = store.tier(Tier::Hot).index_of("id").unwrap();
    *store.entry_mut(Tier::Hot, i) = "edited".to_string();
    assert_eq!(store.get("id").map(|s| s.as_str()), Some("edited"));
}

#[test]
fn hot_tier_evicts_oldest_beyond_its_limit() {
    let mut store: TierStore<usize, u8> = TierStore::new();
    for i in 0..(LRU_MAX + 1) {
        store.remember(format!("m{}", i), i, i, 0);
    }
    assert_eq!(store.stats().hot, LRU_MAX);
    assert_eq!(store.stats().warm, LRU_MAX + 1);
    assert!(!store.tier(Tier::Hot).contains_key("m0"));
    assert_eq!(store.get("m0"), Some(&0));
    assert_eq!(store.hot_order().len(), LRU_MAX);
    assert_eq!(store.hot_order()[0], "m1");
}

#[test]
fn cooling_cycle_total_drops_by_cooled_and_pruned() {
    let mut store: TierStore<&str, u8> = TierStore::new();
    store.remember("a".to_string(), "a", "a", 0);
    store.remember("b".to_string(), "b", "b", 0);
    store.remember("c".to_string(), "c", "c", 0);
    let before = store.total();
    assert_eq!(before, 6);
    let cooled = store.cool(&vec!["a".to_string(), "b".to_string()]);
    let moved = store.archive(&vec!["a".to_string(), "b".to_string()]);
    let pruned = store.prune(&vec!["a".to_string()]);
    assert_eq!((cooled, moved, pruned), (2, 2, 1));
    assert_eq!(store.total(), before - cooled - pruned);
    let r = store.tick_stats(cooled, moved, pruned);
    assert_eq!((r.hot, r.warm, r.cold, r.total), (1, 1, 1, 3));
}

#[test]
fn remember_fills_hot_up_to_its_limit() {
    let mut store: TierStore<usize, u8> = TierStore::new();
    for i in 0..LRU_MAX {
        let before = store.stats().hot;
        store.remember(format!("k{}", i), i, i, 0);
        assert_eq!(store.stats().hot, (before + 1).min(LRU_MAX));
    }
    store.remember("again".to_string(), 1, 1, 0);
    assert_eq!(store.stats().hot, LRU_MAX);
    store.remember("again".to_string(), 2, 2, 0);
    assert_eq!(store.stats().hot, LRU_MAX);
}

#[test]
fn test_record_learning() {
    let mut learnings: AgentLogs<(&str, f64)> = AgentLogs::new(MAX_LEARNING_PER_AGENT);
    let queries: AgentLogs<(&str, f64)> = AgentLogs::new(MAX_QUERIES_PER_AGENT);
    let mut stats = ResonanceStats::default();
    learnings.record("agent-a", ("learned about rust", NOW));
    stats.count_learning();
    // No queries to match against.
    assert!(queries.other_agents("agent-a").is_empty());
    assert_eq!(stats.learnings_tracked, 1);
    assert_eq!(learnings.logs.len(), 1);
}

#[test]
fn test_no_self_resonance() {
    let mut queries: AgentLogs<(&str, f64)> = AgentLogs::new(MAX_QUERIES_PER_AGENT);
    queries.record("agent-a", ("query", NOW));
    // A learning by agent-a is matched against no log: its own is left out.
    assert!(queries.other_agents("agent-a").is_empty());
    queries.record("agent-b", ("query", NOW));
    assert_eq!(queries.other_agents("agent-a"), vec![1]);
}

#[test]
fn test_prune_stale() {
    let mut learnings: AgentLogs<(&str, f64)> = AgentLogs::new(MAX_LEARNING_PER_AGENT);
    let mut queries: AgentLogs<(&str, f64)> = AgentLogs::new(MAX_QUERIES_PER_AGENT);
    learnings.record("a", ("content", NOW - 3600.0 * 2.0));
    queries.record("a", ("query", NOW - 3600.0 * 2.0));
    learnings.record("b", ("fresh", NOW));
    learnings.record("b", ("stale", NOW - 3600.0 * 2.0));

    let flags = |logs: &AgentLogs<(&str, f64)>| -> Vec<Vec<bool>> {
        (0..logs.logs.len())
            .map(|i| logs.logs.value_at(i).iter().map(|e| NOW - e.1 < 3600.0).collect())
            .collect()
    };
    let keep_l = flags(&learnings);
    let keep_q = flags(&queries);
    let learnings_pruned = learnings.retain_all(&keep_l);
    let queries_pruned = queries.retain_all(&keep_q);
    assert!(learnings_pruned > 0);
    assert!(queries_pruned > 0);
    assert_eq!((learnings_pruned, queries_pruned), (2, 1));
    assert!(learnings.logs.get("a").is_none());
    assert_eq!(learnings.logs.get("b").unwrap(), &vec![("fresh", NOW)]);
    assert_eq!(queries.logs.len(), 0);
}

#[test]
fn logs_keep_the_latest_items() {
    let mut logs: AgentLogs<u32> = AgentLogs::new(3);
    for i in 0..5 {
        logs.record("a", i);
    }
    assert_eq!(logs.logs.get("a").unwrap(), &vec![2, 3, 4]);
    let mut v = vec![1, 2];
    push_bounded(&mut v, 3, 2);
    assert_eq!(v, vec![2, 3]);
    assert_eq!(exocortex::resonance::last_n(&vec![1, 2, 3], 2), &[2, 3]);
    assert_eq!(exocortex::resonance::last_n(&vec![1, 2, 3], 10), &[1, 2, 3]);
}

#[test]
fn payload_read_after_write() {
    let mut payload = vec![("a".to_string(), "1".to_string())];
    payload.push(("b".to_string(), "2".to_string()));
    assert_eq!(payload_get(&payload, "b"), Some("2"));
    payload.push(("a".to_string(), "3".to_string()));
    assert_eq!(payload_get(&payload, "a"), Some("1"));
}

#[test]
fn bus_accounts_for_every_accepted_event() {
    let mut bus: EventBus<u32, u8> = EventBus::with_capacity(3);
    for i in 0..4u32 {
        bus.publish(-(i as i64), i as u64, i);
    }
    bus.dispatch_some(1);
    let stats = bus.stats();
    assert_eq!(stats.published, 3);
    assert_eq!(stats.dropped, 1);
    assert_eq!(stats.published, stats.dispatched + stats.pending);
}

#[test]
fn test_shadow_render_embed() {
    let payload = vec![("dims".to_string(), "384".to_string())];
    assert!(render_glyph("embed", &payload, "100").contains("🧮"));
    assert_eq!(classify_color("embed", ConfidenceBand::High), ShadowColor::Blue);
}

#[test]
fn test_shadow_render_anomaly() {
    let payload = vec![("detail".to_string(), "spike".to_string())];
    assert!(render_glyph("anomaly", &payload, "100").contains("⚠️"));
    assert_eq!(classify_color("anomaly", ConfidenceBand::High), ShadowColor::Red);
}

#[test]
fn test_cortical_bus_basic() {
    let mut bus: EventBus<&str, u8> = EventBus::new();
    bus.publish(-500, 1, "test");
    bus.publish(-500, 2, "test2");
    assert_eq!(bus.pending(), 2);
    assert_eq!(bus.dispatch_all().len(), 2);
    assert_eq!(bus.pending(), 0);
}

#[test]
fn test_cortical_bus_backpressure() {
    let mut bus: EventBus<&str, u8> = EventBus::with_capacity(5);
    for i in 0..5u64 {
        assert!(bus.publish(-500, i, "test"));
    }
    assert!(!bus.publish(-500, 5, "overflow"));
    assert_eq!(bus.stats().dropped, 1);
}

#[test]
fn test_cortical_bus_priority() {
    let mut bus: EventBus<&str, u8> = EventBus::new();
    bus.publish(-100, 1, "low");
    bus.publish(-900, 2, "high");
    bus.publish(-500, 3, "mid");
    assert_eq!(bus.stats().pending, 3);
    assert_eq!(bus.dispatch_some(1), vec!["high"]);
}

#[test]
fn test_memory_store_tag_query() {
    let entries = vec![
        vec!["rust".to_string(), "code".to_string()],
        vec!["python".to_string(), "code".to_string()],
        vec!["rust".to_string(), "essay".to_string()],
    ];
    let rust = entries.iter().filter(|t| tags_match(t, &["rust"])).count();
    assert_eq!(rust, 2);
    let code = entries.iter().filter(|t| tags_match(t, &["code"])).count();
    assert_eq!(code, 2);
}

#[test]
fn test_memory_store_stats() {
    let mut store: TierStore<&str, u8> = TierStore::new();
    store.remember("m1".to_string(), "m1", "m1", 0);
    store.remember("m2".to_string(), "m2", "m2", 0);
    store.remember("m3".to_string(), "m3", "m3", 0);
    assert!(store.stats().total >= 3);
}

#[test]
fn test_resonance_no_self_resonance() {
    let mut queries: AgentLogs<&str> = AgentLogs::new(20);
    queries.record("a", "query");
    assert!(queries.other_agents("a").is_empty());
}

#[test]
fn test_message_expects_response() {
    assert!(MessageType::Query.expects_response());
    assert!(!MessageType::Direct.expects_response());
}

#[test]
fn bus_reports_how_often_a_trace_was_checked() {
    let mut bus: EventBus<u32, u8> = EventBus::new();
    assert_eq!(bus.checks_of("t"), 0);
    bus.should_render("t");
    bus.should_render("t");
    bus.should_render("u");
    assert_eq!(bus.checks_of("t"), 2);
    assert_eq!(bus.checks_of("u"), 1);
}

#[test]
fn tick_keeps_the_total_law_for_any_ids() {
    let mut store: TierStore<&str, u8> = TierStore::new();
    store.remember("a".to_string(), "a", "a", 0);
    store.remember("b".to_string(), "b", "b", 0);
    let before = store.total();
    let ids = vec!["a".to_string(), "a".to_string(), "zz".to_string()];
    let r = store.tick(&ids, &ids, &ids);
    assert_eq!((r.cooled_to_warm, r.cooled_to_cold, r.pruned), (1, 1, 1));
    assert_eq!(store.total(), before - r.cooled_to_warm - r.pruned);
    assert_eq!((r.hot, r.warm, r.cold, r.total), (1, 1, 0, 2));
}
