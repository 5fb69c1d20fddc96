use exocortex::conservation::ConservationLaw;
use exocortex::ConservationSummary;

#[test]
fn test_all_five_conservation_laws_exist() {
    let laws = ConservationLaw::ALL;
    assert_eq!(laws.len(), 5);

    assert_eq!(laws[0], ConservationLaw::Energy);
    assert_eq!(laws[1], ConservationLaw::Momentum);
    assert_eq!(laws[2], ConservationLaw::Entropy);
    assert_eq!(laws[3], ConservationLaw::Information);
    assert_eq!(laws[4], ConservationLaw::Symmetry);
}

#[test]
fn test_law_descriptions() {
    for law in &ConservationLaw::ALL {
        assert!(!law.name().is_empty(), "Law has empty name");
        assert!(!law.description().is_empty(), "Law {:?} has empty description", law);
    }
}

#[test]
fn law_names_and_descriptions() {
    assert_eq!(ConservationLaw::Energy.name(), "Energy Conservation");
    assert_eq!(ConservationLaw::Symmetry.name(), "Symmetry Conservation");
    assert_eq!(
        ConservationLaw::Entropy.description(),
        "Novelty seeking is bounded to prevent thrashing"
    );
}

#[test]
fn summaries_compare_by_fields() {
    let a = ConservationSummary {
        energy_pct: 40,
        novelty_pct: 50,
        pruned_this_cycle: 0,
        violations: 0,
        energy_sufficient: true,
        novelty_sufficient: true,
    };
    let b = a.clone();
    assert_eq!(a, b);
}
