use lucid::activation::compute_effective_thresholds;
use lucid::activation::compute_encoding_strength;
use lucid::activation::compute_instance_noise;
use lucid::activation::compute_session_decay_rate;
use lucid::activation::compute_session_decay_rate_batch;
use lucid::activation::nonlinear_activation;
use lucid::activation::pe_zone;
use lucid::activation::rank_by_activation;
use lucid::activation::reinforce_association;
use lucid::activation::should_prune_association;
use lucid::activation::AssociationDecayConfig;
use lucid::activation::AssociationState;
use lucid::activation::InstanceNoiseConfig;
use lucid::activation::PeZone;
use lucid::activation::ReconsolidationConfig;
use lucid::activation::THETA_HIGH_MILLI;
use lucid::activation::THETA_LOW_MILLI;
use lucid::activation::{combine_activations, get_decay_tau};

#[test]
fn test_nonlinear_activation() {
    assert_eq!(nonlinear_activation(500), 125);
    assert_eq!(nonlinear_activation(1000), 1000);
    assert_eq!(nonlinear_activation(-500), -125);
    assert_eq!(nonlinear_activation(0), 0);
}

#[test]
fn test_session_decay_recent() {
    let now: i64 = 1_000_000_000;
    // 15 minutes ago
    let rate = compute_session_decay_rate(now - 15 * 60 * 1000, now);
    assert_eq!(rate, 300);
}

#[test]
fn test_session_decay_hour() {
    let now: i64 = 1_000_000_000;
    // 1 hour ago
    let rate = compute_session_decay_rate(now - 60 * 60 * 1000, now);
    assert_eq!(rate, 400);
}

#[test]
fn test_session_decay_old() {
    let now: i64 = 1_000_000_000;
    // 2 days ago
    let rate = compute_session_decay_rate(now - 48 * 60 * 60 * 1000, now);
    assert_eq!(rate, 500);
}

#[test]
fn test_session_decay_future_timestamp() {
    let now: i64 = 1_000_000_000;
    let rate = compute_session_decay_rate(now + 5000, now);
    assert_eq!(rate, 500);
}

#[test]
fn test_session_decay_day_bucket() {
    let now: i64 = 1_000_000_000;
    // 12 hours ago
    let rate = compute_session_decay_rate(now - 12 * 60 * 60 * 1000, now);
    assert_eq!(rate, 450);
}

#[test]
fn test_session_decay_batch() {
    let now: i64 = 1_000_000_000;
    let last = vec![now - 15 * 60 * 1000, now - 60 * 60 * 1000, now - 48 * 60 * 60 * 1000];
    let rates = compute_session_decay_rate_batch(&last, now);
    assert_eq!(rates, vec![300, 400, 500]);
}

#[test]
fn test_encoding_strength_base() {
    let config = InstanceNoiseConfig::default();
    // Minimal memory - just the base floor
    let strength = compute_encoding_strength(0, 0, 0, &config);
    assert_eq!(strength, 300);
}

#[test]
fn test_encoding_strength_full() {
    let config = InstanceNoiseConfig::default();
    // Fully attended, emotional, well-rehearsed memory
    let strength = compute_encoding_strength(1000, 1000, 10, &config);
    assert_eq!(strength, 1000);
}

#[test]
fn test_instance_noise_inverse() {
    // Strong encoding = low noise
    let noise_strong = compute_instance_noise(1000, 250);
    let noise_weak = compute_instance_noise(300, 250);
    assert!(noise_strong < noise_weak);
    assert_eq!(noise_strong, 250);
}

#[test]
fn test_decay_tau_by_state() {
    let config = AssociationDecayConfig::default();
    assert_eq!(get_decay_tau(AssociationState::Fresh, &config), 1);
    assert_eq!(get_decay_tau(AssociationState::Consolidating, &config), 24);
    assert_eq!(get_decay_tau(AssociationState::Consolidated, &config), 720);
    assert_eq!(get_decay_tau(AssociationState::Reconsolidating, &config), 168);
}

#[test]
fn test_reinforce_association() {
    let config = AssociationDecayConfig::default();
    let new_strength = reinforce_association(500, &config);
    assert_eq!(new_strength, 550);
}

#[test]
fn test_reinforce_association_cap() {
    let config = AssociationDecayConfig::default();
    let new_strength = reinforce_association(990, &config);
    assert_eq!(new_strength, 1000);
}

#[test]
fn activation_test_should_prune() {
    let config = AssociationDecayConfig::default();
    assert!(should_prune_association(50, &config));
    assert!(!should_prune_association(150, &config));
}

#[test]
fn test_pe_zone_reinforce() {
    assert_eq!(
        pe_zone(50, THETA_LOW_MILLI as u64, THETA_HIGH_MILLI as u64),
        PeZone::Reinforce
    );
}

#[test]
fn test_pe_zone_reconsolidate() {
    assert_eq!(
        pe_zone(300, THETA_LOW_MILLI as u64, THETA_HIGH_MILLI as u64),
        PeZone::Reconsolidate
    );
}

#[test]
fn test_pe_zone_new_trace() {
    assert_eq!(
        pe_zone(600, THETA_LOW_MILLI as u64, THETA_HIGH_MILLI as u64),
        PeZone::NewTrace
    );
}

#[test]
fn test_pe_zone_shifts_with_dormancy() {
    let config = ReconsolidationConfig::default();
    // Without dormancy, 0.12 reconsolidates.
    let (low_fresh, high_fresh) =
        compute_effective_thresholds(THETA_LOW_MILLI, THETA_HIGH_MILLI, 1, 100, &config);
    assert_eq!(pe_zone(120, low_fresh, high_fresh), PeZone::Reconsolidate);
    // After 5 days of dormancy the lower threshold shifts up, so 0.12 now
    // classifies as reinforce.
    let (low_old, high_old) =
        compute_effective_thresholds(THETA_LOW_MILLI, THETA_HIGH_MILLI, 1, 5000, &config);
    assert_eq!(pe_zone(120, low_old, high_old), PeZone::Reinforce);
}

#[test]
fn test_effective_thresholds_age_shifts_low_up() {
    let config = ReconsolidationConfig::default();
    let (low_fresh, _) = compute_effective_thresholds(THETA_LOW_MILLI, THETA_HIGH_MILLI, 1, 100, &config);
    let (low_old, _) = compute_effective_thresholds(THETA_LOW_MILLI, THETA_HIGH_MILLI, 1, 5000, &config);
    assert!(low_old > low_fresh, "Old memories should have a higher lower threshold");
}

#[test]
fn test_effective_thresholds_use_shifts_high_down() {
    let config = ReconsolidationConfig::default();
    let (_, high_new) = compute_effective_thresholds(THETA_LOW_MILLI, THETA_HIGH_MILLI, 1, 1000, &config);
    let (_, high_used) = compute_effective_thresholds(THETA_LOW_MILLI, THETA_HIGH_MILLI, 15, 1000, &config);
    assert!(high_used < high_new, "Well-used memories should have a lower upper threshold");
}

#[test]
fn test_effective_thresholds_maintain_gap() {
    let config = ReconsolidationConfig::default();
    // Extreme values that could collapse the gap
    let (low, high) = compute_effective_thresholds(THETA_LOW_MILLI, THETA_HIGH_MILLI, 100, 100_000, &config);
    assert!(high >= low + 50, "Must maintain minimum gap: low={low}, high={high}");
}

#[test]
fn test_combine_activations_recency_is_multiplicative() {
    // A zero-similarity memory gets no activation from recency alone.
    let fresh_irrelevant = combine_activations(0, 0, 0, 500);
    assert_eq!(fresh_irrelevant.total_milli, 0);
    // A matching memory is scaled up by recency, at most doubled.
    let fresh_relevant = combine_activations(0, 1000, 0, 500);
    assert_eq!(fresh_relevant.total_milli, 2000);
    let old_relevant = combine_activations(-10_000, 1000, 0, 500);
    assert_eq!(old_relevant.total_milli, 1000);
}

#[test]
fn test_rank_by_activation() {
    let acts = vec![100i64, 900, 500, 900];
    let top = rank_by_activation(&acts, 3);
    assert_eq!(top, vec![1, 3, 2]);
}
