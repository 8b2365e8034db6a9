use lucid::location::association_multiplier;
use lucid::location::compute_association_strength;
use lucid::location::compute_batch_decay;
use lucid::location::compute_decayed_familiarity;
use lucid::location::compute_familiarity;
use lucid::location::get_associated_locations;
use lucid::location::infer_activity_type;
use lucid::location::initial_familiarity;
use lucid::location::is_well_known;
use lucid::location::ActivityType;
use lucid::location::InferenceSource;
use lucid::location::LocationAssociation;
use lucid::location::LocationConfig;
use lucid::location::LocationIntuition;

const MS_PER_DAY: i64 = 24 * 60 * 60 * 1000;

#[test]
fn familiarity_curve_matches_specification() {
    let config = LocationConfig::default();

    // f(1) is roughly 0.091
    assert_eq!(compute_familiarity(1, &config), 91);
    assert_eq!(initial_familiarity(&config), 91);

    // f(10) is 0.5
    assert_eq!(compute_familiarity(10, &config), 500);

    // f(24) reaches the well-known threshold
    assert!(compute_familiarity(24, &config) >= 700);

    // Asymptotic approach to 1
    assert!(compute_familiarity(1000, &config) > 990);
    assert!(compute_familiarity(1000, &config) < 1000);
}

#[test]
fn decay_respects_stale_threshold() {
    let config = LocationConfig::default();
    let current_time: i64 = MS_PER_DAY * 100;

    // Accessed 10 days ago - no decay
    let recent = current_time - 10 * MS_PER_DAY;
    assert_eq!(
        compute_decayed_familiarity(800, recent, current_time, false, &config),
        800
    );

    // Accessed 60 days ago - should decay
    let old = current_time - 60 * MS_PER_DAY;
    assert!(compute_decayed_familiarity(800, old, current_time, false, &config) < 800);
}

#[test]
fn high_familiarity_has_sticky_floor() {
    let config = LocationConfig::default();
    let current_time: i64 = MS_PER_DAY * 365;
    let very_old: i64 = 0;

    let decayed = compute_decayed_familiarity(900, very_old, current_time, false, &config);
    let expected_floor = config.base_floor_milli + config.sticky_bonus_milli * (900 - 500) / 1000;
    assert!(decayed >= expected_floor);
}

#[test]
fn pinned_locations_never_decay() {
    let config = LocationConfig::default();
    let current_time: i64 = MS_PER_DAY * 365;
    let very_old: i64 = 0;

    let decayed = compute_decayed_familiarity(500, very_old, current_time, true, &config);
    assert_eq!(decayed, 500);
}

#[test]
fn handles_invalid_timestamps() {
    let config = LocationConfig::default();
    let current_time: i64 = MS_PER_DAY * 100;

    // Negative timestamp - familiarity is left unchanged
    let result = compute_decayed_familiarity(700, -1000, current_time, false, &config);
    assert_eq!(result, 700);
}

#[test]
fn activity_inference_precedence() {
    // 1. Explicit wins over everything
    let result = infer_activity_type("reading code", Some("Read"), Some(ActivityType::Debugging));
    assert_eq!(result.activity_type, ActivityType::Debugging);
    assert_eq!(result.source, InferenceSource::Explicit);

    // 2. Keyword wins over tool
    let result = infer_activity_type("debugging the issue", Some("Read"), None);
    assert_eq!(result.activity_type, ActivityType::Debugging);
    assert_eq!(result.source, InferenceSource::Keyword);

    // 3. Tool inference when no keywords
    let result = infer_activity_type("opening the file", Some("Read"), None);
    assert_eq!(result.activity_type, ActivityType::Reading);
    assert_eq!(result.source, InferenceSource::Tool);

    let result = infer_activity_type("doing something", Some("Edit"), None);
    assert_eq!(result.activity_type, ActivityType::Writing);
    assert_eq!(result.source, InferenceSource::Tool);

    // 4. Default fallback when nothing matches
    let result = infer_activity_type("doing stuff", None, None);
    assert_eq!(result.activity_type, ActivityType::Unknown);
    assert_eq!(result.source, InferenceSource::Default);
}

#[test]
fn activity_inference_is_case_insensitive() {
    let result = infer_activity_type("DEBUGGING the Issue", None, None);
    assert_eq!(result.activity_type, ActivityType::Debugging);
    assert_eq!(result.confidence_milli, 900);
}

#[test]
fn task_associations_stronger_than_time() {
    let config = LocationConfig::default();

    let task_same = association_multiplier(true, true, &config);
    let task_diff = association_multiplier(true, false, &config);
    let time_same = association_multiplier(false, true, &config);
    let time_diff = association_multiplier(false, false, &config);

    assert!(task_same > task_diff);
    assert!(task_diff > time_same);
    assert!(time_same > time_diff);
}

#[test]
fn association_strength_follows_asymptotic_curve() {
    let config = LocationConfig::default();

    // With a 5x multiplier, 2 co-accesses act like 10
    let strength = compute_association_strength(2, 5000, &config);
    assert_eq!(strength, 500);

    // Without a multiplier the link is weaker
    let weak_strength = compute_association_strength(2, 1000, &config);
    assert!(weak_strength < strength);
}

#[test]
fn well_known_threshold() {
    let config = LocationConfig::default();

    assert!(!is_well_known(500, &config));
    assert!(!is_well_known(690, &config));
    assert!(is_well_known(700, &config));
    assert!(is_well_known(900, &config));
}

#[test]
fn get_associated_returns_sorted_by_strength() {
    let associations = vec![
        LocationAssociation { source: 0, target: 1, strength_milli: 500, co_access_count: 5 },
        LocationAssociation { source: 0, target: 2, strength_milli: 900, co_access_count: 10 },
        LocationAssociation { source: 0, target: 3, strength_milli: 300, co_access_count: 3 },
    ];

    let results = get_associated_locations(0, &associations, 10);

    assert_eq!(results.len(), 3);
    assert_eq!(results[0], (2, 900));
    assert_eq!(results[1], (1, 500));
    assert_eq!(results[2], (3, 300));
}

#[test]
fn batch_decay_applies_to_all() {
    let config = LocationConfig::default();
    let current_time: i64 = MS_PER_DAY * 100;
    let old_time = current_time - 60 * MS_PER_DAY;

    let locations = vec![
        LocationIntuition {
            id: 0,
            familiarity_milli: 800,
            access_count: 20,
            searches_saved: 5,
            last_accessed_ms: old_time,
            is_pinned: false,
        },
        LocationIntuition {
            id: 1,
            familiarity_milli: 500,
            access_count: 10,
            searches_saved: 2,
            last_accessed_ms: old_time,
            is_pinned: true,
        },
    ];

    let decayed = compute_batch_decay(&locations, current_time, &config);

    assert!(decayed[0] < 800);
    assert_eq!(decayed[1], 500);
}

use lucid::location::spread_location_activation;
use lucid::spreading::SpreadingConfig;

#[test]
fn location_spreading_reaches_neighbors() {
    let associations = vec![
        LocationAssociation { source: 0, target: 1, strength_milli: 800, co_access_count: 3 },
        LocationAssociation { source: 1, target: 2, strength_milli: 800, co_access_count: 2 },
    ];
    let location_config = LocationConfig::default();
    let spreading_config = SpreadingConfig::default();
    let activations = spread_location_activation(
        3,
        0,
        1000,
        &associations,
        &location_config,
        &spreading_config,
    );
    assert_eq!(activations.len(), 3);
    assert!(activations[0] >= 1000);
    assert!(activations[1] > activations[2]);
    assert!(activations[2] > 0);
}
