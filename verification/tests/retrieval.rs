use lucid::retrieval::retrieve;
use lucid::retrieval::retrieve_by_similarity;
use lucid::retrieval::triggers_lability;
use lucid::retrieval::RetrievalConfig;
use lucid::retrieval::RetrievalInput;

/// Cosine similarity of two vectors, in milli units, as a test harness for
/// the pipeline's similarity inputs.
fn cosine_milli(a: &[f64], b: &[f64]) -> i64 {
    if a.len() != b.len() {
        return 0;
    }
    let dot: f64 = a.iter().zip(b.iter()).map(|(x, y)| x * y).sum();
    let na: f64 = a.iter().map(|x| x * x).sum::<f64>().sqrt();
    let nb: f64 = b.iter().map(|x| x * x).sum::<f64>().sqrt();
    if na == 0.0 || nb == 0.0 {
        return 0;
    }
    (dot / (na * nb) * 1000.0).round() as i64
}

/// ACT-R base level of a single access `age_ms` ago, in milli units.
fn base_level_milli(age_ms: f64, decay: f64) -> i64 {
    let t = (age_ms / 1000.0).max(1.0);
    ((t.powf(-decay)).ln() * 1000.0).round() as i64
}

fn default_config() -> RetrievalConfig {
    RetrievalConfig::default()
}

#[test]
fn test_retrieve_empty() {
    let input = RetrievalInput {
        similarities_milli: vec![],
        base_levels_milli: vec![],
        emotional_weights_milli: vec![],
        working_memory_boosts_milli: vec![],
        associations: vec![],
    };
    let config = default_config();
    let result = retrieve(&input, &config);
    assert!(result.is_empty());
}

#[test]
fn test_retrieve_similarity_ordering() {
    // Probe [1,0,0] against an identical, a partially similar, and an
    // orthogonal memory, all accessed just now.
    let probe = [1.0, 0.0, 0.0];
    let memories = [[1.0, 0.0, 0.0], [0.5, 0.5, 0.0], [0.0, 1.0, 0.0]];
    let sims: Vec<i64> = memories.iter().map(|m| cosine_milli(&probe, m)).collect();
    let input = RetrievalInput {
        similarities_milli: sims,
        base_levels_milli: vec![0, 0, 0],
        emotional_weights_milli: vec![500, 500, 500],
        working_memory_boosts_milli: vec![1000, 1000, 1000],
        associations: vec![],
    };
    let mut config = default_config();
    config.spreading_depth = 0;
    let result = retrieve(&input, &config);
    assert!(!result.is_empty());
    assert_eq!(result[0].index, 0);
    // Identity probe: probe activations fall off strictly with similarity.
    let by_index: Vec<i64> = {
        let mut v = result.clone();
        v.sort_by_key(|c| c.index);
        v.iter().map(|c| c.probe_activation_milli).collect()
    };
    assert!(by_index[0] > by_index[1]);
    assert!(by_index[1] > by_index[2]);
}

#[test]
fn test_basic_retrieval() {
    let probe = [1.0, 0.0, 0.0];
    let memories = [[1.0, 0.0, 0.0], [0.0, 1.0, 0.0], [0.0, 0.0, 1.0]];
    let sims: Vec<i64> = memories.iter().map(|m| cosine_milli(&probe, m)).collect();
    let bases = vec![
        base_level_milli(1000.0, 0.5),
        base_level_milli(2000.0, 0.5),
        base_level_milli(3000.0, 0.5),
    ];
    let input = RetrievalInput {
        similarities_milli: sims,
        base_levels_milli: bases,
        emotional_weights_milli: vec![500, 500, 500],
        working_memory_boosts_milli: vec![1000, 1000, 1000],
        associations: vec![],
    };
    let config = default_config();
    let result = retrieve(&input, &config);
    assert!(!result.is_empty());
    assert_eq!(result[0].index, 0);
    assert!(result[0].probe_activation_milli > result[1].probe_activation_milli);
}

#[test]
fn test_recency_cannot_rescue_irrelevance() {
    // Memory A matches the probe but was accessed a day ago; memory B is
    // orthogonal but was accessed a second ago.  A must rank above B.
    let probe = [1.0, 0.0, 0.0];
    let a = [1.0, 0.0, 0.0];
    let b = [0.0, 1.0, 0.0];
    let sims = vec![cosine_milli(&probe, &a), cosine_milli(&probe, &b)];
    let bases = vec![
        base_level_milli(86_400_000.0, 0.5),
        base_level_milli(1000.0, 0.5),
    ];
    let input = RetrievalInput {
        similarities_milli: sims,
        base_levels_milli: bases,
        emotional_weights_milli: vec![500, 500],
        working_memory_boosts_milli: vec![1000, 1000],
        associations: vec![],
    };
    let config = default_config();
    let result = retrieve(&input, &config);
    assert_eq!(result[0].index, 0, "a recent but irrelevant memory must not win");
}

#[test]
fn test_working_memory_boost() {
    // Two memories with identical similarity ~0.707; the second gets a 2x
    // working-memory boost and must rank first.
    let probe = [1.0, 0.0, 0.0];
    let m = [0.7, 0.7, 0.0];
    let sims = vec![cosine_milli(&probe, &m), cosine_milli(&probe, &m)];
    let input = RetrievalInput {
        similarities_milli: sims,
        base_levels_milli: vec![0, 0],
        emotional_weights_milli: vec![500, 500],
        working_memory_boosts_milli: vec![1000, 2000],
        associations: vec![],
    };
    let mut config = default_config();
    config.spreading_depth = 0;
    let result = retrieve(&input, &config);
    assert!(!result.is_empty());
    assert_eq!(result[0].index, 1, "WM-boosted memory should rank first");
    assert!(result[0].total_activation_milli > result[1].total_activation_milli);
    assert!(result[0].probe_activation_milli > result[1].probe_activation_milli);
}

#[test]
fn test_working_memory_boost_caps_similarity() {
    // A 2x boost on a 0.9 similarity is capped at a perfect match, so the
    // probe activation cannot exceed 1.
    let input = RetrievalInput {
        similarities_milli: vec![900],
        base_levels_milli: vec![0],
        emotional_weights_milli: vec![500],
        working_memory_boosts_milli: vec![2000],
        associations: vec![],
    };
    let mut config = default_config();
    config.spreading_depth = 0;
    let result = retrieve(&input, &config);
    assert!(!result.is_empty());
    assert!(result[0].probe_activation_milli <= 1000);
}

#[test]
fn test_retrieve_by_similarity_ordering() {
    let sims = vec![100i64, 900, 500];
    let top = retrieve_by_similarity(&sims, 2);
    assert_eq!(top, vec![1, 2]);
}

#[test]
fn test_triggers_lability() {
    assert!(triggers_lability(600, 500));
    assert!(!triggers_lability(400, 500));
    assert!(!triggers_lability(500, 500));
}
