use lucid::spreading::get_top_activated;
use lucid::spreading::spread_activation;
use lucid::spreading::Association;
use lucid::spreading::SpreadingConfig;

fn make_assoc(source: usize, target: usize, strength_milli: u32) -> Association {
    Association {
        source,
        target,
        forward_strength_milli: strength_milli,
        backward_strength_milli: strength_milli / 2,
    }
}

#[test]
fn test_spreading_simple() {
    // Simple chain: 0 -> 1 -> 2
    let associations = vec![make_assoc(0, 1, 1000), make_assoc(1, 2, 1000)];
    let config = SpreadingConfig {
        decay_per_hop_milli: 700,
        minimum_activation_milli: 10,
        max_nodes: 100,
        bidirectional: false,
    };
    let result = spread_activation(3, &associations, &vec![0], &vec![1000], &config, 2);
    assert!(result.activations_milli[0] > result.activations_milli[1]);
    assert!(result.activations_milli[1] > result.activations_milli[2]);
    assert!(result.activations_milli[2] > 0);
}

#[test]
fn test_spreading_fan_out() {
    // Fan: 0 -> 1, 0 -> 2, 0 -> 3; each target receives a third of the
    // decayed emission.
    let associations = vec![
        make_assoc(0, 1, 1000),
        make_assoc(0, 2, 1000),
        make_assoc(0, 3, 1000),
    ];
    let config = SpreadingConfig {
        decay_per_hop_milli: 700,
        minimum_activation_milli: 10,
        max_nodes: 100,
        bidirectional: false,
    };
    let result = spread_activation(4, &associations, &vec![0], &vec![1000], &config, 1);
    let expected = 1000 * 700 / 1000 / 3;
    assert_eq!(result.activations_milli[1], expected);
    assert_eq!(result.activations_milli[2], expected);
    assert_eq!(result.activations_milli[3], expected);
}

#[test]
fn test_spreading_lights_up_two_hop_neighbor() {
    // Five memories; a chain 0<->2<->3->4 with strengths at least 0.6.
    // Without spreading nothing flows; with depth 3, the two-hop neighbor 3
    // receives more than the three-hop neighbor 4, which still receives some.
    let associations = vec![
        make_assoc_sym(0, 2, 800),
        make_assoc_sym(2, 3, 800),
        make_assoc(3, 4, 600),
    ];
    let config = SpreadingConfig {
        decay_per_hop_milli: 700,
        minimum_activation_milli: 10,
        max_nodes: 1000,
        bidirectional: true,
    };
    let no_spread = spread_activation(5, &associations, &vec![0], &vec![2000], &config, 0);
    assert_eq!(no_spread.activations_milli[3], 0);
    assert_eq!(no_spread.activations_milli[4], 0);

    let spread = spread_activation(5, &associations, &vec![0], &vec![2000], &config, 3);
    assert!(spread.activations_milli[3] > spread.activations_milli[4]);
    assert!(spread.activations_milli[4] > 0);
}

fn make_assoc_sym(source: usize, target: usize, strength_milli: u32) -> Association {
    Association {
        source,
        target,
        forward_strength_milli: strength_milli,
        backward_strength_milli: strength_milli,
    }
}

#[test]
fn test_spreading_conservation_scenario() {
    // With a per-hop decay below one and strengths below one, the mass
    // delivered one hop out stays strictly below the seed mass scaled by the
    // decay.
    let associations = vec![make_assoc(0, 1, 800), make_assoc(0, 2, 900)];
    let config = SpreadingConfig {
        decay_per_hop_milli: 700,
        minimum_activation_milli: 10,
        max_nodes: 1000,
        bidirectional: false,
    };
    let seed_mass: i64 = 2000;
    let result = spread_activation(3, &associations, &vec![0], &vec![seed_mass], &config, 1);
    let delivered = result.activations_milli[1] + result.activations_milli[2];
    assert!(delivered < seed_mass * 700 / 1000);
    assert!(delivered > 0);
}

#[test]
fn test_spreading_skips_out_of_range() {
    // Out-of-range edges and seeds are skipped silently.
    let associations = vec![make_assoc(0, 9, 1000), make_assoc(9, 1, 1000)];
    let config = SpreadingConfig::default();
    let result = spread_activation(2, &associations, &vec![0, 7], &vec![1000, 1000], &config, 2);
    assert_eq!(result.activations_milli.len(), 2);
    assert_eq!(result.activations_milli[0], 1000);
    assert_eq!(result.activations_milli[1], 0);
}

#[test]
fn test_spreading_visits_each_node_once() {
    // A diamond: 0 -> 1, 0 -> 2, 1 -> 3, 2 -> 3.  Node 3 is enqueued once
    // but accumulates from both parents.
    let associations = vec![
        make_assoc(0, 1, 1000),
        make_assoc(0, 2, 1000),
        make_assoc(1, 3, 1000),
        make_assoc(2, 3, 1000),
    ];
    let config = SpreadingConfig {
        decay_per_hop_milli: 700,
        minimum_activation_milli: 10,
        max_nodes: 1000,
        bidirectional: false,
    };
    let result = spread_activation(4, &associations, &vec![0], &vec![1000], &config, 2);
    let layers = &result.visited_by_depth;
    let mut seen = vec![0usize; 4];
    for layer in layers.iter().skip(1) {
        for &node in layer.iter() {
            seen[node] += 1;
        }
    }
    assert!(seen.iter().all(|&c| c <= 1));
    // Both parents contributed to node 3.
    let one_parent = 1000 * 700 / 1000 / 2 * 700 / 1000;
    assert_eq!(result.activations_milli[3], 2 * one_parent);
}

#[test]
fn test_get_top_activated() {
    let acts = vec![0i64, 500, -20, 900, 100];
    let top = get_top_activated(&acts, 2);
    assert_eq!(top, vec![3, 1]);
    let all = get_top_activated(&acts, 10);
    assert_eq!(all, vec![3, 1, 4]);
}

use lucid::spreading::find_activation_path;

#[test]
fn test_find_path() {
    let associations = vec![
        make_assoc(0, 1, 1000),
        make_assoc(1, 2, 1000),
        make_assoc(2, 3, 1000),
    ];
    let path = find_activation_path(4, &associations, 0, 3);
    assert_eq!(path, vec![0, 1, 2, 3]);
}

#[test]
fn test_find_path_trivial_and_missing() {
    let associations = vec![make_assoc(0, 1, 1000)];
    assert_eq!(find_activation_path(3, &associations, 2, 2), vec![2]);
    assert!(find_activation_path(3, &associations, 1, 0).is_empty());
}
