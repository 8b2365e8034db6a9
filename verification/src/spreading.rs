//! Spreading activation.
//!
//! Activating one memory spreads activation to associated memories through a
//! directed weighted graph.  A node's contribution to a neighbor is its
//! activation divided by its fan-out, weighted by the edge strength and a
//! per-hop decay; backward edges carry an extra attenuation.  Spreading is
//! synchronous per depth layer: contributions of one layer are accumulated in
//! a dense index-keyed accumulator and committed in one step, and a visited
//! set guarantees each node is enqueued at most once.

use vstd::prelude::*;

use crate::activation::ACTIVATION_LIMIT;
use crate::ranking::{sort_pairs_desc, take_indices};

verus! {

/// Extra attenuation on backward edges, milli.
pub const BACKWARD_ATTENUATION_MILLI: u32 = 700;

/// An edge in the association graph.
#[derive(Clone, Debug)]
pub struct Association {
    /// Source node index.
    pub source: usize,
    /// Target node index.
    pub target: usize,
    /// Forward strength (source to target), milli.
    pub forward_strength_milli: u32,
    /// Backward strength (target to source), milli.
    pub backward_strength_milli: u32,
}

/// Configuration for spreading activation.
#[derive(Clone, Debug)]
pub struct SpreadingConfig {
    /// How much activation decays per hop, milli.
    pub decay_per_hop_milli: u32,
    /// Minimum activation a node needs to propagate, milli.
    pub minimum_activation_milli: i64,
    /// Maximum number of nodes visited.
    pub max_nodes: usize,
    /// Whether to spread along backward edges too.
    pub bidirectional: bool,
}

impl Default for SpreadingConfig {
    fn default() -> (r: Self)
        ensures
            r.decay_per_hop_milli == 700,
            r.minimum_activation_milli == 10,
            r.max_nodes == 1000,
            r.bidirectional == true,
    {
        SpreadingConfig {
            decay_per_hop_milli: 700,
            minimum_activation_milli: 10,
            max_nodes: 1000,
            bidirectional: true,
        }
    }
}

/// Result of spreading activation.
#[derive(Clone, Debug)]
pub struct SpreadingResult {
    /// Final activation per node, milli.
    pub activations_milli: Vec<i64>,
    /// Which nodes were first reached at each depth; layer `0` repeats the
    /// seed indices as given.  Diagnostic output.
    pub visited_by_depth: Vec<Vec<usize>>,
}

/// The seed activation for seed position `k`: the parallel activation entry,
/// or full activation where the activation list is shorter.
pub open spec fn spec_seed_value(acts: Seq<i64>, k: int) -> i64 {
    if 0 <= k < acts.len() {
        acts[k]
    } else {
        1000i64
    }
}

/// The activation vector after seeding and before any spreading: zero
/// everywhere, except that each in-range seed index is set to its seed
/// activation, later seed entries overwriting earlier ones.
pub open spec fn spec_seeded(n: nat, seeds: Seq<usize>, acts: Seq<i64>) -> Seq<i64>
    decreases seeds.len(),
{
    if seeds.len() == 0 {
        Seq::new(n, |i: int| 0i64)
    } else {
        let prev = spec_seeded(n, seeds.drop_last(), acts);
        let k = seeds.len() - 1;
        if seeds[k] < n {
            prev.update(seeds[k] as int, spec_seed_value(acts, k))
        } else {
            prev
        }
    }
}

/// Shape of the seeded vector: length `n`, zero off the seeds, and every
/// entry bounded by the largest seed activation magnitude (or the default).
pub proof fn lemma_seeded_shape(n: nat, seeds: Seq<usize>, acts: Seq<i64>, limit: int)
    requires
        limit >= 1000,
        forall|k: int| 0 <= k < acts.len() ==> -limit <= #[trigger] acts[k] <= limit,
    ensures
        spec_seeded(n, seeds, acts).len() == n,
        forall|i: int|
            0 <= i < n && !seeds.contains(i as usize) ==> #[trigger] spec_seeded(n, seeds, acts)[i]
                == 0,
        forall|i: int|
            0 <= i < n ==> -limit <= #[trigger] spec_seeded(n, seeds, acts)[i] <= limit,
    decreases seeds.len(),
{
    if seeds.len() > 0 {
        lemma_seeded_shape(n, seeds.drop_last(), acts, limit);
        assert forall|i: int|
            0 <= i < n && !#[trigger] seeds.contains(i as usize) implies !seeds.drop_last().contains(
            i as usize,
        ) by {
            if seeds.drop_last().contains(i as usize) {
                let k = choose|k: int|
                    0 <= k < seeds.drop_last().len() && seeds.drop_last()[k] == i as usize;
                assert(seeds[k] == i as usize);
            }
        }
    }
}


/// With non-negative seed activations, the seeded vector is non-negative
/// everywhere.
pub proof fn lemma_seeded_nonneg(n: nat, seeds: Seq<usize>, acts: Seq<i64>)
    requires
        forall|k: int| 0 <= k < acts.len() ==> #[trigger] acts[k] >= 0,
    ensures
        spec_seeded(n, seeds, acts).len() == n,
        forall|i: int| 0 <= i < n ==> #[trigger] spec_seeded(n, seeds, acts)[i] >= 0,
    decreases seeds.len(),
{
    if seeds.len() > 0 {
        lemma_seeded_nonneg(n, seeds.drop_last(), acts);
        let k = seeds.len() - 1;
        assert(spec_seed_value(acts, k) >= 0);
    }
}

/// One spreading contribution: the source activation scaled by the edge
/// weight, the per-hop decay, and an attenuation, then fan-normalized; each
/// scaling truncates.
pub open spec fn spec_spread_amount(act: int, w: int, gamma: int, atten: int, fan: int) -> int {
    (((act * w / 1000) * gamma / 1000) * atten / 1000) / fan
}

/// Compute one spreading contribution.  Never exceeds the source activation.
fn spread_amount(act: i64, w: u32, gamma: u32, atten: u32, fan: usize) -> (r: i64)
    requires
        0 <= act <= ACTIVATION_LIMIT,
        w <= 1000,
        gamma <= 1000,
        atten <= 1000,
        fan >= 1,
    ensures
        r == spec_spread_amount(act as int, w as int, gamma as int, atten as int, fan as int),
        0 <= r <= act,
{
    let a: u64 = act as u64;
    proof {
        assert(a * w <= a * 1000) by (nonlinear_arith)
            requires
                w <= 1000,
        ;
    }
    let s1: u64 = a * (w as u64) / 1000;
    proof {
        assert(s1 * gamma <= s1 * 1000) by (nonlinear_arith)
            requires
                gamma <= 1000,
        ;
    }
    let s2: u64 = s1 * (gamma as u64) / 1000;
    proof {
        assert(s2 * atten <= s2 * 1000) by (nonlinear_arith)
            requires
                atten <= 1000,
        ;
    }
    let s3: u64 = s2 * (atten as u64) / 1000;
    proof {
        assert(s3 / (fan as u64) <= s3) by (nonlinear_arith)
            requires
                fan >= 1,
        ;
    }
    let s4: u64 = s3 / (fan as u64);
    s4 as i64
}

/// Add a non-negative contribution to an activation, saturating at the
/// activation limit.
fn saturating_accumulate(cur: i64, amount: i64) -> (r: i64)
    requires
        -ACTIVATION_LIMIT <= cur <= ACTIVATION_LIMIT,
        0 <= amount <= ACTIVATION_LIMIT,
    ensures
        r == vstd::math::min(cur + amount, ACTIVATION_LIMIT as int),
        cur <= r <= ACTIVATION_LIMIT,
        -ACTIVATION_LIMIT <= r,
{
    let sum = cur + amount;
    if sum > ACTIVATION_LIMIT {
        ACTIVATION_LIMIT
    } else {
        sum
    }
}

/// Copy a vector of indices.
fn copy_indices(v: &Vec<usize>) -> (r: Vec<usize>)
    ensures
        r@ == v@,
{
    let mut r: Vec<usize> = Vec::new();
    let mut i: usize = 0;
    while i < v.len()
        invariant
            i <= v@.len(),
            r@ == v@.take(i as int),
        decreases v@.len() - i,
    {
        proof {
            assert(v@.take(i as int + 1) =~= v@.take(i as int).push(v@[i as int]));
        }
        r.push(v[i]);
        i = i + 1;
    }
    proof {
        assert(v@.take(v@.len() as int) =~= v@);
    }
    r
}

/// Every adjacency list is empty.
pub open spec fn spec_adjacency_all_empty(adj: Seq<Vec<(usize, u32)>>) -> bool {
    forall|u: int| 0 <= u < adj.len() ==> (#[trigger] adj[u])@.len() == 0
}

/// Adjacency entries are in range and carry milli weights.
pub open spec fn spec_adjacency_wf(adj: Seq<Vec<(usize, u32)>>, n: nat) -> bool {
    &&& adj.len() == n
    &&& forall|u: int, k: int|
        0 <= u < adj.len() && 0 <= k < adj[u]@.len() ==> (#[trigger] adj[u]@[k]).0 < n
            && adj[u]@[k].1 <= 1000
}

/// Build forward and backward adjacency lists from the edge list, skipping
/// out-of-range edges.
fn build_adjacency(associations: &Vec<Association>, num_nodes: usize) -> (r: (
    Vec<Vec<(usize, u32)>>,
    Vec<Vec<(usize, u32)>>,
))
    requires
        forall|e: int|
            0 <= e < associations@.len() ==> (#[trigger] associations@[e]).forward_strength_milli
                <= 1000 && associations@[e].backward_strength_milli <= 1000,
    ensures
        spec_adjacency_wf(r.0@, num_nodes as nat),
        spec_adjacency_wf(r.1@, num_nodes as nat),
        associations@.len() == 0 ==> spec_adjacency_all_empty(r.0@) && spec_adjacency_all_empty(
            r.1@,
        ),
{
    let mut forward: Vec<Vec<(usize, u32)>> = Vec::new();
    let mut backward: Vec<Vec<(usize, u32)>> = Vec::new();
    let mut i: usize = 0;
    while i < num_nodes
        invariant
            i <= num_nodes,
            forward@.len() == i,
            backward@.len() == i,
            forall|u: int| 0 <= u < i ==> (#[trigger] forward@[u])@.len() == 0,
            forall|u: int| 0 <= u < i ==> (#[trigger] backward@[u])@.len() == 0,
        decreases num_nodes - i,
    {
        forward.push(Vec::new());
        backward.push(Vec::new());
        i = i + 1;
    }
    let mut e: usize = 0;
    while e < associations.len()
        invariant
            e <= associations@.len(),
            forall|k: int|
                0 <= k < associations@.len() ==> (#[trigger] associations@[k]).forward_strength_milli
                    <= 1000 && associations@[k].backward_strength_milli <= 1000,
            spec_adjacency_wf(forward@, num_nodes as nat),
            spec_adjacency_wf(backward@, num_nodes as nat),
            associations@.len() == 0 ==> spec_adjacency_all_empty(forward@)
                && spec_adjacency_all_empty(backward@),
        decreases associations@.len() - e,
    {
        let assoc = &associations[e];
        if assoc.source < num_nodes && assoc.target < num_nodes {
            forward[assoc.source].push((assoc.target, assoc.forward_strength_milli));
            backward[assoc.target].push((assoc.source, assoc.backward_strength_milli));
        }
        e = e + 1;
    }
    (forward, backward)
}

/// Total number of entries in the layers past the seed layer.
pub open spec fn spec_layers_len_sum(layers: Seq<Vec<usize>>) -> nat
    decreases layers.len(),
{
    if layers.len() <= 1 {
        0
    } else {
        spec_layers_len_sum(layers.drop_last()) + layers.last()@.len()
    }
}

/// Every node recorded in a spreading layer past the seed layer is in range
/// and is not a seed.
pub open spec fn spec_layers_valid(layers: Seq<Vec<usize>>, n: nat, seeds: Seq<usize>) -> bool {
    forall|l: int, j: int|
        1 <= l < layers.len() && 0 <= j < layers[l]@.len() ==> (#[trigger] layers[l]@[j]) < n
            && !seeds.contains(layers[l]@[j])
}

/// No node appears twice across (or within) the spreading layers past the
/// seed layer: each node is enqueued at most once.
pub open spec fn spec_layers_distinct(layers: Seq<Vec<usize>>) -> bool {
    forall|l1: int, j1: int, l2: int, j2: int|
        1 <= l1 < layers.len() && 0 <= j1 < layers[l1]@.len() && 1 <= l2 < layers.len() && 0 <= j2
            < layers[l2]@.len() && (l1 != l2 || j1 != j2) ==> (#[trigger] layers[l1]@[j1]) != (
        #[trigger] layers[l2]@[j2])
}

/// All entries of the layers past the seed layer are marked in the visited
/// vector.
spec fn spec_layers_marked(layers: Seq<Vec<usize>>, visited: Seq<bool>) -> bool {
    forall|l: int, j: int|
        1 <= l < layers.len() && 0 <= j < layers[l]@.len() ==> (#[trigger] layers[l]@[j])
            < visited.len() && visited[layers[l]@[j] as int]
}

/// Perform spreading activation through the association graph.
///
/// Starting from the seed nodes, activation spreads outward for at most
/// `depth` layers, decaying per hop and splitting across each node's
/// fan-out.  Out-of-range seed or edge indices are skipped silently; empty
/// seeds leave the zero vector.  Activations saturate at
/// [`ACTIVATION_LIMIT`], far beyond the operating range.
pub fn spread_activation(
    num_nodes: usize,
    associations: &Vec<Association>,
    seed_indices: &Vec<usize>,
    seed_activations: &Vec<i64>,
    config: &SpreadingConfig,
    depth: usize,
) -> (r: SpreadingResult)
    requires
        forall|k: int|
            0 <= k < seed_activations@.len() ==> -ACTIVATION_LIMIT <= #[trigger] seed_activations@[k]
                <= ACTIVATION_LIMIT,
        forall|e: int|
            0 <= e < associations@.len() ==> (#[trigger] associations@[e]).forward_strength_milli
                <= 1000 && associations@[e].backward_strength_milli <= 1000,
        config.decay_per_hop_milli <= 1000,
        config.minimum_activation_milli >= 0,
    ensures
        r.activations_milli@.len() == num_nodes,
        r.visited_by_depth@.len() >= 1,
        r.visited_by_depth@[0]@ == seed_indices@,
        forall|i: int|
            0 <= i < num_nodes ==> -ACTIVATION_LIMIT <= #[trigger] r.activations_milli@[i]
                <= ACTIVATION_LIMIT,
        forall|i: int|
            0 <= i < num_nodes ==> #[trigger] r.activations_milli@[i] >= spec_seeded(
                num_nodes as nat,
                seed_indices@,
                seed_activations@,
            )[i],
        depth == 0 ==> r.activations_milli@ == spec_seeded(
            num_nodes as nat,
            seed_indices@,
            seed_activations@,
        ),
        associations@.len() == 0 ==> r.activations_milli@ == spec_seeded(
            num_nodes as nat,
            seed_indices@,
            seed_activations@,
        ),
        seed_indices@.len() == 0 ==> r.activations_milli@ == spec_seeded(
            num_nodes as nat,
            seed_indices@,
            seed_activations@,
        ),
        spec_layers_valid(r.visited_by_depth@, num_nodes as nat, seed_indices@),
        spec_layers_distinct(r.visited_by_depth@),
        r.visited_by_depth@.len() <= depth + 1,
        seed_indices@.len() + spec_layers_len_sum(r.visited_by_depth@) <= vstd::math::max(
            config.max_nodes as int,
            seed_indices@.len() as int,
        ),
        (forall|k: int|
            0 <= k < seed_activations@.len() ==> #[trigger] seed_activations@[k] >= 0)
            ==> forall|i: int|
            0 <= i < num_nodes ==> #[trigger] r.activations_milli@[i] >= 0,
{
    let ghost seeded = spec_seeded(num_nodes as nat, seed_indices@, seed_activations@);
    proof {
        lemma_seeded_shape(
            num_nodes as nat,
            seed_indices@,
            seed_activations@,
            ACTIVATION_LIMIT as int,
        );
    }

    let (forward_adj, backward_adj) = build_adjacency(associations, num_nodes);

    // Seed the dense activation vector.
    let mut activations: Vec<i64> = Vec::new();
    let mut i: usize = 0;
    while i < num_nodes
        invariant
            i <= num_nodes,
            activations@.len() == i,
            forall|t: int| 0 <= t < i ==> activations@[t] == 0i64,
        decreases num_nodes - i,
    {
        activations.push(0i64);
        i = i + 1;
    }
    proof {
        assert(activations@ =~= spec_seeded(num_nodes as nat, Seq::<usize>::empty(), seed_activations@));
        assert(seed_indices@.take(0int) =~= Seq::<usize>::empty());
    }
    let mut k: usize = 0;
    while k < seed_indices.len()
        invariant
            k <= seed_indices@.len(),
            forall|t: int|
                0 <= t < seed_activations@.len() ==> -ACTIVATION_LIMIT
                    <= #[trigger] seed_activations@[t] <= ACTIVATION_LIMIT,
            activations@ == spec_seeded(num_nodes as nat, seed_indices@.take(k as int), seed_activations@),
            activations@.len() == num_nodes,
        decreases seed_indices@.len() - k,
    {
        let idx = seed_indices[k];
        proof {
            assert(seed_indices@.take(k as int + 1).drop_last() =~= seed_indices@.take(k as int));
            lemma_seeded_shape(
                num_nodes as nat,
                seed_indices@.take(k as int),
                seed_activations@,
                ACTIVATION_LIMIT as int,
            );
        }
        if idx < num_nodes {
            let value: i64 = if k < seed_activations.len() {
                seed_activations[k]
            } else {
                1000
            };
            activations[idx] = value;
        }
        k = k + 1;
    }
    proof {
        assert(seed_indices@.take(seed_indices@.len() as int) =~= seed_indices@);
        assert(activations@ == seeded);
    }

    // Visited marks: in-range seeds start marked.
    let mut visited: Vec<bool> = Vec::new();
    let mut i2: usize = 0;
    while i2 < num_nodes
        invariant
            i2 <= num_nodes,
            visited@.len() == i2,
        decreases num_nodes - i2,
    {
        visited.push(false);
        i2 = i2 + 1;
    }
    let mut k2: usize = 0;
    while k2 < seed_indices.len()
        invariant
            k2 <= seed_indices@.len(),
            visited@.len() == num_nodes,
            forall|s: int|
                0 <= s < k2 && seed_indices@[s] < num_nodes ==> visited@[#[trigger] seed_indices@[s] as int],
        decreases seed_indices@.len() - k2,
    {
        let idx = seed_indices[k2];
        if idx < num_nodes {
            visited[idx] = true;
        }
        k2 = k2 + 1;
    }

    let mut visited_by_depth: Vec<Vec<usize>> = Vec::new();
    visited_by_depth.push(copy_indices(seed_indices));

    // The working frontier holds only in-range seeds.
    let mut frontier: Vec<usize> = Vec::new();
    let mut k3: usize = 0;
    while k3 < seed_indices.len()
        invariant
            k3 <= seed_indices@.len(),
            forall|j: int| 0 <= j < frontier@.len() ==> (#[trigger] frontier@[j]) < num_nodes,
            seed_indices@.len() == 0 ==> frontier@.len() == 0,
        decreases seed_indices@.len() - k3,
    {
        let idx = seed_indices[k3];
        if idx < num_nodes {
            frontier.push(idx);
        }
        k3 = k3 + 1;
    }
    let mut total_visited: usize = seed_indices.len();
    proof {
        assert(spec_layers_len_sum(visited_by_depth@) == 0);
    }

    let gamma: u32 = config.decay_per_hop_milli;
    let mut d: usize = 0;
    while d < depth
        invariant
            activations@.len() == num_nodes,
            visited@.len() == num_nodes,
            forall|i: int|
                0 <= i < num_nodes ==> -ACTIVATION_LIMIT <= #[trigger] activations@[i]
                    <= ACTIVATION_LIMIT,
            forall|i: int| 0 <= i < num_nodes ==> #[trigger] activations@[i] >= seeded[i],
            seeded.len() == num_nodes,
            forall|i: int| 0 <= i < num_nodes ==> -ACTIVATION_LIMIT <= #[trigger] seeded[i] <= ACTIVATION_LIMIT,
            depth == 0 ==> activations@ == seeded,
            associations@.len() == 0 ==> activations@ == seeded,
            seed_indices@.len() == 0 ==> activations@ == seeded,
            seed_indices@.len() == 0 ==> frontier@.len() == 0,
            forall|j: int| 0 <= j < frontier@.len() ==> (#[trigger] frontier@[j]) < num_nodes,
            spec_adjacency_wf(forward_adj@, num_nodes as nat),
            spec_adjacency_wf(backward_adj@, num_nodes as nat),
            associations@.len() == 0 ==> spec_adjacency_all_empty(forward_adj@)
                && spec_adjacency_all_empty(backward_adj@),
            visited_by_depth@.len() >= 1,
            visited_by_depth@[0]@ == seed_indices@,
            d <= depth,
            visited_by_depth@.len() <= d + 1,
            total_visited == seed_indices@.len() + spec_layers_len_sum(visited_by_depth@),
            total_visited <= vstd::math::max(config.max_nodes as int, seed_indices@.len() as int),
            spec_layers_valid(visited_by_depth@, num_nodes as nat, seed_indices@),
            spec_layers_distinct(visited_by_depth@),
            spec_layers_marked(visited_by_depth@, visited@),
            forall|s: int|
                0 <= s < seed_indices@.len() && seed_indices@[s] < num_nodes
                    ==> visited@[#[trigger] seed_indices@[s] as int],
            config.decay_per_hop_milli <= 1000,
            config.minimum_activation_milli >= 0,
            gamma == config.decay_per_hop_milli,
        ensures
            activations@.len() == num_nodes,
            forall|i: int|
                0 <= i < num_nodes ==> -ACTIVATION_LIMIT <= #[trigger] activations@[i]
                    <= ACTIVATION_LIMIT,
            forall|i: int| 0 <= i < num_nodes ==> #[trigger] activations@[i] >= seeded[i],
            depth == 0 ==> activations@ == seeded,
            associations@.len() == 0 ==> activations@ == seeded,
            seed_indices@.len() == 0 ==> activations@ == seeded,
            visited_by_depth@.len() >= 1,
            visited_by_depth@[0]@ == seed_indices@,
            visited_by_depth@.len() <= depth + 1,
            seed_indices@.len() + spec_layers_len_sum(visited_by_depth@) <= vstd::math::max(
                config.max_nodes as int,
                seed_indices@.len() as int,
            ),
            spec_layers_valid(visited_by_depth@, num_nodes as nat, seed_indices@),
            spec_layers_distinct(visited_by_depth@),
        decreases depth - d,
    {
        if total_visited >= config.max_nodes {
            break ;
        }
        let mut next_frontier: Vec<usize> = Vec::new();
        let mut next_acc: Vec<i64> = Vec::new();
        let mut z: usize = 0;
        while z < num_nodes
            invariant
                z <= num_nodes,
                next_acc@.len() == z,
                forall|t: int| 0 <= t < z ==> #[trigger] next_acc@[t] == 0i64,
            decreases num_nodes - z,
        {
            next_acc.push(0i64);
            z = z + 1;
        }

        let mut f: usize = 0;
        while f < frontier.len()
            invariant
                f <= frontier@.len(),
                activations@.len() == num_nodes,
                visited@.len() == num_nodes,
                next_acc@.len() == num_nodes,
                forall|i: int|
                    0 <= i < num_nodes ==> -ACTIVATION_LIMIT <= #[trigger] activations@[i]
                        <= ACTIVATION_LIMIT,
                forall|i: int| 0 <= i < num_nodes ==> 0 <= #[trigger] next_acc@[i] <= ACTIVATION_LIMIT,
                forall|j: int| 0 <= j < frontier@.len() ==> (#[trigger] frontier@[j]) < num_nodes,
                forall|j: int| 0 <= j < next_frontier@.len() ==> (#[trigger] next_frontier@[j]) < num_nodes,
                forall|j: int|
                    0 <= j < next_frontier@.len() ==> visited@[#[trigger] next_frontier@[j] as int],
                forall|j1: int, j2: int|
                    0 <= j1 < j2 < next_frontier@.len() ==> (#[trigger] next_frontier@[j1]) != (
                    #[trigger] next_frontier@[j2]),
                forall|j: int|
                    0 <= j < next_frontier@.len() ==> !seed_indices@.contains(
                        #[trigger] next_frontier@[j],
                    ),
                forall|l: int, j1: int, j2: int|
                    1 <= l < visited_by_depth@.len() && 0 <= j1 < visited_by_depth@[l]@.len() && 0
                        <= j2 < next_frontier@.len() ==> (#[trigger] visited_by_depth@[l]@[j1]) != (
                    #[trigger] next_frontier@[j2]),
                spec_adjacency_wf(forward_adj@, num_nodes as nat),
                spec_adjacency_wf(backward_adj@, num_nodes as nat),
                visited_by_depth@.len() >= 1,
                visited_by_depth@[0]@ == seed_indices@,
                total_visited == seed_indices@.len() + spec_layers_len_sum(visited_by_depth@)
                    + next_frontier@.len(),
                total_visited <= vstd::math::max(
                    config.max_nodes as int,
                    seed_indices@.len() as int,
                ),
                spec_layers_valid(visited_by_depth@, num_nodes as nat, seed_indices@),
                spec_layers_distinct(visited_by_depth@),
                spec_layers_marked(visited_by_depth@, visited@),
                forall|s: int|
                    0 <= s < seed_indices@.len() && seed_indices@[s] < num_nodes
                        ==> visited@[#[trigger] seed_indices@[s] as int],
                associations@.len() == 0 ==> next_frontier@.len() == 0,
                seed_indices@.len() == 0 ==> next_frontier@.len() == 0,
                seed_indices@.len() == 0 ==> frontier@.len() == 0,
                associations@.len() == 0 ==> spec_adjacency_all_empty(forward_adj@)
                    && spec_adjacency_all_empty(backward_adj@),
                config.minimum_activation_milli >= 0,
                gamma <= 1000,
            decreases frontier@.len() - f,
        {
            let u = frontier[f];
            let act_u = activations[u];
            if act_u >= config.minimum_activation_milli {
                let fan: usize = if forward_adj[u].len() > 0 {
                    forward_adj[u].len()
                } else {
                    1
                };
                let mut e: usize = 0;
                while e < forward_adj[u].len()
                    invariant
                        e <= forward_adj@[u as int]@.len(),
                        u < num_nodes,
                        0 <= act_u <= ACTIVATION_LIMIT,
                        fan >= 1,
                        activations@.len() == num_nodes,
                        visited@.len() == num_nodes,
                        next_acc@.len() == num_nodes,
                        forall|i: int|
                            0 <= i < num_nodes ==> 0 <= #[trigger] next_acc@[i] <= ACTIVATION_LIMIT,
                        forall|j: int|
                            0 <= j < next_frontier@.len() ==> (#[trigger] next_frontier@[j])
                                < num_nodes,
                        forall|j: int|
                            0 <= j < next_frontier@.len() ==> visited@[#[trigger] next_frontier@[j] as int],
                        forall|j1: int, j2: int|
                            0 <= j1 < j2 < next_frontier@.len() ==> (#[trigger] next_frontier@[j1])
                                != (#[trigger] next_frontier@[j2]),
                        forall|j: int|
                            0 <= j < next_frontier@.len() ==> !seed_indices@.contains(
                                #[trigger] next_frontier@[j],
                            ),
                        forall|l: int, j1: int, j2: int|
                            1 <= l < visited_by_depth@.len() && 0 <= j1 < visited_by_depth@[l]@.len()
                                && 0 <= j2 < next_frontier@.len() ==> (
                            #[trigger] visited_by_depth@[l]@[j1]) != (#[trigger] next_frontier@[j2]),
                        spec_adjacency_wf(forward_adj@, num_nodes as nat),
                        total_visited == seed_indices@.len() + spec_layers_len_sum(
                            visited_by_depth@,
                        ) + next_frontier@.len(),
                        total_visited <= vstd::math::max(
                            config.max_nodes as int,
                            seed_indices@.len() as int,
                        ),
                        spec_layers_marked(visited_by_depth@, visited@),
                        forall|s: int|
                            0 <= s < seed_indices@.len() && seed_indices@[s] < num_nodes
                                ==> visited@[#[trigger] seed_indices@[s] as int],
                        associations@.len() == 0 ==> next_frontier@.len() == 0,
                        associations@.len() == 0 ==> forward_adj@[u as int]@.len() == 0,
                        gamma <= 1000,
                    decreases forward_adj@[u as int]@.len() - e,
                {
                    if total_visited >= config.max_nodes {
                        break ;
                    }
                    let edge = forward_adj[u][e];
                    let amount = spread_amount(act_u, edge.1, gamma, 1000, fan);
                    let cur = next_acc[edge.0];
                    next_acc[edge.0] = saturating_accumulate(cur, amount);
                    if !visited[edge.0] {
                        visited[edge.0] = true;
                        next_frontier.push(edge.0);
                        total_visited = total_visited + 1;
                    }
                    e = e + 1;
                }
                if config.bidirectional {
                    let back_fan: usize = if backward_adj[u].len() > 0 {
                        backward_adj[u].len()
                    } else {
                        1
                    };
                    let mut e2: usize = 0;
                    while e2 < backward_adj[u].len()
                        invariant
                            e2 <= backward_adj@[u as int]@.len(),
                            u < num_nodes,
                            0 <= act_u <= ACTIVATION_LIMIT,
                            back_fan >= 1,
                            activations@.len() == num_nodes,
                            visited@.len() == num_nodes,
                            next_acc@.len() == num_nodes,
                            forall|i: int|
                                0 <= i < num_nodes ==> 0 <= #[trigger] next_acc@[i]
                                    <= ACTIVATION_LIMIT,
                            forall|j: int|
                                0 <= j < next_frontier@.len() ==> (#[trigger] next_frontier@[j])
                                    < num_nodes,
                            forall|j: int|
                                0 <= j < next_frontier@.len() ==> visited@[#[trigger] next_frontier@[j] as int],
                            forall|j1: int, j2: int|
                                0 <= j1 < j2 < next_frontier@.len() ==> (
                                #[trigger] next_frontier@[j1]) != (#[trigger] next_frontier@[j2]),
                            forall|j: int|
                                0 <= j < next_frontier@.len() ==> !seed_indices@.contains(
                                    #[trigger] next_frontier@[j],
                                ),
                            forall|l: int, j1: int, j2: int|
                                1 <= l < visited_by_depth@.len() && 0 <= j1 < visited_by_depth@[l]@.len()
                                    && 0 <= j2 < next_frontier@.len() ==> (
                                #[trigger] visited_by_depth@[l]@[j1]) != (
                                #[trigger] next_frontier@[j2]),
                            spec_adjacency_wf(backward_adj@, num_nodes as nat),
                            total_visited == seed_indices@.len() + spec_layers_len_sum(
                                visited_by_depth@,
                            ) + next_frontier@.len(),
                            total_visited <= vstd::math::max(
                                config.max_nodes as int,
                                seed_indices@.len() as int,
                            ),
                            spec_layers_marked(visited_by_depth@, visited@),
                            forall|s: int|
                                0 <= s < seed_indices@.len() && seed_indices@[s] < num_nodes
                                    ==> visited@[#[trigger] seed_indices@[s] as int],
                            associations@.len() == 0 ==> next_frontier@.len() == 0,
                            associations@.len() == 0 ==> backward_adj@[u as int]@.len() == 0,
                            gamma <= 1000,
                        decreases backward_adj@[u as int]@.len() - e2,
                    {
                        if total_visited >= config.max_nodes {
                            break ;
                        }
                        let edge = backward_adj[u][e2];
                        let amount = spread_amount(
                            act_u,
                            edge.1,
                            gamma,
                            BACKWARD_ATTENUATION_MILLI,
                            back_fan,
                        );
                        let cur = next_acc[edge.0];
                        next_acc[edge.0] = saturating_accumulate(cur, amount);
                        if !visited[edge.0] {
                            visited[edge.0] = true;
                            next_frontier.push(edge.0);
                            total_visited = total_visited + 1;
                        }
                        e2 = e2 + 1;
                    }
                }
            }
            f = f + 1;
        }

        if next_frontier.len() == 0 {
            break ;
        }

        // Commit this layer's contributions in one step.
        let mut c: usize = 0;
        while c < num_nodes
            invariant
                c <= num_nodes,
                activations@.len() == num_nodes,
                next_acc@.len() == num_nodes,
                seeded.len() == num_nodes,
                forall|i: int|
                    0 <= i < num_nodes ==> -ACTIVATION_LIMIT <= #[trigger] activations@[i]
                        <= ACTIVATION_LIMIT,
                forall|i: int| 0 <= i < num_nodes ==> #[trigger] activations@[i] >= seeded[i],
                forall|i: int| 0 <= i < num_nodes ==> -ACTIVATION_LIMIT <= #[trigger] seeded[i] <= ACTIVATION_LIMIT,
                forall|i: int| 0 <= i < num_nodes ==> 0 <= #[trigger] next_acc@[i] <= ACTIVATION_LIMIT,
            decreases num_nodes - c,
        {
            let cur = activations[c];
            let add = next_acc[c];
            activations[c] = saturating_accumulate(cur, add);
            c = c + 1;
        }

        let ghost old_layers = visited_by_depth@;
        visited_by_depth.push(copy_indices(&next_frontier));
        proof {
            assert(visited_by_depth@.len() == old_layers.len() + 1);
            assert(forall|l: int|
                0 <= l < old_layers.len() ==> visited_by_depth@[l] == old_layers[l]);
            assert(visited_by_depth@.drop_last() =~= old_layers);
            assert(spec_layers_len_sum(visited_by_depth@) == spec_layers_len_sum(old_layers)
                + next_frontier@.len());
        }
        frontier = next_frontier;
        d = d + 1;
    }

    proof {
        if forall|k: int|
            0 <= k < seed_activations@.len() ==> #[trigger] seed_activations@[k] >= 0 {
            lemma_seeded_nonneg(num_nodes as nat, seed_indices@, seed_activations@);
        }
    }
    SpreadingResult { activations_milli: activations, visited_by_depth }
}

/// One hop never amplifies: a spreading contribution is non-negative, never
/// exceeds the source activation scaled by the per-hop decay, and so never
/// exceeds the source activation itself.
pub proof fn lemma_spread_amount_bounded(act: int, w: int, gamma: int, atten: int, fan: int)
    requires
        0 <= act,
        0 <= w <= 1000,
        0 <= gamma <= 1000,
        0 <= atten <= 1000,
        1 <= fan,
    ensures
        0 <= spec_spread_amount(act, w, gamma, atten, fan) <= (act * gamma) / 1000,
        spec_spread_amount(act, w, gamma, atten, fan) <= act,
{
    let s1 = act * w / 1000;
    let s2 = s1 * gamma / 1000;
    let s3 = s2 * atten / 1000;
    let s4 = s3 / fan;
    assert(act * w <= act * 1000 && 0 <= act * w) by (nonlinear_arith)
        requires
            0 <= act,
            0 <= w <= 1000,
    ;
    vstd::arithmetic::div_mod::lemma_div_is_ordered(act * w, act * 1000, 1000);
    vstd::arithmetic::div_mod::lemma_div_multiples_vanish(act, 1000);
    assert(s1 <= act && 0 <= s1);
    assert(s1 * gamma <= act * gamma && 0 <= s1 * gamma) by (nonlinear_arith)
        requires
            0 <= s1 <= act,
            0 <= gamma,
    ;
    vstd::arithmetic::div_mod::lemma_div_is_ordered(s1 * gamma, act * gamma, 1000);
    assert(s2 <= act * gamma / 1000 && 0 <= s2);
    assert(s2 * atten <= s2 * 1000 && 0 <= s2 * atten) by (nonlinear_arith)
        requires
            0 <= s2,
            0 <= atten <= 1000,
    ;
    vstd::arithmetic::div_mod::lemma_div_is_ordered(s2 * atten, s2 * 1000, 1000);
    vstd::arithmetic::div_mod::lemma_div_multiples_vanish(s2, 1000);
    assert(s3 <= s2 && 0 <= s3);
    vstd::arithmetic::div_mod::lemma_div_is_ordered_by_denominator(s3, 1, fan);
    assert(s3 / 1 == s3);
    vstd::arithmetic::div_mod::lemma_div_pos_is_pos(s3, fan);
    assert(s4 <= s3 && 0 <= s4);
    assert(act * gamma <= act * 1000) by (nonlinear_arith)
        requires
            0 <= act,
            gamma <= 1000,
    ;
    vstd::arithmetic::div_mod::lemma_div_is_ordered(act * gamma, act * 1000, 1000);
}


/// There is an edge from `a` to `b` in the association list.
pub open spec fn spec_has_edge(assocs: Seq<Association>, a: usize, b: usize) -> bool {
    exists|e: int|
        0 <= e < assocs.len() && (#[trigger] assocs[e]).source == a && assocs[e].target == b
}

/// How many of the first `i` mask entries are set.
spec fn spec_count_marked(mask: Seq<bool>, i: int) -> nat
    decreases i,
{
    if i <= 0 {
        0
    } else {
        spec_count_marked(mask, i - 1) + (if mask[i - 1] {
            1nat
        } else {
            0nat
        })
    }
}

proof fn lemma_count_marked_bound(mask: Seq<bool>, i: int)
    ensures
        spec_count_marked(mask, i) <= vstd::math::max(i, 0),
    decreases i,
{
    if i > 0 {
        lemma_count_marked_bound(mask, i - 1);
    }
}

proof fn lemma_count_marked_zero(mask: Seq<bool>, i: int)
    requires
        forall|j: int| 0 <= j < mask.len() ==> !mask[j],
        i <= mask.len(),
    ensures
        spec_count_marked(mask, i) == 0,
    decreases i,
{
    if i > 0 {
        lemma_count_marked_zero(mask, i - 1);
    }
}

proof fn lemma_count_marked_update(mask: Seq<bool>, at: int, i: int)
    requires
        0 <= at < mask.len(),
        i <= mask.len(),
    ensures
        i <= at ==> spec_count_marked(mask.update(at, true), i) == spec_count_marked(mask, i),
        i > at ==> spec_count_marked(mask.update(at, true), i) == spec_count_marked(mask, i) + (
        if mask[at] {
            0nat
        } else {
            1nat
        }),
    decreases i,
{
    if i > 0 {
        lemma_count_marked_update(mask, at, i - 1);
        if i - 1 == at {
            assert(mask.update(at, true)[at]);
        } else {
            assert(mask.update(at, true)[i - 1] == mask[i - 1]);
        }
    }
}

/// A walk along in-range forward edges.
pub open spec fn spec_is_path(assocs: Seq<Association>, n: nat, p: Seq<usize>) -> bool {
    &&& p.len() >= 1
    &&& forall|k: int| 0 <= k < p.len() ==> (#[trigger] p[k]) < n
    &&& forall|k: int| 0 <= k < p.len() - 1 ==> spec_has_edge(assocs, #[trigger] p[k], p[k + 1])
}

/// A forward path from `source` to `target` exists among the in-range nodes.
pub open spec fn spec_reachable(assocs: Seq<Association>, n: nat, source: usize, target: usize) -> bool {
    exists|p: Seq<usize>|
        #[trigger] spec_is_path(assocs, n, p) && p[0] == source && p[p.len() - 1] == target
}

/// A path starting inside a set of nodes that is closed under in-range
/// forward edges stays inside it.
proof fn lemma_path_stays_marked(assocs: Seq<Association>, n: nat, marked: Seq<bool>, p: Seq<usize>)
    requires
        marked.len() == n,
        spec_is_path(assocs, n, p),
        marked[p[0] as int],
        forall|a: usize, b: usize|
            a < n && b < n && marked[a as int] && #[trigger] spec_has_edge(assocs, a, b)
                ==> marked[b as int],
    ensures
        marked[p[p.len() - 1] as int],
    decreases p.len(),
{
    if p.len() > 1 {
        assert(spec_has_edge(assocs, p[0], p[1]));
        assert(marked[p[1] as int]);
        let rest = p.drop_first();
        assert(spec_is_path(assocs, n, rest)) by {
            assert(forall|k: int| 0 <= k < rest.len() ==> (#[trigger] rest[k]) == p[k + 1]);
        }
        lemma_path_stays_marked(assocs, n, marked, rest);
        assert(rest[rest.len() - 1] == p[p.len() - 1]);
    }
}

/// Forward neighbor lists, each entry backed by an edge of the input list.
fn build_forward_neighbors(associations: &Vec<Association>, num_nodes: usize) -> (r: Vec<
    Vec<usize>,
>)
    ensures
        r@.len() == num_nodes,
        forall|u: int, k: int|
            0 <= u < num_nodes && 0 <= k < r@[u]@.len() ==> (#[trigger] r@[u]@[k]) < num_nodes
                && spec_has_edge(associations@, u as usize, r@[u]@[k]),
        forall|e: int|
            0 <= e < associations@.len() && (#[trigger] associations@[e]).source < num_nodes
                && associations@[e].target < num_nodes ==> r@[associations@[e].source as int]@.contains(
                associations@[e].target,
            ),
{
    let mut forward: Vec<Vec<usize>> = Vec::new();
    let mut i: usize = 0;
    while i < num_nodes
        invariant
            i <= num_nodes,
            forward@.len() == i,
            forall|u: int| 0 <= u < i ==> (#[trigger] forward@[u])@.len() == 0,
        decreases num_nodes - i,
    {
        forward.push(Vec::new());
        i = i + 1;
    }
    let mut e: usize = 0;
    while e < associations.len()
        invariant
            e <= associations@.len(),
            forward@.len() == num_nodes,
            forall|u: int, k: int|
                0 <= u < num_nodes && 0 <= k < forward@[u]@.len() ==> (#[trigger] forward@[u]@[k])
                    < num_nodes && spec_has_edge(associations@, u as usize, forward@[u]@[k]),
            forall|e2: int|
                0 <= e2 < e && (#[trigger] associations@[e2]).source < num_nodes
                    && associations@[e2].target < num_nodes
                    ==> forward@[associations@[e2].source as int]@.contains(
                    associations@[e2].target,
                ),
        decreases associations@.len() - e,
    {
        let assoc = &associations[e];
        if assoc.source < num_nodes && assoc.target < num_nodes {
            let ghost before = forward@;
            forward[assoc.source].push(assoc.target);
            proof {
                assert forall|u: int, k: int|
                    0 <= u < num_nodes && 0 <= k < forward@[u]@.len() implies (
                #[trigger] forward@[u]@[k]) < num_nodes && spec_has_edge(
                    associations@,
                    u as usize,
                    forward@[u]@[k],
                ) by {
                    if u == assoc.source as int && k == forward@[u]@.len() - 1 {
                        assert(forward@[u]@[k] == assoc.target);
                        assert(associations@[e as int].source == assoc.source
                            && associations@[e as int].target == assoc.target);
                    } else {
                        assert(before[u]@[k] == forward@[u]@[k]);
                    }
                }
                assert forall|e2: int|
                    0 <= e2 < e + 1 && (#[trigger] associations@[e2]).source < num_nodes
                        && associations@[e2].target < num_nodes implies forward@[associations@[e2].source as int]@.contains(
                    associations@[e2].target,
                ) by {
                    let src = associations@[e2].source as int;
                    if e2 < e as int {
                        let k = choose|k: int|
                            0 <= k < before[src]@.len() && before[src]@[k]
                                == associations@[e2].target;
                        assert(forward@[src]@[k] == associations@[e2].target);
                    } else {
                        assert(forward@[src]@[forward@[src]@.len() - 1] == assoc.target);
                    }
                }
            }
        } else {
            proof {
                assert forall|e2: int|
                    0 <= e2 < e + 1 && (#[trigger] associations@[e2]).source < num_nodes
                        && associations@[e2].target < num_nodes implies forward@[associations@[e2].source as int]@.contains(
                    associations@[e2].target,
                ) by {
                    assert(e2 < e as int);
                }
            }
        }
        e = e + 1;
    }
    forward
}

/// Find a path from `source` to `target` along forward edges, by
/// breadth-first search.
///
/// A non-empty result starts at the source, ends at the target, and walks
/// real edges of the association list; the empty result means the search
/// exhausted everything reachable without meeting the target.
pub fn find_activation_path(
    num_nodes: usize,
    associations: &Vec<Association>,
    source: usize,
    target: usize,
) -> (r: Vec<usize>)
    requires
        source < num_nodes,
        target < num_nodes,
    ensures
        forall|k: int| 0 <= k < r@.len() ==> (#[trigger] r@[k]) < num_nodes,
        r@.len() > 0 ==> r@[0] == source && r@[r@.len() - 1] == target,
        forall|k: int|
            0 <= k < r@.len() - 1 ==> spec_has_edge(associations@, #[trigger] r@[k], r@[k + 1]),
        source == target ==> r@.len() == 1,
        r@.len() > 0 <==> spec_reachable(associations@, num_nodes as nat, source, target),
{
    if source == target {
        let path: Vec<usize> = vec![source];
        proof {
            assert(spec_is_path(associations@, num_nodes as nat, path@) && path@[0] == source
                && path@[path@.len() - 1] == target);
        }
        return path;
    }
    let n = num_nodes;
    let adj = build_forward_neighbors(associations, n);

    let mut visited: Vec<bool> = Vec::new();
    let mut parent: Vec<usize> = Vec::new();
    let mut dist: Vec<usize> = Vec::new();
    let mut z: usize = 0;
    while z < n
        invariant
            z <= n,
            visited@.len() == z,
            parent@.len() == z,
            dist@.len() == z,
            forall|j: int| 0 <= j < z ==> !(#[trigger] visited@[j]),
            forall|j: int| 0 <= j < z ==> (#[trigger] dist@[j]) == 0,
        decreases n - z,
    {
        visited.push(false);
        parent.push(0);
        dist.push(0);
        z = z + 1;
    }
    proof {
        lemma_count_marked_zero(visited@, n as int);
    }
    let ghost init_visited = visited@;
    visited[source] = true;
    proof {
        lemma_count_marked_update(init_visited, source as int, n as int);
    }
    let mut queue: Vec<usize> = vec![source];
    let mut head: usize = 0;

    while head < queue.len()
        invariant
            n == num_nodes,
            source < n,
            target < n,
            visited@.len() == n,
            parent@.len() == n,
            dist@.len() == n,
            adj@.len() == n,
            forall|u: int, k: int|
                0 <= u < n && 0 <= k < adj@[u]@.len() ==> (#[trigger] adj@[u]@[k]) < n
                    && spec_has_edge(associations@, u as usize, adj@[u]@[k]),
            visited@[source as int],
            dist@[source as int] == 0,
            forall|v: int|
                0 <= v < n && visited@[v] && v != source ==> (#[trigger] parent@[v]) < n
                    && visited@[parent@[v] as int] && dist@[v] == dist@[parent@[v] as int] + 1
                    && spec_has_edge(associations@, parent@[v] as usize, v as usize),
            forall|v: int|
                0 <= v < n && visited@[v] ==> (#[trigger] dist@[v]) < spec_count_marked(
                    visited@,
                    n as int,
                ),
            forall|q: int|
                0 <= q < queue@.len() ==> (#[trigger] queue@[q]) < n && visited@[queue@[q] as int],
            forall|v: int|
                0 <= v < n && visited@[v] ==> exists|q: int|
                    0 <= q < queue@.len() && (#[trigger] queue@[q]) == v as usize,
            forall|qi: int, k: int|
                0 <= qi < head && 0 <= k < adj@[queue@[qi] as int]@.len()
                    ==> visited@[(#[trigger] adj@[queue@[qi] as int]@[k]) as int],
            queue@.len() == spec_count_marked(visited@, n as int),
            head <= queue@.len(),
        decreases n - head,
    {
        proof {
            lemma_count_marked_bound(visited@, n as int);
        }
        let u = queue[head];
        let neighbor_count = adj[u].len();
        let mut t: usize = 0;
        while t < neighbor_count
            invariant
                t <= neighbor_count,
                u < n,
                n == num_nodes,
                source < n,
                target < n,
                visited@.len() == n,
                parent@.len() == n,
                dist@.len() == n,
                adj@.len() == n,
                neighbor_count == adj@[u as int]@.len(),
                forall|u2: int, k: int|
                    0 <= u2 < n && 0 <= k < adj@[u2]@.len() ==> (#[trigger] adj@[u2]@[k]) < n
                        && spec_has_edge(associations@, u2 as usize, adj@[u2]@[k]),
                visited@[source as int],
                visited@[u as int],
                dist@[source as int] == 0,
                forall|v: int|
                    0 <= v < n && visited@[v] && v != source ==> (#[trigger] parent@[v]) < n
                        && visited@[parent@[v] as int] && dist@[v] == dist@[parent@[v] as int] + 1
                        && spec_has_edge(associations@, parent@[v] as usize, v as usize),
                forall|v: int|
                    0 <= v < n && visited@[v] ==> (#[trigger] dist@[v]) < spec_count_marked(
                        visited@,
                        n as int,
                    ),
                forall|q: int|
                    0 <= q < queue@.len() ==> (#[trigger] queue@[q]) < n && visited@[queue@[q] as int],
                forall|v: int|
                    0 <= v < n && visited@[v] ==> exists|q: int|
                        0 <= q < queue@.len() && (#[trigger] queue@[q]) == v as usize,
                forall|qi: int, k: int|
                    0 <= qi < head && 0 <= k < adj@[queue@[qi] as int]@.len()
                        ==> visited@[(#[trigger] adj@[queue@[qi] as int]@[k]) as int],
                forall|k: int|
                    0 <= k < t ==> visited@[(#[trigger] adj@[u as int]@[k]) as int],
                u == queue@[head as int],
                queue@.len() == spec_count_marked(visited@, n as int),
                head < queue@.len(),
            decreases neighbor_count - t,
        {
            let w = adj[u][t];
            if !visited[w] {
                let ghost before = visited@;
                let ghost queue_before = queue@;
                visited[w] = true;
                proof {
                    lemma_count_marked_update(before, w as int, n as int);
                    lemma_count_marked_bound(visited@, n as int);
                }
                parent[w] = u;
                let du = dist[u];
                dist[w] = du + 1;
                queue.push(w);
                proof {
                    assert forall|v: int|
                        0 <= v < n && visited@[v] implies exists|q: int|
                            0 <= q < queue@.len() && (#[trigger] queue@[q]) == v as usize by {
                        if v == w as int {
                            assert(queue@[queue@.len() - 1] == w);
                        } else {
                            assert(before[v]);
                            let q = choose|q: int|
                                0 <= q < queue_before.len() && (#[trigger] queue_before[q])
                                    == v as usize;
                            assert(queue@[q] == v as usize);
                        }
                    }
                }
            }
            t = t + 1;
        }
        head = head + 1;
    }

    if !visited[target] {
        proof {
            // everything visited is processed, so the visited set is closed
            // under in-range forward edges; a path from the source would
            // have to end inside it
            assert forall|a: usize, b: usize|
                a < n && b < n && visited@[a as int] && #[trigger] spec_has_edge(
                    associations@,
                    a,
                    b,
                ) implies visited@[b as int] by {
                let q = choose|q: int|
                    0 <= q < queue@.len() && (#[trigger] queue@[q]) == a as usize;
                let e = choose|e: int|
                    0 <= e < associations@.len() && (#[trigger] associations@[e]).source == a
                        && associations@[e].target == b;
                assert(adj@[a as int]@.contains(b));
                let k = choose|k: int| 0 <= k < adj@[a as int]@.len() && adj@[a as int]@[k] == b;
                assert(visited@[(adj@[queue@[q] as int]@[k]) as int]);
            }
            if spec_reachable(associations@, n as nat, source, target) {
                let p = choose|p: Seq<usize>|
                    #[trigger] spec_is_path(associations@, n as nat, p) && p[0] == source
                        && p[p.len() - 1] == target;
                lemma_path_stays_marked(associations@, n as nat, visited@, p);
            }
        }
        return Vec::new();
    }

    // Walk the parent chain back from the target, then reverse it.
    let mut rev: Vec<usize> = Vec::new();
    rev.push(target);
    let mut node: usize = target;
    while node != source
        invariant
            n == num_nodes,
            source < n,
            target < n,
            node < n,
            visited@.len() == n,
            parent@.len() == n,
            dist@.len() == n,
            visited@[node as int],
            visited@[source as int],
            dist@[source as int] == 0,
            forall|v: int|
                0 <= v < n && visited@[v] && v != source ==> (#[trigger] parent@[v]) < n
                    && visited@[parent@[v] as int] && dist@[v] == dist@[parent@[v] as int] + 1
                    && spec_has_edge(associations@, parent@[v] as usize, v as usize),
            rev@.len() >= 1,
            rev@[0] == target,
            rev@[rev@.len() - 1] == node,
            forall|k: int| 0 <= k < rev@.len() ==> (#[trigger] rev@[k]) < n,
            forall|k: int|
                0 <= k < rev@.len() - 1 ==> spec_has_edge(
                    associations@,
                    rev@[k + 1],
                    #[trigger] rev@[k],
                ),
        decreases dist@[node as int],
    {
        let p = parent[node];
        rev.push(p);
        node = p;
    }

    let mut path: Vec<usize> = Vec::new();
    let len = rev.len();
    let mut j: usize = 0;
    while j < len
        invariant
            j <= len,
            len == rev@.len(),
            len >= 1,
            rev@[0] == target,
            rev@[len - 1] == source,
            forall|k: int| 0 <= k < len ==> (#[trigger] rev@[k]) < n,
            forall|k: int|
                0 <= k < len - 1 ==> spec_has_edge(associations@, rev@[k + 1], #[trigger] rev@[k]),
            path@.len() == j,
            forall|k: int| 0 <= k < j ==> #[trigger] path@[k] == rev@[len - 1 - k],
        decreases len - j,
    {
        path.push(rev[len - 1 - j]);
        j = j + 1;
    }
    proof {
        assert forall|k: int|
            0 <= k < path@.len() - 1 implies spec_has_edge(
            associations@,
            #[trigger] path@[k],
            path@[k + 1],
        ) by {
            assert(path@[k] == rev@[len - 1 - k]);
            assert(path@[k + 1] == rev@[len - 1 - (k + 1)]);
            assert(spec_has_edge(associations@, rev@[(len - 2 - k) + 1], rev@[len - 2 - k]));
        }
        assert(spec_is_path(associations@, num_nodes as nat, path@) && path@[0] == source
            && path@[path@.len() - 1] == target);
    }
    path
}


/// The total emitted along the first `k` of a node's `fan` edges, with the
/// given weights.
pub open spec fn spec_emitted_sum(
    act: int,
    weights: Seq<int>,
    gamma: int,
    atten: int,
    fan: int,
    k: int,
) -> int
    decreases k,
{
    if k <= 0 {
        0
    } else {
        spec_emitted_sum(act, weights, gamma, atten, fan, k - 1) + spec_spread_amount(
            act,
            weights[k - 1],
            gamma,
            atten,
            fan,
        )
    }
}

/// Fan normalization conserves mass: what a node emits over all of its
/// edges in one layer never exceeds its own activation scaled by the
/// per-hop decay.  This is the conservation half of spreading; each hop
/// multiplies the available mass by at most the decay.
pub proof fn lemma_spread_emission_conserved(
    act: int,
    weights: Seq<int>,
    gamma: int,
    atten: int,
)
    requires
        0 <= act,
        0 <= gamma <= 1000,
        0 <= atten <= 1000,
        weights.len() >= 1,
        forall|e: int| 0 <= e < weights.len() ==> 0 <= #[trigger] weights[e] <= 1000,
    ensures
        spec_emitted_sum(
            act,
            weights,
            gamma,
            atten,
            weights.len() as int,
            weights.len() as int,
        ) <= (act * gamma) / 1000,
{
    let fan = weights.len() as int;
    let budget = (act * gamma) / 1000;
    let share = budget / fan;
    assert(0 <= budget) by {
        assert(0 <= act * gamma) by (nonlinear_arith)
            requires
                0 <= act,
                0 <= gamma,
        ;
    }
    lemma_emitted_sum_bounded(act, weights, gamma, atten, fan, fan);
    assert(fan * share <= budget) by {
        vstd::arithmetic::div_mod::lemma_fundamental_div_mod(budget, fan);
        assert(budget % fan >= 0);
    }
}

/// The emitted sum over `k` edges stays under `k` equal shares of the
/// decayed budget.
proof fn lemma_emitted_sum_bounded(act: int, weights: Seq<int>, gamma: int, atten: int, fan: int, k: int)
    requires
        0 <= act,
        0 <= gamma <= 1000,
        0 <= atten <= 1000,
        fan == weights.len(),
        fan >= 1,
        0 <= k <= weights.len(),
        forall|e: int| 0 <= e < weights.len() ==> 0 <= #[trigger] weights[e] <= 1000,
    ensures
        spec_emitted_sum(act, weights, gamma, atten, fan, k) <= k * (((act * gamma) / 1000) / fan),
    decreases k,
{
    let budget = (act * gamma) / 1000;
    let share = budget / fan;
    if k > 0 {
        lemma_emitted_sum_bounded(act, weights, gamma, atten, fan, k - 1);
        let w = weights[k - 1];
        lemma_spread_amount_bounded(act, w, gamma, atten, fan);
        // one edge's emission stays under one share of the decayed budget
        assert(spec_spread_amount(act, w, gamma, atten, fan) <= share) by {
            let s1 = act * w / 1000;
            let s2 = s1 * gamma / 1000;
            let s3 = s2 * atten / 1000;
            assert(act * w <= act * 1000 && 0 <= act * w) by (nonlinear_arith)
                requires
                    0 <= act,
                    0 <= w <= 1000,
            ;
            vstd::arithmetic::div_mod::lemma_div_is_ordered(act * w, act * 1000, 1000);
            vstd::arithmetic::div_mod::lemma_div_multiples_vanish(act, 1000);
            assert(s1 <= act && 0 <= s1);
            assert(s1 * gamma <= act * gamma && 0 <= s1 * gamma) by (nonlinear_arith)
                requires
                    0 <= s1 <= act,
                    0 <= gamma,
            ;
            vstd::arithmetic::div_mod::lemma_div_is_ordered(s1 * gamma, act * gamma, 1000);
            assert(s2 <= budget && 0 <= s2);
            assert(s2 * atten <= s2 * 1000 && 0 <= s2 * atten) by (nonlinear_arith)
                requires
                    0 <= s2,
                    0 <= atten <= 1000,
            ;
            vstd::arithmetic::div_mod::lemma_div_is_ordered(s2 * atten, s2 * 1000, 1000);
            vstd::arithmetic::div_mod::lemma_div_multiples_vanish(s2, 1000);
            assert(s3 <= budget && 0 <= s3);
            vstd::arithmetic::div_mod::lemma_div_is_ordered(s3, budget, fan);
        }
        assert((k - 1) * share + share == k * share) by (nonlinear_arith);
    }
}

/// Count of strictly positive activations in the prefix before `i`.
pub open spec fn spec_count_positive(act: Seq<i64>, i: int) -> nat
    decreases i,
{
    if i <= 0 {
        0
    } else {
        spec_count_positive(act, i - 1) + (if act[i - 1] > 0 {
            1nat
        } else {
            0nat
        })
    }
}

/// Get the `top_k` most activated nodes, most active first, ties broken by
/// lower index; only strictly positive activations count.
pub fn get_top_activated(activations_milli: &Vec<i64>, top_k: usize) -> (r: Vec<usize>)
    ensures
        r@.len() == vstd::math::min(
            spec_count_positive(activations_milli@, activations_milli@.len() as int) as int,
            top_k as int,
        ),
        forall|j: int|
            0 <= j < r@.len() ==> (#[trigger] r@[j]) < activations_milli@.len()
                && activations_milli@[r@[j] as int] > 0,
        forall|i: int, j: int|
            0 <= i < j < r@.len() ==> activations_milli@[r@[i] as int]
                > activations_milli@[r@[j] as int] || (activations_milli@[r@[i] as int]
                == activations_milli@[r@[j] as int] && r@[i] <= r@[j]),
        forall|i: int, j: int| 0 <= i < j < r@.len() ==> r@[i] != r@[j],
        forall|i: int|
            #![trigger activations_milli@[i]]
            0 <= i < activations_milli@.len() && activations_milli@[i] > 0 && (forall|j: int|
                0 <= j < r@.len() ==> (#[trigger] r@[j]) != i as usize) ==> forall|j: int|
                0 <= j < r@.len() ==> activations_milli@[(#[trigger] r@[j]) as int]
                    > activations_milli@[i] || (activations_milli@[r@[j] as int]
                    == activations_milli@[i] && r@[j] < i as usize),
{
    let n = activations_milli.len();
    let mut pairs: Vec<(usize, i64)> = Vec::new();
    let mut i: usize = 0;
    while i < n
        invariant
            i <= n,
            n == activations_milli@.len(),
            pairs@.len() == spec_count_positive(activations_milli@, i as int),
            forall|j: int|
                0 <= j < pairs@.len() ==> (#[trigger] pairs@[j]).0 < n
                    && activations_milli@[pairs@[j].0 as int] == pairs@[j].1 && pairs@[j].1 > 0,
            forall|a: int, b: int| 0 <= a < b < pairs@.len() ==> pairs@[a].0 < pairs@[b].0,
            forall|j: int| 0 <= j < pairs@.len() ==> (#[trigger] pairs@[j]).0 < i,
            forall|k: int|
                #![trigger activations_milli@[k]]
                0 <= k < i && activations_milli@[k] > 0 ==> exists|j: int|
                    0 <= j < pairs@.len() && (#[trigger] pairs@[j]).0 == k as usize,
        decreases n - i,
    {
        let a = activations_milli[i];
        let ghost pairs_before = pairs@;
        if a > 0 {
            pairs.push((i, a));
        }
        proof {
            assert forall|k: int|
                #![trigger activations_milli@[k]]
                0 <= k < i + 1 && activations_milli@[k] > 0 implies exists|j: int|
                    0 <= j < pairs@.len() && (#[trigger] pairs@[j]).0 == k as usize by {
                if k < i as int {
                    let j = choose|j: int|
                        0 <= j < pairs_before.len() && (#[trigger] pairs_before[j]).0 == k as usize;
                    assert(pairs@[j].0 == k as usize);
                } else {
                    assert(pairs@[pairs@.len() - 1].0 == i);
                }
            }
        }
        i = i + 1;
    }
    let sorted = sort_pairs_desc(pairs);
    proof {
        broadcast use vstd::seq_lib::group_to_multiset_ensures;

        assert forall|j: int|
            0 <= j < sorted@.len() implies (#[trigger] sorted@[j]).0 < n
            && activations_milli@[sorted@[j].0 as int] == sorted@[j].1 && sorted@[j].1 > 0 by {
            assert(sorted@.to_multiset().contains(sorted@[j]));
            assert(pairs@.to_multiset().contains(sorted@[j]));
            assert(pairs@.contains(sorted@[j]));
        }
    }
    let out = take_indices(&sorted, top_k);
    proof {
        broadcast use vstd::seq_lib::group_to_multiset_ensures;

        assert forall|i: int, j: int|
            0 <= i < j < out@.len() implies activations_milli@[out@[i] as int]
            > activations_milli@[out@[j] as int] || (activations_milli@[out@[i] as int]
            == activations_milli@[out@[j] as int] && out@[i] <= out@[j]) by {
            assert(out@[i] == sorted@[i].0 && out@[j] == sorted@[j].0);
            assert(crate::ranking::rank_le(sorted@[i], sorted@[j]));
        }
        crate::ranking::lemma_permutation_distinct_keys(
            pairs@,
            sorted@,
            |p: (usize, i64)| p.0 as int,
        );
        assert forall|i: int, j: int| 0 <= i < j < out@.len() implies out@[i] != out@[j] by {
            assert(out@[i] == sorted@[i].0 && out@[j] == sorted@[j].0);
        }
        // a positive index left out is outranked by every returned index
        assert forall|i: int|
            #![trigger activations_milli@[i]]
            0 <= i < n && activations_milli@[i] > 0 && (forall|j: int|
                0 <= j < out@.len() ==> (#[trigger] out@[j]) != i as usize) implies (forall|
            j: int,
        |
            0 <= j < out@.len() ==> activations_milli@[(#[trigger] out@[j]) as int]
                > activations_milli@[i] || (activations_milli@[out@[j] as int]
                == activations_milli@[i] && out@[j] < i as usize)) by {
            let jk = choose|jk: int|
                0 <= jk < pairs@.len() && (#[trigger] pairs@[jk]).0 == i as usize;
            assert(pairs@.contains(pairs@[jk]));
            assert(sorted@.to_multiset().contains(pairs@[jk]));
            assert(sorted@.contains(pairs@[jk]));
            let q0 = choose|q0: int| 0 <= q0 < sorted@.len() && sorted@[q0] == pairs@[jk];
            crate::ranking::lemma_pair_position_of(sorted@, i as usize, q0);
            let q = crate::ranking::spec_pair_position_of(sorted@, i as usize);
            assert(sorted@[q].1 == activations_milli@[i]);
            assert(q >= out@.len()) by {
                if q < out@.len() {
                    assert(out@[q] == sorted@[q].0);
                }
            }
            assert forall|j: int|
                0 <= j < out@.len() implies activations_milli@[(#[trigger] out@[j]) as int]
                > activations_milli@[i] || (activations_milli@[out@[j] as int]
                == activations_milli@[i] && out@[j] < i as usize) by {
                assert(out@[j] == sorted@[j].0);
                assert(crate::ranking::rank_le(sorted@[j], sorted@[q]));
                assert(out@[j] != i as usize);
            }
        }
    }
    out
}

} // verus!
