//! Retrieval pipeline.
//!
//! The complete pipeline in one pass: working-memory boost on the probe-trace
//! similarities, the MINERVA 2 cube, emotional and recency modulation,
//! spreading through the association graph, then filtering, ranking, and
//! truncation.  The caller supplies the transcendental ingredients as milli
//! values: cosine similarities, base-level activations (clamped to `-10.0`
//! where a history is empty), and the activation floor equivalent to its
//! retrieval-probability floor — the logistic is monotone, so filtering by
//! probability is filtering by total activation.

use vstd::prelude::*;

use crate::activation::{
    combine_activations,
    nonlinear_activation,
    scale_milli,
    spec_cube_milli,
    spec_emotional_multiplier_milli,
    spec_recency_boost_milli,
    spec_scale_milli,
    ACTIVATION_LIMIT,
};
use crate::ranking::{sort_pairs_desc, take_indices};
use crate::spreading::{lemma_seeded_nonneg, spread_activation, Association, SpreadingConfig};

verus! {

/// Similarity floor (milli) a memory's cubed probe activation must exceed to
/// become a spreading seed; prevents spreading from pure recency.
pub const SEED_PROBE_FLOOR_MILLI: i64 = 100;

/// At most this many memories seed the spreading stage.
pub const MAX_SEEDS: usize = 5;

/// Configuration for retrieval.
#[derive(Clone, Debug)]
pub struct RetrievalConfig {
    /// Spreading activation depth.
    pub spreading_depth: usize,
    /// Spreading decay per hop, milli.
    pub spreading_decay_milli: u32,
    /// Total-activation floor; the host derives it from its probability
    /// floor through the logistic.  `i64::MIN` keeps every candidate.
    pub min_total_activation_milli: i64,
    /// Maximum number of results returned.
    pub max_results: usize,
    /// Whether to spread along backward edges too.
    pub bidirectional: bool,
}

impl Default for RetrievalConfig {
    fn default() -> (r: Self)
        ensures
            r.spreading_depth == 3,
            r.spreading_decay_milli == 700,
            r.min_total_activation_milli == i64::MIN,
            r.max_results == 10,
            r.bidirectional == true,
    {
        RetrievalConfig {
            spreading_depth: 3,
            spreading_decay_milli: 700,
            min_total_activation_milli: i64::MIN,
            max_results: 10,
            bidirectional: true,
        }
    }
}

/// Input data for retrieval; arrays are parallel by memory index.
#[derive(Clone, Debug)]
pub struct RetrievalInput {
    /// Cosine similarity of the probe to each memory, milli.
    pub similarities_milli: Vec<i64>,
    /// Base-level activation of each memory, milli; `-10_000` stands for a
    /// memory that was never accessed.
    pub base_levels_milli: Vec<i64>,
    /// Emotional weight per memory, milli; a short array means `0.5` for the
    /// missing indices.
    pub emotional_weights_milli: Vec<i64>,
    /// Working-memory boost per memory, milli; a short array means no boost.
    pub working_memory_boosts_milli: Vec<i64>,
    /// Association graph edges.
    pub associations: Vec<Association>,
}

/// A memory candidate with all activation components, milli.
#[derive(Clone, Copy, Debug, PartialEq, Eq, Structural)]
pub struct RetrievalCandidate {
    /// Memory index.
    pub index: usize,
    /// Base-level activation from the access history.
    pub base_level_milli: i64,
    /// Probe activation: boosted, cubed, emotionally modulated similarity.
    pub probe_activation_milli: i64,
    /// Spreading activation received from associated memories.
    pub spreading_milli: i64,
    /// Emotional weight.
    pub emotional_weight_milli: i64,
    /// Combined total activation: the ranking key.
    pub total_activation_milli: i64,
}

/// An entry of a parallel milli array, or the default where the array is
/// short.
pub open spec fn spec_get_or(v: Seq<i64>, i: int, default: i64) -> i64 {
    if 0 <= i < v.len() {
        v[i]
    } else {
        default
    }
}

/// Similarity after the working-memory boost: scaled by the boost and capped
/// at a perfect match, preserving sign.
pub open spec fn spec_boosted_similarity(sim: int, boost: int) -> int {
    vstd::math::min(spec_scale_milli(sim, boost), 1000)
}

/// Probe activation before emotional modulation: the boosted similarity,
/// cubed.
pub open spec fn spec_probe_raw(similarities: Seq<i64>, boosts: Seq<i64>, i: int) -> int {
    spec_cube_milli(spec_boosted_similarity(similarities[i] as int, spec_get_or(boosts, i, 1000) as int))
}

/// A memory's total activation when nothing spreads: the emotionally
/// modulated probe activation, scaled up by the recency boost.
pub open spec fn spec_total_without_spreading(
    similarities: Seq<i64>,
    base_levels: Seq<i64>,
    emotional: Seq<i64>,
    boosts: Seq<i64>,
    i: int,
) -> int {
    spec_scale_milli(
        spec_scale_milli(
            spec_probe_raw(similarities, boosts, i),
            spec_emotional_multiplier_milli(spec_get_or(emotional, i, 500) as int),
        ),
        1000 + spec_recency_boost_milli(base_levels[i] as int),
    )
}

/// How many of the first `i` memories reach the activation floor when
/// nothing spreads.
pub open spec fn spec_count_meeting_without_spreading(
    similarities: Seq<i64>,
    base_levels: Seq<i64>,
    emotional: Seq<i64>,
    boosts: Seq<i64>,
    floor: int,
    i: int,
) -> nat
    decreases i,
{
    if i <= 0 {
        0
    } else {
        spec_count_meeting_without_spreading(similarities, base_levels, emotional, boosts, floor, i - 1)
            + (if spec_total_without_spreading(similarities, base_levels, emotional, boosts, i - 1)
                >= floor {
            1nat
        } else {
            0nat
        })
    }
}

/// A memory whose cubed similarity clears the seed floor has a strictly
/// positive pre-spreading total: the emotional multiplier is at least one
/// half and the recency factor at least one.
proof fn lemma_initial_positive(p: int, em: int, rf: int)
    requires
        p > 100,
        500 <= em <= 1500,
        1000 <= rf <= 2000,
    ensures
        spec_scale_milli(spec_scale_milli(p, em), rf) > 0,
{
    assert(p * em >= 101 * 500) by (nonlinear_arith)
        requires
            p >= 101,
            em >= 500,
    ;
    vstd::arithmetic::div_mod::lemma_div_is_ordered(50500, p * em, 1000);
    let inner = spec_scale_milli(p, em);
    assert(inner >= 50);
    assert(inner * rf >= 50 * 1000) by (nonlinear_arith)
        requires
            inner >= 50,
            rf >= 1000,
    ;
    vstd::arithmetic::div_mod::lemma_div_is_ordered(50000, inner * rf, 1000);
}

/// The recency boost always lies between zero and one.
proof fn lemma_recency_boost_range(base: int)
    ensures
        0 <= spec_recency_boost_milli(base) <= 1000,
{
}

/// The first position of a candidate with the given index in a list.
pub open spec fn spec_position_of(s: Seq<RetrievalCandidate>, index: usize) -> int {
    choose|q: int| 0 <= q < s.len() && (#[trigger] s[q]).index == index
}

proof fn lemma_position_of(s: Seq<RetrievalCandidate>, index: usize, witness: int)
    requires
        0 <= witness < s.len(),
        s[witness].index == index,
    ensures
        0 <= spec_position_of(s, index) < s.len(),
        s[spec_position_of(s, index)].index == index,
{
    assert(0 <= witness < s.len() && (#[trigger] s[witness]).index == index);
}

/// Candidate ranking: higher total first, ties broken by lower index.
pub open spec fn cand_rank_le(a: RetrievalCandidate, b: RetrievalCandidate) -> bool {
    a.total_activation_milli > b.total_activation_milli || (a.total_activation_milli
        == b.total_activation_milli && a.index <= b.index)
}

/// Sort candidates by total activation descending, ties by index ascending.
fn sort_candidates(v: &Vec<RetrievalCandidate>) -> (r: Vec<RetrievalCandidate>)
    ensures
        r@.len() == v@.len(),
        forall|i: int, j: int| 0 <= i < j < r@.len() ==> cand_rank_le(r@[i], r@[j]),
        r@.to_multiset() == v@.to_multiset(),
{
    let mut r: Vec<RetrievalCandidate> = Vec::new();
    let n = v.len();
    let mut i: usize = 0;
    proof {
        broadcast use vstd::seq_lib::group_to_multiset_ensures;

        assert(v@.take(0int) =~= Seq::<RetrievalCandidate>::empty());
        assert(r@ =~= Seq::<RetrievalCandidate>::empty());
    }
    while i < n
        invariant
            i <= n,
            n == v@.len(),
            r@.len() == i,
            forall|a: int, b: int| 0 <= a < b < r@.len() ==> cand_rank_le(r@[a], r@[b]),
            r@.to_multiset() == v@.take(i as int).to_multiset(),
        decreases n - i,
    {
        let x = v[i];
        let mut pos: usize = 0;
        while pos < r.len()
            invariant
                pos <= r@.len(),
                forall|a: int, b: int| 0 <= a < b < r@.len() ==> cand_rank_le(r@[a], r@[b]),
                forall|k: int| 0 <= k < pos ==> cand_rank_le(#[trigger] r@[k], x),
            ensures
                pos <= r@.len(),
                forall|k: int| 0 <= k < pos ==> cand_rank_le(#[trigger] r@[k], x),
                pos < r@.len() ==> cand_rank_le(x, r@[pos as int]),
            decreases r@.len() - pos,
        {
            let y = r[pos];
            if y.total_activation_milli > x.total_activation_milli || (y.total_activation_milli
                == x.total_activation_milli && y.index <= x.index) {
                pos = pos + 1;
            } else {
                break ;
            }
        }
        proof {
            assert forall|k: int| pos <= k < r@.len() implies cand_rank_le(x, #[trigger] r@[k]) by {
                if k > pos {
                    assert(cand_rank_le(r@[pos as int], r@[k]));
                }
            }
        }
        let ghost old_r = r@;
        r.insert(pos, x);
        proof {
            broadcast use vstd::seq_lib::group_to_multiset_ensures;

            assert(r@ =~= old_r.take(pos as int) + seq![x] + old_r.skip(pos as int));
            assert(r@.to_multiset() =~= old_r.to_multiset().insert(x)) by {
                assert(old_r =~= old_r.take(pos as int) + old_r.skip(pos as int));
                vstd::seq_lib::lemma_multiset_commutative(
                    old_r.take(pos as int),
                    old_r.skip(pos as int),
                );
                vstd::seq_lib::lemma_multiset_commutative(
                    old_r.take(pos as int) + seq![x],
                    old_r.skip(pos as int),
                );
                vstd::seq_lib::lemma_multiset_commutative(old_r.take(pos as int), seq![x]);
            }
            assert(v@.take(i as int + 1) =~= v@.take(i as int).push(v@[i as int]));
            assert(v@.take(i as int + 1).to_multiset() =~= v@.take(
                i as int,
            ).to_multiset().insert(x));
        }
        i = i + 1;
    }
    proof {
        assert(v@.take(n as int) =~= v@);
    }
    r
}

/// Full retrieval pipeline.
///
/// Stages: cap the working-memory-boosted similarity, cube it, modulate by
/// the emotional multiplier and the recency boost, seed spreading from the
/// top activated memories whose cubed similarity clears
/// [`SEED_PROBE_FLOOR_MILLI`], add the spreading share, filter by the
/// activation floor, rank, and truncate.
pub fn retrieve(input: &RetrievalInput, config: &RetrievalConfig) -> (r: Vec<RetrievalCandidate>)
    requires
        input.base_levels_milli@.len() == input.similarities_milli@.len(),
        forall|i: int|
            0 <= i < input.similarities_milli@.len() ==> -1000 <= #[trigger] input.similarities_milli@[i]
                <= 1000,
        forall|i: int|
            0 <= i < input.base_levels_milli@.len() ==> -1_000_000_000_000
                <= #[trigger] input.base_levels_milli@[i] <= 1_000_000_000_000,
        forall|i: int|
            0 <= i < input.emotional_weights_milli@.len() ==> 0
                <= #[trigger] input.emotional_weights_milli@[i] <= 1000,
        forall|i: int|
            0 <= i < input.working_memory_boosts_milli@.len() ==> 0
                <= #[trigger] input.working_memory_boosts_milli@[i] <= 2000,
        forall|e: int|
            0 <= e < input.associations@.len() ==> (#[trigger] input.associations@[e]).forward_strength_milli
                <= 1000 && input.associations@[e].backward_strength_milli <= 1000,
        config.spreading_decay_milli <= 1000,
    ensures
        r@.len() <= config.max_results,
        forall|j: int|
            0 <= j < r@.len() ==> (#[trigger] r@[j]).index < input.similarities_milli@.len(),
        forall|j: int|
            0 <= j < r@.len() ==> (#[trigger] r@[j]).base_level_milli
                == input.base_levels_milli@[r@[j].index as int],
        forall|j: int|
            0 <= j < r@.len() ==> (#[trigger] r@[j]).emotional_weight_milli == spec_get_or(
                input.emotional_weights_milli@,
                r@[j].index as int,
                500,
            ),
        forall|j: int|
            0 <= j < r@.len() ==> (#[trigger] r@[j]).probe_activation_milli == spec_scale_milli(
                spec_probe_raw(
                    input.similarities_milli@,
                    input.working_memory_boosts_milli@,
                    r@[j].index as int,
                ),
                spec_emotional_multiplier_milli(r@[j].emotional_weight_milli as int),
            ),
        forall|j: int|
            0 <= j < r@.len() ==> (#[trigger] r@[j]).total_activation_milli == spec_scale_milli(
                r@[j].probe_activation_milli as int,
                1000 + spec_recency_boost_milli(r@[j].base_level_milli as int),
            ) + r@[j].spreading_milli,
        forall|j: int|
            0 <= j < r@.len() ==> (#[trigger] r@[j]).total_activation_milli
                >= config.min_total_activation_milli,
        forall|i: int, j: int| 0 <= i < j < r@.len() ==> cand_rank_le(r@[i], r@[j]),
        config.spreading_depth == 0 ==> forall|j: int|
            0 <= j < r@.len() ==> (#[trigger] r@[j]).spreading_milli == 0
                && r@[j].total_activation_milli == spec_total_without_spreading(
                input.similarities_milli@,
                input.base_levels_milli@,
                input.emotional_weights_milli@,
                input.working_memory_boosts_milli@,
                r@[j].index as int,
            ),
        config.spreading_depth == 0 ==> r@.len() == vstd::math::min(
            config.max_results as int,
            spec_count_meeting_without_spreading(
                input.similarities_milli@,
                input.base_levels_milli@,
                input.emotional_weights_milli@,
                input.working_memory_boosts_milli@,
                config.min_total_activation_milli as int,
                input.similarities_milli@.len() as int,
            ) as int,
        ),
        forall|i: int, j: int|
            0 <= i < j < r@.len() ==> (#[trigger] r@[i]).index != (#[trigger] r@[j]).index,
        forall|j: int| 0 <= j < r@.len() ==> (#[trigger] r@[j]).spreading_milli >= 0,
        forall|j: int|
            0 <= j < r@.len() ==> (#[trigger] r@[j]).total_activation_milli
                >= spec_total_without_spreading(
                input.similarities_milli@,
                input.base_levels_milli@,
                input.emotional_weights_milli@,
                input.working_memory_boosts_milli@,
                r@[j].index as int,
            ),
        r@.len() >= vstd::math::min(
            config.max_results as int,
            spec_count_meeting_without_spreading(
                input.similarities_milli@,
                input.base_levels_milli@,
                input.emotional_weights_milli@,
                input.working_memory_boosts_milli@,
                config.min_total_activation_milli as int,
                input.similarities_milli@.len() as int,
            ) as int,
        ),
        config.min_total_activation_milli == i64::MIN ==> r@.len() == vstd::math::min(
            config.max_results as int,
            input.similarities_milli@.len() as int,
        ),
        forall|i: int|
            #![trigger spec_total_without_spreading(
                input.similarities_milli@,
                input.base_levels_milli@,
                input.emotional_weights_milli@,
                input.working_memory_boosts_milli@,
                i,
            )]
            0 <= i < input.similarities_milli@.len() && spec_total_without_spreading(
                input.similarities_milli@,
                input.base_levels_milli@,
                input.emotional_weights_milli@,
                input.working_memory_boosts_milli@,
                i,
            ) >= config.min_total_activation_milli && (forall|j: int|
                0 <= j < r@.len() ==> (#[trigger] r@[j]).index != i as usize) ==> forall|j: int|
                0 <= j < r@.len() ==> (#[trigger] r@[j]).total_activation_milli
                    >= spec_total_without_spreading(
                    input.similarities_milli@,
                    input.base_levels_milli@,
                    input.emotional_weights_milli@,
                    input.working_memory_boosts_milli@,
                    i,
                ),
        config.spreading_depth == 0 ==> forall|i: int|
            #![trigger spec_total_without_spreading(
                input.similarities_milli@,
                input.base_levels_milli@,
                input.emotional_weights_milli@,
                input.working_memory_boosts_milli@,
                i,
            )]
            0 <= i < input.similarities_milli@.len() && spec_total_without_spreading(
                input.similarities_milli@,
                input.base_levels_milli@,
                input.emotional_weights_milli@,
                input.working_memory_boosts_milli@,
                i,
            ) >= config.min_total_activation_milli && (forall|j: int|
                0 <= j < r@.len() ==> (#[trigger] r@[j]).index != i as usize) ==> forall|j: int|
                0 <= j < r@.len() ==> (#[trigger] r@[j]).total_activation_milli
                    > spec_total_without_spreading(
                    input.similarities_milli@,
                    input.base_levels_milli@,
                    input.emotional_weights_milli@,
                    input.working_memory_boosts_milli@,
                    i,
                ) || ((#[trigger] r@[j]).total_activation_milli == spec_total_without_spreading(
                    input.similarities_milli@,
                    input.base_levels_milli@,
                    input.emotional_weights_milli@,
                    input.working_memory_boosts_milli@,
                    i,
                ) && r@[j].index < i),
{
    let n = input.similarities_milli.len();

    // Stage 1-3: boosted similarity, cube, store probe activations.
    let mut probe_raw: Vec<i64> = Vec::new();
    let mut i: usize = 0;
    while i < n
        invariant
            i <= n,
            n == input.similarities_milli@.len(),
            forall|k: int|
                0 <= k < n ==> -1000 <= #[trigger] input.similarities_milli@[k] <= 1000,
            forall|k: int|
                0 <= k < input.working_memory_boosts_milli@.len() ==> 0
                    <= #[trigger] input.working_memory_boosts_milli@[k] <= 2000,
            probe_raw@.len() == i,
            forall|k: int|
                0 <= k < i ==> #[trigger] probe_raw@[k] == spec_probe_raw(
                    input.similarities_milli@,
                    input.working_memory_boosts_milli@,
                    k,
                ),
            forall|k: int| 0 <= k < i ==> -8000 <= #[trigger] probe_raw@[k] <= 1000,
        decreases n - i,
    {
        let boost: i64 = if i < input.working_memory_boosts_milli.len() {
            input.working_memory_boosts_milli[i]
        } else {
            1000
        };
        let scaled = scale_milli(input.similarities_milli[i], boost as u64);
        let capped: i64 = if scaled > 1000 {
            1000
        } else {
            scaled
        };
        let cubed = nonlinear_activation(capped);
        probe_raw.push(cubed);
        i = i + 1;
    }

    // Stage 4-5: initial (pre-spreading) activation per memory.
    let mut initial: Vec<i64> = Vec::new();
    let mut i2: usize = 0;
    while i2 < n
        invariant
            i2 <= n,
            n == input.similarities_milli@.len(),
            n == input.base_levels_milli@.len(),
            forall|k: int|
                0 <= k < input.emotional_weights_milli@.len() ==> 0
                    <= #[trigger] input.emotional_weights_milli@[k] <= 1000,
            forall|k: int|
                0 <= k < input.base_levels_milli@.len() ==> -1_000_000_000_000
                    <= #[trigger] input.base_levels_milli@[k] <= 1_000_000_000_000,
            probe_raw@.len() == n,
            forall|k: int|
                0 <= k < n ==> #[trigger] probe_raw@[k] == spec_probe_raw(
                    input.similarities_milli@,
                    input.working_memory_boosts_milli@,
                    k,
                ),
            forall|k: int| 0 <= k < n ==> -8000 <= #[trigger] probe_raw@[k] <= 1000,
            initial@.len() == i2,
            forall|k: int|
                0 <= k < i2 ==> #[trigger] initial@[k] == spec_total_without_spreading(
                    input.similarities_milli@,
                    input.base_levels_milli@,
                    input.emotional_weights_milli@,
                    input.working_memory_boosts_milli@,
                    k,
                ),
            forall|k: int|
                0 <= k < i2 ==> -32_000 <= #[trigger] initial@[k] <= 32_000,
        decreases n - i2,
    {
        let emotional: i64 = if i2 < input.emotional_weights_milli.len() {
            input.emotional_weights_milli[i2]
        } else {
            500
        };
        let breakdown = combine_activations(
            input.base_levels_milli[i2],
            probe_raw[i2],
            0,
            emotional,
        );
        initial.push(breakdown.total_milli);
        i2 = i2 + 1;
    }

    // Stage 6: pick spreading seeds among memories whose cubed similarity
    // clears the floor, ranked by initial activation.
    let mut seed_pairs: Vec<(usize, i64)> = Vec::new();
    let mut i3: usize = 0;
    while i3 < n
        invariant
            i3 <= n,
            n == probe_raw@.len(),
            n == initial@.len(),
            n == input.similarities_milli@.len(),
            n == input.base_levels_milli@.len(),
            forall|k: int|
                0 <= k < input.emotional_weights_milli@.len() ==> 0
                    <= #[trigger] input.emotional_weights_milli@[k] <= 1000,
            forall|k: int|
                0 <= k < n ==> #[trigger] initial@[k] == spec_total_without_spreading(
                    input.similarities_milli@,
                    input.base_levels_milli@,
                    input.emotional_weights_milli@,
                    input.working_memory_boosts_milli@,
                    k,
                ),
            forall|k: int|
                0 <= k < n ==> #[trigger] probe_raw@[k] == spec_probe_raw(
                    input.similarities_milli@,
                    input.working_memory_boosts_milli@,
                    k,
                ),
            forall|j: int| 0 <= j < seed_pairs@.len() ==> (#[trigger] seed_pairs@[j]).0 < n,
            forall|j: int|
                0 <= j < seed_pairs@.len() ==> 0 < (#[trigger] seed_pairs@[j]).1 <= 32_000,
            forall|k: int|
                0 <= k < n ==> -32_000 <= #[trigger] initial@[k] <= 32_000,
        decreases n - i3,
    {
        if probe_raw[i3] > SEED_PROBE_FLOOR_MILLI {
            proof {
                let em = spec_emotional_multiplier_milli(
                    spec_get_or(input.emotional_weights_milli@, i3 as int, 500) as int,
                );
                let rf = 1000 + spec_recency_boost_milli(
                    input.base_levels_milli@[i3 as int] as int,
                );
                lemma_recency_boost_range(input.base_levels_milli@[i3 as int] as int);
                lemma_initial_positive(probe_raw@[i3 as int] as int, em, rf);
            }
            seed_pairs.push((i3, initial[i3]));
        }
        i3 = i3 + 1;
    }
    let ranked_seeds = sort_pairs_desc(seed_pairs);
    let mut seed_indices: Vec<usize> = Vec::new();
    let mut seed_acts: Vec<i64> = Vec::new();
    let mut s: usize = 0;
    let seed_limit: usize = if ranked_seeds.len() < MAX_SEEDS {
        ranked_seeds.len()
    } else {
        MAX_SEEDS
    };
    proof {
        broadcast use vstd::seq_lib::group_to_multiset_ensures;

        assert forall|j: int|
            0 <= j < ranked_seeds@.len() implies 0 < (#[trigger] ranked_seeds@[j]).1 <= 32_000 by {
            assert(ranked_seeds@.to_multiset().contains(ranked_seeds@[j]));
            assert(seed_pairs@.to_multiset().contains(ranked_seeds@[j]));
            assert(seed_pairs@.contains(ranked_seeds@[j]));
        }
    }
    while s < seed_limit
        invariant
            s <= seed_limit,
            seed_limit <= ranked_seeds@.len(),
            seed_indices@.len() == s,
            seed_acts@.len() == s,
            forall|j: int|
                0 <= j < ranked_seeds@.len() ==> ranked_seeds@.to_multiset().contains(
                    #[trigger] ranked_seeds@[j],
                ),
            forall|j: int|
                0 <= j < ranked_seeds@.len() ==> 0 < (#[trigger] ranked_seeds@[j]).1 <= 32_000,
            forall|k: int| 0 <= k < s ==> 0 < #[trigger] seed_acts@[k] <= 32_000,
        decreases seed_limit - s,
    {
        seed_indices.push(ranked_seeds[s].0);
        seed_acts.push(ranked_seeds[s].1);
        s = s + 1;
    }

    // Stage 7: spreading.
    let spreading: Vec<i64> = if seed_indices.len() > 0 && config.spreading_depth > 0 {
        let spreading_config = SpreadingConfig {
            decay_per_hop_milli: config.spreading_decay_milli,
            minimum_activation_milli: 10,
            max_nodes: 1000,
            bidirectional: config.bidirectional,
        };
        let result = spread_activation(
            n,
            &input.associations,
            &seed_indices,
            &seed_acts,
            &spreading_config,
            config.spreading_depth,
        );
        proof {
            lemma_seeded_nonneg(n as nat, seed_indices@, seed_acts@);
            assert(forall|k: int|
                0 <= k < n ==> #[trigger] result.activations_milli@[k] >= 0);
        }
        result.activations_milli
    } else {
        let mut zeros: Vec<i64> = Vec::new();
        let mut z: usize = 0;
        while z < n
            invariant
                z <= n,
                zeros@.len() == z,
                forall|k: int| 0 <= k < z ==> #[trigger] zeros@[k] == 0i64,
            decreases n - z,
        {
            zeros.push(0i64);
            z = z + 1;
        }
        zeros
    };

    // Stage 8: combine, filter by the activation floor.
    let mut kept: Vec<RetrievalCandidate> = Vec::new();
    let ghost floor = config.min_total_activation_milli as int;
    let mut i4: usize = 0;
    while i4 < n
        invariant
            i4 <= n,
            n == input.similarities_milli@.len(),
            n == input.base_levels_milli@.len(),
            n == probe_raw@.len(),
            n == spreading@.len(),
            forall|k: int|
                0 <= k < input.emotional_weights_milli@.len() ==> 0
                    <= #[trigger] input.emotional_weights_milli@[k] <= 1000,
            forall|k: int|
                0 <= k < input.base_levels_milli@.len() ==> -1_000_000_000_000
                    <= #[trigger] input.base_levels_milli@[k] <= 1_000_000_000_000,
            forall|k: int|
                0 <= k < n ==> #[trigger] probe_raw@[k] == spec_probe_raw(
                    input.similarities_milli@,
                    input.working_memory_boosts_milli@,
                    k,
                ),
            forall|k: int| 0 <= k < n ==> -8000 <= #[trigger] probe_raw@[k] <= 1000,
            forall|k: int|
                0 <= k < n ==> -ACTIVATION_LIMIT <= #[trigger] spreading@[k] <= ACTIVATION_LIMIT,
            forall|k: int| 0 <= k < n ==> #[trigger] spreading@[k] >= 0,
            (seed_indices@.len() > 0 && config.spreading_depth > 0) || (forall|k: int|
                0 <= k < n ==> #[trigger] spreading@[k] == 0),
            kept@.len() <= i4,
            forall|j: int| 0 <= j < kept@.len() ==> (#[trigger] kept@[j]).index < i4,
            forall|a: int, b: int|
                0 <= a < b < kept@.len() ==> kept@[a].index < kept@[b].index,
            forall|j: int| 0 <= j < kept@.len() ==> (#[trigger] kept@[j]).spreading_milli >= 0,
            forall|j: int|
                0 <= j < kept@.len() ==> (#[trigger] kept@[j]).total_activation_milli
                    >= spec_total_without_spreading(
                    input.similarities_milli@,
                    input.base_levels_milli@,
                    input.emotional_weights_milli@,
                    input.working_memory_boosts_milli@,
                    kept@[j].index as int,
                ),
            kept@.len() >= spec_count_meeting_without_spreading(
                input.similarities_milli@,
                input.base_levels_milli@,
                input.emotional_weights_milli@,
                input.working_memory_boosts_milli@,
                floor,
                i4 as int,
            ),
            floor == i64::MIN ==> kept@.len() == i4,
            forall|i: int|
                #![trigger spec_total_without_spreading(
                    input.similarities_milli@,
                    input.base_levels_milli@,
                    input.emotional_weights_milli@,
                    input.working_memory_boosts_milli@,
                    i,
                )]
                0 <= i < i4 && spec_total_without_spreading(
                    input.similarities_milli@,
                    input.base_levels_milli@,
                    input.emotional_weights_milli@,
                    input.working_memory_boosts_milli@,
                    i,
                ) >= floor ==> exists|j: int|
                    0 <= j < kept@.len() && (#[trigger] kept@[j]).index == i,
            forall|j: int|
                0 <= j < kept@.len() ==> (#[trigger] kept@[j]).base_level_milli
                    == input.base_levels_milli@[kept@[j].index as int],
            forall|j: int|
                0 <= j < kept@.len() ==> (#[trigger] kept@[j]).emotional_weight_milli == spec_get_or(
                    input.emotional_weights_milli@,
                    kept@[j].index as int,
                    500,
                ),
            forall|j: int|
                0 <= j < kept@.len() ==> (#[trigger] kept@[j]).probe_activation_milli
                    == spec_scale_milli(
                    spec_probe_raw(
                        input.similarities_milli@,
                        input.working_memory_boosts_milli@,
                        kept@[j].index as int,
                    ),
                    spec_emotional_multiplier_milli(kept@[j].emotional_weight_milli as int),
                ),
            forall|j: int|
                0 <= j < kept@.len() ==> (#[trigger] kept@[j]).total_activation_milli
                    == spec_scale_milli(
                    kept@[j].probe_activation_milli as int,
                    1000 + spec_recency_boost_milli(kept@[j].base_level_milli as int),
                ) + kept@[j].spreading_milli,
            forall|j: int|
                0 <= j < kept@.len() ==> (#[trigger] kept@[j]).total_activation_milli >= floor,
            forall|j: int|
                0 <= j < kept@.len() ==> (#[trigger] kept@[j]).spreading_milli
                    == spreading@[kept@[j].index as int],
            config.spreading_depth == 0 ==> forall|j: int|
                0 <= j < kept@.len() ==> (#[trigger] kept@[j]).spreading_milli == 0
                    && kept@[j].total_activation_milli == spec_total_without_spreading(
                    input.similarities_milli@,
                    input.base_levels_milli@,
                    input.emotional_weights_milli@,
                    input.working_memory_boosts_milli@,
                    kept@[j].index as int,
                ),
            config.spreading_depth == 0 ==> kept@.len()
                == spec_count_meeting_without_spreading(
                input.similarities_milli@,
                input.base_levels_milli@,
                input.emotional_weights_milli@,
                input.working_memory_boosts_milli@,
                floor,
                i4 as int,
            ),
            floor == config.min_total_activation_milli as int,
        decreases n - i4,
    {
        let emotional: i64 = if i4 < input.emotional_weights_milli.len() {
            input.emotional_weights_milli[i4]
        } else {
            500
        };
        let breakdown = combine_activations(
            input.base_levels_milli[i4],
            probe_raw[i4],
            spreading[i4],
            emotional,
        );
        proof {
            assert(breakdown.total_milli == spec_total_without_spreading(
                input.similarities_milli@,
                input.base_levels_milli@,
                input.emotional_weights_milli@,
                input.working_memory_boosts_milli@,
                i4 as int,
            ) + spreading@[i4 as int]);
        }
        let ghost kept_before = kept@;
        if breakdown.total_milli >= config.min_total_activation_milli {
            kept.push(
                RetrievalCandidate {
                    index: i4,
                    base_level_milli: breakdown.base_level_milli,
                    probe_activation_milli: breakdown.probe_activation_milli,
                    spreading_milli: breakdown.spreading_milli,
                    emotional_weight_milli: breakdown.emotional_weight_milli,
                    total_activation_milli: breakdown.total_milli,
                },
            );
        }
        proof {
            assert forall|i: int|
                #![trigger spec_total_without_spreading(
                    input.similarities_milli@,
                    input.base_levels_milli@,
                    input.emotional_weights_milli@,
                    input.working_memory_boosts_milli@,
                    i,
                )]
                0 <= i < i4 + 1 && spec_total_without_spreading(
                    input.similarities_milli@,
                    input.base_levels_milli@,
                    input.emotional_weights_milli@,
                    input.working_memory_boosts_milli@,
                    i,
                ) >= floor implies exists|j: int|
                    0 <= j < kept@.len() && (#[trigger] kept@[j]).index == i by {
                if i < i4 as int {
                    let j = choose|j: int|
                        0 <= j < kept_before.len() && (#[trigger] kept_before[j]).index == i;
                    assert(kept@[j].index == i);
                } else {
                    assert(kept@[kept@.len() - 1].index == i4);
                }
            }
        }
        i4 = i4 + 1;
    }

    // Stage 9: rank and truncate.
    let sorted = sort_candidates(&kept);
    proof {
        broadcast use vstd::seq_lib::group_to_multiset_ensures;

        assert(forall|j: int|
            0 <= j < sorted@.len() ==> sorted@.to_multiset().contains(#[trigger] sorted@[j]));
    }
    let mut out: Vec<RetrievalCandidate> = Vec::new();
    let limit: usize = if sorted.len() < config.max_results {
        sorted.len()
    } else {
        config.max_results
    };
    let mut t: usize = 0;
    while t < limit
        invariant
            t <= limit,
            limit <= sorted@.len(),
            out@.len() == t,
            forall|j: int| 0 <= j < t ==> #[trigger] out@[j] == sorted@[j],
        decreases limit - t,
    {
        out.push(sorted[t]);
        t = t + 1;
    }
    proof {
        broadcast use vstd::seq_lib::group_to_multiset_ensures;

        assert forall|j: int| 0 <= j < out@.len() implies kept@.contains(#[trigger] out@[j]) by {
            assert(out@[j] == sorted@[j]);
            assert(sorted@.to_multiset().contains(sorted@[j]));
            assert(kept@.to_multiset().contains(sorted@[j]));
        }
        assert forall|j: int|
            0 <= j < out@.len() implies exists|p: int|
                0 <= p < kept@.len() && kept@[p] == #[trigger] out@[j] by {
            assert(kept@.contains(out@[j]));
        }
        // candidate indices stay pairwise distinct through the sort
        crate::ranking::lemma_permutation_distinct_keys(
            kept@,
            sorted@,
            |c: RetrievalCandidate| c.index as int,
        );
        assert forall|a: int, b: int|
            0 <= a < b < out@.len() implies (#[trigger] out@[a]).index != (
        #[trigger] out@[b]).index by {
            assert(out@[a] == sorted@[a] && out@[b] == sorted@[b]);
        }
        // an eligible memory absent from the results is outranked by all of
        // them: it sits in the sorted list beyond the truncation point
        let ghost sims = input.similarities_milli@;
        let ghost bases = input.base_levels_milli@;
        let ghost emos = input.emotional_weights_milli@;
        let ghost boosts = input.working_memory_boosts_milli@;
        assert forall|i: int|
            #![trigger spec_total_without_spreading(sims, bases, emos, boosts, i)]
            0 <= i < n && spec_total_without_spreading(sims, bases, emos, boosts, i)
                >= config.min_total_activation_milli && (forall|j: int|
                0 <= j < out@.len() ==> (#[trigger] out@[j]).index != i as usize) implies (forall|
            j: int,
        |
            0 <= j < out@.len() ==> cand_rank_le(#[trigger] out@[j], sorted@[spec_position_of(
                sorted@,
                i as usize,
            )])) by {
            let jk = choose|jk: int|
                0 <= jk < kept@.len() && (#[trigger] kept@[jk]).index == i as usize;
            assert(kept@.contains(kept@[jk]));
            assert(sorted@.to_multiset().contains(kept@[jk]));
            assert(sorted@.contains(kept@[jk]));
            assert(0 <= spec_position_of(sorted@, i as usize) < sorted@.len()
                && sorted@[spec_position_of(sorted@, i as usize)].index == i as usize) by {
                let q0 = choose|q0: int| 0 <= q0 < sorted@.len() && sorted@[q0] == kept@[jk];
                lemma_position_of(sorted@, i as usize, q0);
            }
            let q = spec_position_of(sorted@, i as usize);
            assert(q >= limit) by {
                if q < limit {
                    assert(out@[q] == sorted@[q]);
                }
            }
            assert forall|j: int|
                0 <= j < out@.len() implies cand_rank_le(#[trigger] out@[j], sorted@[q]) by {
                assert(out@[j] == sorted@[j]);
                assert(cand_rank_le(sorted@[j], sorted@[q]));
            }
        }
        assert forall|i: int|
            #![trigger spec_total_without_spreading(sims, bases, emos, boosts, i)]
            0 <= i < n && spec_total_without_spreading(sims, bases, emos, boosts, i)
                >= config.min_total_activation_milli && (forall|j: int|
                0 <= j < out@.len() ==> (#[trigger] out@[j]).index != i as usize) implies (forall|
            j: int,
        |
            0 <= j < out@.len() ==> (#[trigger] out@[j]).total_activation_milli
                >= spec_total_without_spreading(sims, bases, emos, boosts, i)) by {
            let jk = choose|jk: int|
                0 <= jk < kept@.len() && (#[trigger] kept@[jk]).index == i as usize;
            assert(kept@.contains(kept@[jk]));
            assert(sorted@.to_multiset().contains(kept@[jk]));
            assert(sorted@.contains(kept@[jk]));
            let q0 = choose|q0: int| 0 <= q0 < sorted@.len() && sorted@[q0] == kept@[jk];
            lemma_position_of(sorted@, i as usize, q0);
            let q = spec_position_of(sorted@, i as usize);
            assert(sorted@[q].total_activation_milli >= spec_total_without_spreading(
                sims,
                bases,
                emos,
                boosts,
                i,
            )) by {
                assert(sorted@.contains(sorted@[q]));
                assert(kept@.to_multiset().contains(sorted@[q]));
                assert(kept@.contains(sorted@[q]));
            }
            assert forall|j: int|
                0 <= j < out@.len() implies (#[trigger] out@[j]).total_activation_milli
                >= spec_total_without_spreading(sims, bases, emos, boosts, i) by {
                assert(cand_rank_le(out@[j], sorted@[q]));
            }
        }
        if config.spreading_depth == 0 {
            assert forall|i: int|
                #![trigger spec_total_without_spreading(sims, bases, emos, boosts, i)]
                0 <= i < n && spec_total_without_spreading(sims, bases, emos, boosts, i)
                    >= config.min_total_activation_milli && (forall|j: int|
                    0 <= j < out@.len() ==> (#[trigger] out@[j]).index != i as usize) implies (
            forall|j: int|
                0 <= j < out@.len() ==> (#[trigger] out@[j]).total_activation_milli
                    > spec_total_without_spreading(sims, bases, emos, boosts, i) || ((
                #[trigger] out@[j]).total_activation_milli == spec_total_without_spreading(
                    sims,
                    bases,
                    emos,
                    boosts,
                    i,
                ) && out@[j].index < i)) by {
                let jk = choose|jk: int|
                    0 <= jk < kept@.len() && (#[trigger] kept@[jk]).index == i as usize;
                assert(kept@.contains(kept@[jk]));
                assert(sorted@.to_multiset().contains(kept@[jk]));
                assert(sorted@.contains(kept@[jk]));
                let q0 = choose|q0: int| 0 <= q0 < sorted@.len() && sorted@[q0] == kept@[jk];
                lemma_position_of(sorted@, i as usize, q0);
                let q = spec_position_of(sorted@, i as usize);
                assert(sorted@.contains(sorted@[q]));
                assert(kept@.to_multiset().contains(sorted@[q]));
                assert(kept@.contains(sorted@[q]));
                assert(sorted@[q].total_activation_milli == spec_total_without_spreading(
                    sims,
                    bases,
                    emos,
                    boosts,
                    i,
                ));
                assert forall|j: int|
                    0 <= j < out@.len() implies (#[trigger] out@[j]).total_activation_milli
                    > spec_total_without_spreading(sims, bases, emos, boosts, i) || (
                out@[j].total_activation_milli == spec_total_without_spreading(
                    sims,
                    bases,
                    emos,
                    boosts,
                    i,
                ) && out@[j].index < i) by {
                    assert(cand_rank_le(out@[j], sorted@[q]));
                    assert(out@[j].index != i as usize);
                }
            }
        }
    }
    out
}

/// Lightweight similarity-only retrieval: the indices of the `top_k` most
/// similar memories, most similar first, ties by lower index.
pub fn retrieve_by_similarity(similarities_milli: &Vec<i64>, top_k: usize) -> (r: Vec<usize>)
    ensures
        r@.len() == vstd::math::min(similarities_milli@.len() as int, top_k as int),
        forall|j: int| 0 <= j < r@.len() ==> (#[trigger] r@[j]) < similarities_milli@.len(),
        forall|i: int, j: int|
            0 <= i < j < r@.len() ==> similarities_milli@[r@[i] as int]
                > similarities_milli@[r@[j] as int] || (similarities_milli@[r@[i] as int]
                == similarities_milli@[r@[j] as int] && r@[i] <= r@[j]),
        forall|i: int, j: int| 0 <= i < j < r@.len() ==> r@[i] != r@[j],
        forall|i: int|
            #![trigger similarities_milli@[i]]
            0 <= i < similarities_milli@.len() && (forall|j: int|
                0 <= j < r@.len() ==> (#[trigger] r@[j]) != i as usize) ==> forall|j: int|
                0 <= j < r@.len() ==> similarities_milli@[(#[trigger] r@[j]) as int]
                    > similarities_milli@[i] || (similarities_milli@[r@[j] as int]
                    == similarities_milli@[i] && r@[j] < i as usize),
{
    let n = similarities_milli.len();
    let mut pairs: Vec<(usize, i64)> = Vec::new();
    let mut i: usize = 0;
    while i < n
        invariant
            i <= n,
            n == similarities_milli@.len(),
            pairs@.len() == i,
            forall|j: int|
                0 <= j < i ==> (#[trigger] pairs@[j]).0 == j && pairs@[j].1
                    == similarities_milli@[j],
        decreases n - i,
    {
        pairs.push((i, similarities_milli[i]));
        i = i + 1;
    }
    let sorted = sort_pairs_desc(pairs);
    proof {
        broadcast use vstd::seq_lib::group_to_multiset_ensures;

        assert forall|j: int|
            0 <= j < sorted@.len() implies (#[trigger] sorted@[j]).0 < n
            && similarities_milli@[sorted@[j].0 as int] == sorted@[j].1 by {
            assert(sorted@.to_multiset().contains(sorted@[j]));
            assert(pairs@.to_multiset().contains(sorted@[j]));
            assert(pairs@.contains(sorted@[j]));
        }
    }
    let out = take_indices(&sorted, top_k);
    proof {
        assert forall|i: int, j: int|
            0 <= i < j < out@.len() implies similarities_milli@[out@[i] as int]
            > similarities_milli@[out@[j] as int] || (similarities_milli@[out@[i] as int]
            == similarities_milli@[out@[j] as int] && out@[i] <= out@[j]) by {
            assert(out@[i] == sorted@[i].0 && out@[j] == sorted@[j].0);
            assert(crate::ranking::rank_le(sorted@[i], sorted@[j]));
        }
        crate::ranking::lemma_permutation_distinct_keys(
            pairs@,
            sorted@,
            |p: (usize, i64)| p.0 as int,
        );
        assert forall|i: int, j: int| 0 <= i < j < out@.len() implies out@[i] != out@[j] by {
            assert(out@[i] == sorted@[i].0 && out@[j] == sorted@[j].0);
        }
        // an index left out is outranked by every returned index
        assert forall|i: int|
            #![trigger similarities_milli@[i]]
            0 <= i < n && (forall|j: int|
                0 <= j < out@.len() ==> (#[trigger] out@[j]) != i as usize) implies (forall|j: int|
            0 <= j < out@.len() ==> similarities_milli@[(#[trigger] out@[j]) as int]
                > similarities_milli@[i] || (similarities_milli@[out@[j] as int]
                == similarities_milli@[i] && out@[j] < i as usize)) by {
            broadcast use vstd::seq_lib::group_to_multiset_ensures;

            assert(pairs@[i].0 == i as usize && pairs@[i].1 == similarities_milli@[i]);
            assert(pairs@.contains(pairs@[i]));
            assert(sorted@.to_multiset().contains(pairs@[i]));
            assert(sorted@.contains(pairs@[i]));
            let q0 = choose|q0: int| 0 <= q0 < sorted@.len() && sorted@[q0] == pairs@[i];
            crate::ranking::lemma_pair_position_of(sorted@, i as usize, q0);
            let q = crate::ranking::spec_pair_position_of(sorted@, i as usize);
            assert(sorted@[q].1 == similarities_milli@[i]) by {
                assert(sorted@.contains(sorted@[q]));
                assert(pairs@.to_multiset().contains(sorted@[q]));
                assert(pairs@.contains(sorted@[q]));
                let pp = choose|pp: int| 0 <= pp < pairs@.len() && pairs@[pp] == sorted@[q];
                assert(pairs@[pp].0 == pp);
            }
            assert(q >= out@.len()) by {
                if q < out@.len() {
                    assert(out@[q] == sorted@[q].0);
                }
            }
            assert forall|j: int|
                0 <= j < out@.len() implies similarities_milli@[(#[trigger] out@[j]) as int]
                > similarities_milli@[i] || (similarities_milli@[out@[j] as int]
                == similarities_milli@[i] && out@[j] < i as usize) by {
                assert(out@[j] == sorted@[j].0);
                assert(crate::ranking::rank_le(sorted@[j], sorted@[q]));
                assert(out@[j] != i as usize);
            }
        }
    }
    out
}

/// Whether a surprise value opens the reconsolidation window.
pub fn triggers_lability(surprise_milli: i64, threshold_milli: i64) -> (r: bool)
    ensures
        r == (surprise_milli > threshold_milli),
{
    surprise_milli > threshold_milli
}

} // verus!
