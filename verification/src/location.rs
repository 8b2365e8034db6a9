//! Location intuitions: spatial memory over locations (files).
//!
//! Familiarity follows an asymptotic curve in the access count, decays only
//! after a staleness threshold and never below a sliding floor, and pinned
//! locations never decay at all.  Co-access associations follow the same
//! curve with a context-dependent multiplier, and the activity performed at
//! a location is inferred from context keywords or the acting tool's name.

use vstd::prelude::*;

use crate::ranking::{rank_le, sort_pairs_desc};
use vstd::string::StringSliceAdditionalSpecFns;

verus! {

/// Activity performed at a location.
#[derive(Clone, Copy, Debug, PartialEq, Eq, Structural)]
pub enum ActivityType {
    /// Examining code without modification.
    Reading,
    /// Creating or modifying code.
    Writing,
    /// Investigating issues or errors.
    Debugging,
    /// Restructuring existing code.
    Refactoring,
    /// Code review or audit.
    Reviewing,
    /// Could not be determined.
    Unknown,
}

/// How an activity type was determined.
#[derive(Clone, Copy, Debug, PartialEq, Eq, Structural)]
pub enum InferenceSource {
    /// The caller provided the activity explicitly.
    Explicit,
    /// Inferred from keywords in the context text.
    Keyword,
    /// Inferred from the acting tool's name.
    Tool,
    /// Fallback when nothing else matched.
    Default,
}

/// Result of activity inference.
#[derive(Clone, Copy, Debug, PartialEq, Eq, Structural)]
pub struct ActivityInference {
    /// The inferred activity.
    pub activity_type: ActivityType,
    /// How it was determined.
    pub source: InferenceSource,
    /// Confidence, milli.
    pub confidence_milli: u32,
}

/// A location with familiarity metrics.
#[derive(Clone, Debug)]
pub struct LocationIntuition {
    /// Index in the location array.
    pub id: u32,
    /// Familiarity, milli.
    pub familiarity_milli: u32,
    /// Number of times accessed.
    pub access_count: u32,
    /// Number of searches avoided by direct navigation.
    pub searches_saved: u32,
    /// Timestamp of the last access, milliseconds.
    pub last_accessed_ms: i64,
    /// Whether this location is pinned (immune to decay).
    pub is_pinned: bool,
}

/// A co-access association between two locations.
#[derive(Clone, Debug)]
pub struct LocationAssociation {
    /// Source location index.
    pub source: u32,
    /// Target location index.
    pub target: u32,
    /// Association strength, milli.
    pub strength_milli: u32,
    /// Number of co-accesses.
    pub co_access_count: u32,
}

/// Configuration for location-based operations, milli units throughout.
#[derive(Clone, Debug)]
pub struct LocationConfig {
    /// Familiarity curve coefficient `k` in `f(n) = 1 - 1/(1 + k*n)`.
    pub familiarity_k_milli: u32,
    /// Days before decay begins.
    pub stale_threshold_days: u32,
    /// Maximum decay rate, at zero familiarity.
    pub max_decay_rate_milli: u32,
    /// How much familiarity dampens decay.
    pub decay_dampening_milli: u32,
    /// Minimum familiarity floor.
    pub base_floor_milli: u32,
    /// Extra floor protection above `0.5` familiarity.
    pub sticky_bonus_milli: u32,
    /// Familiarity threshold for a well-known location.
    pub well_known_threshold_milli: u32,
    /// Multiplier for same-task, same-activity associations.
    pub task_same_activity_multiplier_milli: u32,
    /// Multiplier for same-task, different-activity associations.
    pub task_diff_activity_multiplier_milli: u32,
    /// Multiplier for time-based, same-activity associations.
    pub time_same_activity_multiplier_milli: u32,
    /// Multiplier for time-based, different-activity associations.
    pub time_diff_activity_multiplier_milli: u32,
    /// Backward association strength relative to forward.
    pub backward_strength_factor_milli: u32,
}

impl Default for LocationConfig {
    fn default() -> (r: Self)
        ensures
            r.familiarity_k_milli == 100,
            r.stale_threshold_days == 30,
            r.max_decay_rate_milli == 100,
            r.decay_dampening_milli == 800,
            r.base_floor_milli == 100,
            r.sticky_bonus_milli == 400,
            r.well_known_threshold_milli == 700,
            r.task_same_activity_multiplier_milli == 5000,
            r.task_diff_activity_multiplier_milli == 3000,
            r.time_same_activity_multiplier_milli == 2000,
            r.time_diff_activity_multiplier_milli == 1000,
            r.backward_strength_factor_milli == 700,
    {
        LocationConfig {
            familiarity_k_milli: 100,
            stale_threshold_days: 30,
            max_decay_rate_milli: 100,
            decay_dampening_milli: 800,
            base_floor_milli: 100,
            sticky_bonus_milli: 400,
            well_known_threshold_milli: 700,
            task_same_activity_multiplier_milli: 5000,
            task_diff_activity_multiplier_milli: 3000,
            time_same_activity_multiplier_milli: 2000,
            time_diff_activity_multiplier_milli: 1000,
            backward_strength_factor_milli: 700,
        }
    }
}

// ============================================================================
// Familiarity
// ============================================================================

/// The asymptotic familiarity curve `f = 1 - 1/(1 + k*n)` on an effective
/// milli count `kn_milli = k * n`, in milli units.
pub open spec fn spec_asymptote_milli(kn_milli: int) -> int {
    1000int - 1_000_000int / (1000int + kn_milli)
}

/// Familiarity after `access_count` accesses: `f(n) = 1 - 1/(1 + k*n)`,
/// milli.  Always in `[0, 1000)`.
pub fn compute_familiarity(access_count: u32, config: &LocationConfig) -> (r: u32)
    requires
        config.familiarity_k_milli <= 1_000_000,
    ensures
        r == spec_asymptote_milli((config.familiarity_k_milli * access_count) as int),
        r <= 1000,
{
    proof {
        assert((config.familiarity_k_milli as u64) * (access_count as u64) <= 0x10_0000_0000_0000)
            by (nonlinear_arith)
            requires
                config.familiarity_k_milli <= 1_000_000,
                access_count <= 0xFFFF_FFFF,
        ;
    }
    let kn: u64 = (config.familiarity_k_milli as u64) * (access_count as u64);
    proof {
        vstd::arithmetic::div_mod::lemma_div_is_ordered_by_denominator(
            1_000_000,
            1000,
            1000 + kn as int,
        );
    }
    let fraction: u64 = 1_000_000 / (1000 + kn);
    1000 - (fraction as u32)
}

/// Familiarity granted by the very first access.
pub fn initial_familiarity(config: &LocationConfig) -> (r: u32)
    requires
        config.familiarity_k_milli <= 1_000_000,
    ensures
        r == spec_asymptote_milli(config.familiarity_k_milli as int),
        r <= 1000,
{
    compute_familiarity(1, config)
}

/// The curve never decreases with more accesses.
pub proof fn lemma_familiarity_monotone(kn_a: int, kn_b: int)
    requires
        0 <= kn_a <= kn_b,
    ensures
        spec_asymptote_milli(kn_a) <= spec_asymptote_milli(kn_b),
{
    vstd::arithmetic::div_mod::lemma_div_is_ordered_by_denominator(
        1_000_000,
        1000 + kn_a,
        1000 + kn_b,
    );
}

/// Whether a location is well-known.
pub fn is_well_known(familiarity_milli: u32, config: &LocationConfig) -> (r: bool)
    ensures
        r == (familiarity_milli >= config.well_known_threshold_milli),
{
    familiarity_milli >= config.well_known_threshold_milli
}

// ============================================================================
// Decay
// ============================================================================

/// Milliseconds in a day.
pub const MS_PER_DAY: i64 = 86_400_000;

/// The decayed familiarity: the continuous decay rate falls as familiarity
/// rises, and the result never falls below the sliding floor.
pub open spec fn spec_decayed_familiarity(f: int, config: LocationConfig) -> int {
    let rate = (config.max_decay_rate_milli * (1000 - (f * config.decay_dampening_milli) / 1000))
        / 1000;
    let floor = if f > 500 {
        config.base_floor_milli + (config.sticky_bonus_milli * (f - 500)) / 1000
    } else {
        config.base_floor_milli as int
    };
    vstd::math::max((f * (1000 - rate)) / 1000, floor)
}

/// Compute decayed familiarity for a single location, milli.
///
/// Pinned locations never decay; an invalid (negative) last-access timestamp
/// leaves familiarity unchanged; decay only begins once the location has
/// been untouched for `stale_threshold_days`.
pub fn compute_decayed_familiarity(
    current_familiarity_milli: u32,
    last_accessed_ms: i64,
    current_time_ms: i64,
    is_pinned: bool,
    config: &LocationConfig,
) -> (r: u32)
    requires
        current_familiarity_milli <= 1000,
        config.max_decay_rate_milli <= 1000,
        config.decay_dampening_milli <= 1000,
        config.base_floor_milli <= 1000,
        config.sticky_bonus_milli <= 1000,
        config.stale_threshold_days <= 100_000,
        -0x2000_0000_0000_0000 <= last_accessed_ms <= 0x2000_0000_0000_0000,
        -0x2000_0000_0000_0000 <= current_time_ms <= 0x2000_0000_0000_0000,
    ensures
        is_pinned ==> r == current_familiarity_milli,
        !is_pinned && last_accessed_ms < 0 ==> r == current_familiarity_milli,
        !is_pinned && last_accessed_ms >= 0 && current_time_ms - last_accessed_ms
            < config.stale_threshold_days * MS_PER_DAY ==> r == current_familiarity_milli,
        !is_pinned && last_accessed_ms >= 0 && current_time_ms - last_accessed_ms
            >= config.stale_threshold_days * MS_PER_DAY ==> r == spec_decayed_familiarity(
            current_familiarity_milli as int,
            *config,
        ),
        r <= 1500,
{
    if is_pinned {
        return current_familiarity_milli;
    }
    if last_accessed_ms < 0 {
        return current_familiarity_milli;
    }
    let elapsed_ms: i64 = current_time_ms - last_accessed_ms;
    if elapsed_ms < (config.stale_threshold_days as i64) * MS_PER_DAY {
        return current_familiarity_milli;
    }

    let f: u64 = current_familiarity_milli as u64;
    proof {
        assert(f * (config.decay_dampening_milli as u64) <= 1_000_000) by (nonlinear_arith)
            requires
                f <= 1000,
                config.decay_dampening_milli <= 1000,
        ;
    }
    let dampened: u64 = 1000 - f * (config.decay_dampening_milli as u64) / 1000;
    proof {
        assert((config.max_decay_rate_milli as u64) * dampened <= 1_000_000) by (nonlinear_arith)
            requires
                config.max_decay_rate_milli <= 1000,
                dampened <= 1000,
        ;
    }
    let rate: u64 = (config.max_decay_rate_milli as u64) * dampened / 1000;
    proof {
        assert((config.sticky_bonus_milli as u64) * 500 <= 500_000) by (nonlinear_arith)
            requires
                config.sticky_bonus_milli <= 1000,
        ;
        assert(f > 500 ==> (config.sticky_bonus_milli as u64) * (f - 500) <= (
        config.sticky_bonus_milli as u64) * 500) by (nonlinear_arith)
            requires
                f <= 1000,
        ;
    }
    let floor: u64 = if f > 500 {
        (config.base_floor_milli as u64) + (config.sticky_bonus_milli as u64) * (f - 500) / 1000
    } else {
        config.base_floor_milli as u64
    };
    proof {
        assert(f * (1000 - rate) <= 1_000_000) by (nonlinear_arith)
            requires
                f <= 1000,
                rate <= 1000,
        ;
    }
    let decayed: u64 = f * (1000 - rate) / 1000;
    let result: u64 = if decayed > floor {
        decayed
    } else {
        floor
    };
    result as u32
}

/// Batch decay: the decayed familiarity of every location, in input order.
/// Pinned locations come through unchanged.
pub fn compute_batch_decay(
    locations: &Vec<LocationIntuition>,
    current_time_ms: i64,
    config: &LocationConfig,
) -> (r: Vec<u32>)
    requires
        forall|i: int|
            0 <= i < locations@.len() ==> (#[trigger] locations@[i]).familiarity_milli <= 1000
                && -0x2000_0000_0000_0000 <= locations@[i].last_accessed_ms
                <= 0x2000_0000_0000_0000,
        config.max_decay_rate_milli <= 1000,
        config.decay_dampening_milli <= 1000,
        config.base_floor_milli <= 1000,
        config.sticky_bonus_milli <= 1000,
        config.stale_threshold_days <= 100_000,
        -0x2000_0000_0000_0000 <= current_time_ms <= 0x2000_0000_0000_0000,
    ensures
        r@.len() == locations@.len(),
        forall|i: int|
            0 <= i < r@.len() && (#[trigger] locations@[i]).is_pinned ==> r@[i]
                == locations@[i].familiarity_milli,
        forall|i: int|
            0 <= i < r@.len() && !(#[trigger] locations@[i]).is_pinned
                && locations@[i].last_accessed_ms < 0 ==> r@[i]
                == locations@[i].familiarity_milli,
        forall|i: int|
            0 <= i < r@.len() && !(#[trigger] locations@[i]).is_pinned
                && locations@[i].last_accessed_ms >= 0 && current_time_ms
                - locations@[i].last_accessed_ms < config.stale_threshold_days * MS_PER_DAY
                ==> r@[i] == locations@[i].familiarity_milli,
        forall|i: int|
            0 <= i < r@.len() && !(#[trigger] locations@[i]).is_pinned
                && locations@[i].last_accessed_ms >= 0 && current_time_ms
                - locations@[i].last_accessed_ms >= config.stale_threshold_days * MS_PER_DAY
                ==> r@[i] == spec_decayed_familiarity(
                locations@[i].familiarity_milli as int,
                *config,
            ),
    decreases locations@.len(),
{
    let mut r: Vec<u32> = Vec::new();
    let n = locations.len();
    let mut i: usize = 0;
    while i < n
        invariant
            i <= n,
            n == locations@.len(),
            forall|k: int|
                0 <= k < n ==> (#[trigger] locations@[k]).familiarity_milli <= 1000
                    && -0x2000_0000_0000_0000 <= locations@[k].last_accessed_ms
                    <= 0x2000_0000_0000_0000,
            config.max_decay_rate_milli <= 1000,
            config.decay_dampening_milli <= 1000,
            config.base_floor_milli <= 1000,
            config.sticky_bonus_milli <= 1000,
            config.stale_threshold_days <= 100_000,
            -0x2000_0000_0000_0000 <= current_time_ms <= 0x2000_0000_0000_0000,
            r@.len() == i,
            forall|k: int|
                0 <= k < i && (#[trigger] locations@[k]).is_pinned ==> r@[k]
                    == locations@[k].familiarity_milli,
            forall|k: int|
                0 <= k < i && !(#[trigger] locations@[k]).is_pinned
                    && locations@[k].last_accessed_ms < 0 ==> r@[k]
                    == locations@[k].familiarity_milli,
            forall|k: int|
                0 <= k < i && !(#[trigger] locations@[k]).is_pinned
                    && locations@[k].last_accessed_ms >= 0 && current_time_ms
                    - locations@[k].last_accessed_ms < config.stale_threshold_days * MS_PER_DAY
                    ==> r@[k] == locations@[k].familiarity_milli,
            forall|k: int|
                0 <= k < i && !(#[trigger] locations@[k]).is_pinned
                    && locations@[k].last_accessed_ms >= 0 && current_time_ms
                    - locations@[k].last_accessed_ms >= config.stale_threshold_days * MS_PER_DAY
                    ==> r@[k] == spec_decayed_familiarity(
                    locations@[k].familiarity_milli as int,
                    *config,
                ),
        decreases n - i,
    {
        let loc = &locations[i];
        let decayed = compute_decayed_familiarity(
            loc.familiarity_milli,
            loc.last_accessed_ms,
            current_time_ms,
            loc.is_pinned,
            config,
        );
        r.push(decayed);
        i = i + 1;
    }
    r
}

// ============================================================================
// Association strength
// ============================================================================

/// Compute association strength after co-accesses: the familiarity asymptote
/// on the effective count `n * multiplier`, milli.
pub fn compute_association_strength(
    current_count: u32,
    multiplier_milli: u32,
    config: &LocationConfig,
) -> (r: u32)
    requires
        config.familiarity_k_milli <= 10_000,
        multiplier_milli <= 10_000,
    ensures
        r == spec_asymptote_milli(
            ((config.familiarity_k_milli * current_count) as int * multiplier_milli as int) / 1000,
        ),
        r <= 1000,
{
    proof {
        assert((config.familiarity_k_milli as u64) * (current_count as u64) <= 0x2800_0000_0000)
            by (nonlinear_arith)
            requires
                config.familiarity_k_milli <= 10_000,
                current_count <= 0xFFFF_FFFF,
        ;
    }
    let kn: u64 = (config.familiarity_k_milli as u64) * (current_count as u64);
    proof {
        assert(kn * (multiplier_milli as u64) <= kn * 10_000) by (nonlinear_arith)
            requires
                multiplier_milli <= 10_000,
        ;
    }
    let effective: u64 = kn * (multiplier_milli as u64) / 1000;
    proof {
        vstd::arithmetic::div_mod::lemma_div_is_ordered_by_denominator(
            1_000_000,
            1000,
            1000 + effective as int,
        );
    }
    let fraction: u64 = 1_000_000 / (1000 + effective);
    1000 - (fraction as u32)
}

/// The multiplier for an association, from whether the two locations share a
/// task and an activity.
pub fn association_multiplier(
    is_same_task: bool,
    is_same_activity: bool,
    config: &LocationConfig,
) -> (r: u32)
    ensures
        is_same_task && is_same_activity ==> r == config.task_same_activity_multiplier_milli,
        is_same_task && !is_same_activity ==> r == config.task_diff_activity_multiplier_milli,
        !is_same_task && is_same_activity ==> r == config.time_same_activity_multiplier_milli,
        !is_same_task && !is_same_activity ==> r == config.time_diff_activity_multiplier_milli,
{
    match (is_same_task, is_same_activity) {
        (true, true) => config.task_same_activity_multiplier_milli,
        (true, false) => config.task_diff_activity_multiplier_milli,
        (false, true) => config.time_same_activity_multiplier_milli,
        (false, false) => config.time_diff_activity_multiplier_milli,
    }
}

/// The pair records an outgoing association of `id`.
pub open spec fn spec_is_assoc_of(
    assocs: Seq<LocationAssociation>,
    id: u32,
    p: (usize, i64),
) -> bool {
    exists|t: int|
        0 <= t < assocs.len() && (#[trigger] assocs[t]).source == id && assocs[t].target == p.0
            && assocs[t].strength_milli == p.1
}

/// The `(target, strength)` pairs of the associations with the given
/// source, in input order.
pub open spec fn spec_matching_pairs(assocs: Seq<LocationAssociation>, id: u32) -> Seq<
    (usize, i64),
>
    decreases assocs.len(),
{
    if assocs.len() == 0 {
        Seq::empty()
    } else {
        let prev = spec_matching_pairs(assocs.drop_last(), id);
        if assocs.last().source == id {
            prev.push((assocs.last().target as usize, assocs.last().strength_milli as i64))
        } else {
            prev
        }
    }
}

/// How many associations in the prefix before `e` have the given source.
pub open spec fn spec_count_from(assocs: Seq<LocationAssociation>, id: u32, e: int) -> nat
    decreases e,
{
    if e <= 0 {
        0
    } else {
        spec_count_from(assocs, id, e - 1) + (if assocs[e - 1].source == id {
            1nat
        } else {
            0nat
        })
    }
}

/// The locations most strongly associated with `location_id`: up to `limit`
/// of its outgoing associations, strongest first, ties by lower target
/// index, as `(target, strength_milli)` pairs.
pub fn get_associated_locations(
    location_id: u32,
    associations: &Vec<LocationAssociation>,
    limit: usize,
) -> (r: Vec<(usize, i64)>)
    requires
        forall|e: int|
            0 <= e < associations@.len() ==> (#[trigger] associations@[e]).strength_milli <= 1000,
    ensures
        r@.len() == vstd::math::min(
            spec_count_from(associations@, location_id, associations@.len() as int) as int,
            limit as int,
        ),
        forall|j: int|
            0 <= j < r@.len() ==> spec_is_assoc_of(associations@, location_id, #[trigger] r@[j]),
        forall|i: int, j: int| 0 <= i < j < r@.len() ==> rank_le(r@[i], r@[j]),
        exists|full: Seq<(usize, i64)>|
            crate::ranking::rank_sorted(full) && #[trigger] full.to_multiset()
                == spec_matching_pairs(associations@, location_id).to_multiset() && r@
                == full.take(r@.len() as int),
{
    let n = associations.len();
    let mut pairs: Vec<(usize, i64)> = Vec::new();
    let mut e: usize = 0;
    while e < n
        invariant
            e <= n,
            n == associations@.len(),
            forall|k: int|
                0 <= k < n ==> (#[trigger] associations@[k]).strength_milli <= 1000,
            pairs@.len() == spec_count_from(associations@, location_id, e as int),
            pairs@ == spec_matching_pairs(associations@.take(e as int), location_id),
            forall|j: int|
                0 <= j < pairs@.len() ==> spec_is_assoc_of(
                    associations@,
                    location_id,
                    #[trigger] pairs@[j],
                ),
        decreases n - e,
    {
        let assoc = &associations[e];
        if assoc.source == location_id {
            let ghost before = pairs@;
            let entry: (usize, i64) = (assoc.target as usize, assoc.strength_milli as i64);
            proof {
                assert(associations@[e as int].source == location_id && associations@[e as int].target
                    == entry.0 && associations@[e as int].strength_milli == entry.1);
                assert(spec_is_assoc_of(associations@, location_id, entry));
            }
            pairs.push(entry);
            proof {
                assert forall|j: int|
                    0 <= j < pairs@.len() implies spec_is_assoc_of(
                    associations@,
                    location_id,
                    #[trigger] pairs@[j],
                ) by {
                    if j < before.len() {
                        assert(before[j] == pairs@[j]);
                    } else {
                        assert(pairs@[j] == entry);
                    }
                }
            }
        }
        proof {
            assert(spec_count_from(associations@, location_id, e as int + 1) == spec_count_from(
                associations@,
                location_id,
                e as int,
            ) + (if associations@[e as int].source == location_id {
                1nat
            } else {
                0nat
            }));
            assert(associations@.take(e as int + 1).drop_last() =~= associations@.take(e as int));
            assert(associations@.take(e as int + 1).last() == associations@[e as int]);
        }
        e = e + 1;
    }
    let sorted = sort_pairs_desc(pairs);
    proof {
        broadcast use vstd::seq_lib::group_to_multiset_ensures;

        assert forall|j: int|
            0 <= j < sorted@.len() implies spec_is_assoc_of(
            associations@,
            location_id,
            #[trigger] sorted@[j],
        ) by {
            assert(sorted@.to_multiset().contains(sorted@[j]));
            assert(pairs@.to_multiset().contains(sorted@[j]));
            assert(pairs@.contains(sorted@[j]));
            let p = choose|p: int| 0 <= p < pairs@.len() && pairs@[p] == sorted@[j];
            assert(spec_is_assoc_of(associations@, location_id, pairs@[p]));
        }
    }
    proof {
        assert(associations@.take(n as int) =~= associations@);
        assert(pairs@ == spec_matching_pairs(associations@, location_id));
    }
    let mut out: Vec<(usize, i64)> = Vec::new();
    let cut: usize = if sorted.len() < limit {
        sorted.len()
    } else {
        limit
    };
    let mut j: usize = 0;
    while j < cut
        invariant
            j <= cut,
            cut <= sorted@.len(),
            out@.len() == j,
            forall|t: int| 0 <= t < j ==> #[trigger] out@[t] == sorted@[t],
        decreases cut - j,
    {
        out.push(sorted[j]);
        j = j + 1;
    }
    proof {
        assert(out@ =~= sorted@.take(out@.len() as int));
        assert(crate::ranking::rank_sorted(sorted@) && sorted@.to_multiset()
            == spec_matching_pairs(associations@, location_id).to_multiset() && out@
            == sorted@.take(out@.len() as int));
    }
    out
}

// ============================================================================
// Activity inference
// ============================================================================

/// ASCII lowercase of one byte.
pub open spec fn spec_ascii_lower(b: u8) -> u8 {
    if 65 <= b <= 90 {
        (b + 32) as u8
    } else {
        b
    }
}

/// ASCII lowercase of a byte sequence.
pub open spec fn spec_lower_bytes(s: Seq<u8>) -> Seq<u8> {
    Seq::new(s.len(), |i: int| spec_ascii_lower(s[i]))
}

/// `needle` occurs contiguously in `hay`.
pub open spec fn spec_contains_sub(hay: Seq<u8>, needle: Seq<u8>) -> bool {
    exists|o: int|
        0 <= o && o + needle.len() <= hay.len() && #[trigger] hay.subrange(o, o + needle.len())
            == needle
}

/// ASCII-lowercase a byte string; non-ASCII bytes pass through unchanged.
fn ascii_lower_bytes(s: &[u8]) -> (r: Vec<u8>)
    ensures
        r@ == spec_lower_bytes(s@),
{
    let mut r: Vec<u8> = Vec::new();
    let n = s.len();
    let mut i: usize = 0;
    while i < n
        invariant
            i <= n,
            n == s@.len(),
            r@.len() == i,
            forall|k: int| 0 <= k < i ==> r@[k] == spec_ascii_lower(#[trigger] s@[k]),
        decreases n - i,
    {
        let b = s[i];
        let low: u8 = if 65 <= b && b <= 90 {
            b + 32
        } else {
            b
        };
        r.push(low);
        i = i + 1;
    }
    proof {
        assert(r@ =~= spec_lower_bytes(s@));
    }
    r
}

/// Whether `needle` matches `hay` at offset `o`.
fn match_at(hay: &Vec<u8>, needle: &Vec<u8>, o: usize) -> (r: bool)
    requires
        o + needle@.len() <= hay@.len(),
    ensures
        r == (hay@.subrange(o as int, o + needle@.len()) == needle@),
{
    let m = needle.len();
    let hlen = hay.len();
    let mut k: usize = 0;
    while k < m
        invariant
            k <= m,
            m == needle@.len(),
            hlen == hay@.len(),
            o + m <= hlen,
            forall|t: int| 0 <= t < k ==> hay@[o + t] == needle@[t],
        ensures
            k <= m,
            forall|t: int| 0 <= t < k ==> hay@[o + t] == needle@[t],
            k < m ==> hay@[o + k] != needle@[k as int],
        decreases m - k,
    {
        if hay[o + k] != needle[k] {
            break ;
        }
        k = k + 1;
    }
    if k == m {
        proof {
            assert(hay@.subrange(o as int, o + needle@.len()) =~= needle@);
        }
        true
    } else {
        proof {
            assert(hay@.subrange(o as int, o + needle@.len())[k as int] == hay@[o + k]);
        }
        false
    }
}

/// Whether `needle` occurs contiguously in `hay`.
fn contains_sub(hay: &Vec<u8>, needle: &Vec<u8>) -> (r: bool)
    ensures
        r == spec_contains_sub(hay@, needle@),
{
    let n = hay.len();
    let m = needle.len();
    if m > n {
        proof {
            assert(!spec_contains_sub(hay@, needle@));
        }
        return false;
    }
    if m == 0 {
        proof {
            assert(hay@.subrange(0int, 0 + needle@.len() as int) =~= needle@);
            assert(spec_contains_sub(hay@, needle@));
        }
        return true;
    }
    let last: usize = n - m;
    let mut o: usize = 0;
    while o <= last
        invariant
            o <= last + 1,
            last == n - m,
            1 <= m <= n,
            n == hay@.len(),
            m == needle@.len(),
            forall|t: int|
                0 <= t < o ==> !(#[trigger] hay@.subrange(t, t + needle@.len()) == needle@),
        ensures
            (o <= last && hay@.subrange(o as int, o + needle@.len()) == needle@) || (o == last + 1
                && forall|t: int|
                0 <= t < o ==> !(#[trigger] hay@.subrange(t, t + needle@.len()) == needle@)),
        decreases last + 1 - o,
    {
        if match_at(hay, needle, o) {
            break ;
        }
        o = o + 1;
    }
    if o <= last {
        true
    } else {
        proof {
            assert forall|t: int|
                0 <= t && t + needle@.len() <= hay@.len() implies !(#[trigger] hay@.subrange(
                t,
                t + needle@.len(),
            ) == needle@) by {
                assert(t < o);
            }
        }
        false
    }
}

/// Two byte strings are equal.
fn bytes_eq(a: &[u8], b: &Vec<u8>) -> (r: bool)
    ensures
        r == (a@ == b@),
{
    if a.len() != b.len() {
        return false;
    }
    let n = a.len();
    let mut i: usize = 0;
    while i < n
        invariant
            i <= n,
            n == a@.len(),
            n == b@.len(),
            forall|k: int| 0 <= k < i ==> a@[k] == b@[k],
        ensures
            i <= n,
            forall|k: int| 0 <= k < i ==> a@[k] == b@[k],
            i < n ==> a@[i as int] != b@[i as int],
        decreases n - i,
    {
        if a[i] != b[i] {
            break ;
        }
        i = i + 1;
    }
    if i == n {
        proof {
            assert(a@ =~= b@);
        }
        true
    } else {
        proof {
            assert(a@[i as int] != b@[i as int]);
        }
        false
    }
}

/// The context mentions debugging.
pub open spec fn spec_matches_debugging(low: Seq<u8>) -> bool {
    spec_contains_sub(low, seq!['d' as u8, 'e' as u8, 'b' as u8, 'u' as u8, 'g' as u8]) || spec_contains_sub(low, seq!['f' as u8, 'i' as u8, 'x' as u8]) || spec_contains_sub(low, seq!['b' as u8, 'u' as u8, 'g' as u8]) || spec_contains_sub(low, seq!['i' as u8, 's' as u8, 's' as u8, 'u' as u8, 'e' as u8]) || spec_contains_sub(low, seq!['e' as u8, 'r' as u8, 'r' as u8, 'o' as u8, 'r' as u8]) || spec_contains_sub(low, seq!['t' as u8, 'r' as u8, 'a' as u8, 'c' as u8, 'e' as u8])
}

fn matches_debugging(low: &Vec<u8>) -> (r: bool)
    ensures
        r == spec_matches_debugging(low@),
{

    let kw0: Vec<u8> = vec!['d' as u8, 'e' as u8, 'b' as u8, 'u' as u8, 'g' as u8];
    let kw1: Vec<u8> = vec!['f' as u8, 'i' as u8, 'x' as u8];
    let kw2: Vec<u8> = vec!['b' as u8, 'u' as u8, 'g' as u8];
    let kw3: Vec<u8> = vec!['i' as u8, 's' as u8, 's' as u8, 'u' as u8, 'e' as u8];
    let kw4: Vec<u8> = vec!['e' as u8, 'r' as u8, 'r' as u8, 'o' as u8, 'r' as u8];
    let kw5: Vec<u8> = vec!['t' as u8, 'r' as u8, 'a' as u8, 'c' as u8, 'e' as u8];

    contains_sub(low, &kw0) || contains_sub(low, &kw1) || contains_sub(low, &kw2) || contains_sub(low, &kw3) || contains_sub(low, &kw4) || contains_sub(low, &kw5)
}

/// The context mentions refactoring.
pub open spec fn spec_matches_refactoring(low: Seq<u8>) -> bool {
    spec_contains_sub(low, seq!['r' as u8, 'e' as u8, 'f' as u8, 'a' as u8, 'c' as u8, 't' as u8, 'o' as u8, 'r' as u8]) || spec_contains_sub(low, seq!['c' as u8, 'l' as u8, 'e' as u8, 'a' as u8, 'n' as u8]) || spec_contains_sub(low, seq!['r' as u8, 'e' as u8, 'o' as u8, 'r' as u8, 'g' as u8, 'a' as u8, 'n' as u8, 'i' as u8, 'z' as u8, 'e' as u8]) || spec_contains_sub(low, seq!['r' as u8, 'e' as u8, 's' as u8, 't' as u8, 'r' as u8, 'u' as u8, 'c' as u8, 't' as u8, 'u' as u8, 'r' as u8, 'e' as u8])
}

fn matches_refactoring(low: &Vec<u8>) -> (r: bool)
    ensures
        r == spec_matches_refactoring(low@),
{

    let kw0: Vec<u8> = vec!['r' as u8, 'e' as u8, 'f' as u8, 'a' as u8, 'c' as u8, 't' as u8, 'o' as u8, 'r' as u8];
    let kw1: Vec<u8> = vec!['c' as u8, 'l' as u8, 'e' as u8, 'a' as u8, 'n' as u8];
    let kw2: Vec<u8> = vec!['r' as u8, 'e' as u8, 'o' as u8, 'r' as u8, 'g' as u8, 'a' as u8, 'n' as u8, 'i' as u8, 'z' as u8, 'e' as u8];
    let kw3: Vec<u8> = vec!['r' as u8, 'e' as u8, 's' as u8, 't' as u8, 'r' as u8, 'u' as u8, 'c' as u8, 't' as u8, 'u' as u8, 'r' as u8, 'e' as u8];

    contains_sub(low, &kw0) || contains_sub(low, &kw1) || contains_sub(low, &kw2) || contains_sub(low, &kw3)
}

/// The context mentions reviewing.
pub open spec fn spec_matches_reviewing(low: Seq<u8>) -> bool {
    spec_contains_sub(low, seq!['r' as u8, 'e' as u8, 'v' as u8, 'i' as u8, 'e' as u8, 'w' as u8]) || spec_contains_sub(low, seq!['u' as u8, 'n' as u8, 'd' as u8, 'e' as u8, 'r' as u8, 's' as u8, 't' as u8, 'a' as u8, 'n' as u8, 'd' as u8]) || spec_contains_sub(low, seq!['c' as u8, 'h' as u8, 'e' as u8, 'c' as u8, 'k' as u8]) || spec_contains_sub(low, seq!['e' as u8, 'x' as u8, 'a' as u8, 'm' as u8, 'i' as u8, 'n' as u8, 'e' as u8]) || spec_contains_sub(low, seq!['a' as u8, 'u' as u8, 'd' as u8, 'i' as u8, 't' as u8])
}

fn matches_reviewing(low: &Vec<u8>) -> (r: bool)
    ensures
        r == spec_matches_reviewing(low@),
{

    let kw0: Vec<u8> = vec!['r' as u8, 'e' as u8, 'v' as u8, 'i' as u8, 'e' as u8, 'w' as u8];
    let kw1: Vec<u8> = vec!['u' as u8, 'n' as u8, 'd' as u8, 'e' as u8, 'r' as u8, 's' as u8, 't' as u8, 'a' as u8, 'n' as u8, 'd' as u8];
    let kw2: Vec<u8> = vec!['c' as u8, 'h' as u8, 'e' as u8, 'c' as u8, 'k' as u8];
    let kw3: Vec<u8> = vec!['e' as u8, 'x' as u8, 'a' as u8, 'm' as u8, 'i' as u8, 'n' as u8, 'e' as u8];
    let kw4: Vec<u8> = vec!['a' as u8, 'u' as u8, 'd' as u8, 'i' as u8, 't' as u8];

    contains_sub(low, &kw0) || contains_sub(low, &kw1) || contains_sub(low, &kw2) || contains_sub(low, &kw3) || contains_sub(low, &kw4)
}

/// The context mentions writing.
pub open spec fn spec_matches_writing(low: Seq<u8>) -> bool {
    spec_contains_sub(low, seq!['i' as u8, 'm' as u8, 'p' as u8, 'l' as u8, 'e' as u8, 'm' as u8, 'e' as u8, 'n' as u8, 't' as u8]) || spec_contains_sub(low, seq!['a' as u8, 'd' as u8, 'd' as u8]) || spec_contains_sub(low, seq!['c' as u8, 'r' as u8, 'e' as u8, 'a' as u8, 't' as u8, 'e' as u8]) || spec_contains_sub(low, seq!['w' as u8, 'r' as u8, 'i' as u8, 't' as u8, 'e' as u8]) || spec_contains_sub(low, seq!['b' as u8, 'u' as u8, 'i' as u8, 'l' as u8, 'd' as u8])
}

fn matches_writing(low: &Vec<u8>) -> (r: bool)
    ensures
        r == spec_matches_writing(low@),
{

    let kw0: Vec<u8> = vec!['i' as u8, 'm' as u8, 'p' as u8, 'l' as u8, 'e' as u8, 'm' as u8, 'e' as u8, 'n' as u8, 't' as u8];
    let kw1: Vec<u8> = vec!['a' as u8, 'd' as u8, 'd' as u8];
    let kw2: Vec<u8> = vec!['c' as u8, 'r' as u8, 'e' as u8, 'a' as u8, 't' as u8, 'e' as u8];
    let kw3: Vec<u8> = vec!['w' as u8, 'r' as u8, 'i' as u8, 't' as u8, 'e' as u8];
    let kw4: Vec<u8> = vec!['b' as u8, 'u' as u8, 'i' as u8, 'l' as u8, 'd' as u8];

    contains_sub(low, &kw0) || contains_sub(low, &kw1) || contains_sub(low, &kw2) || contains_sub(low, &kw3) || contains_sub(low, &kw4)
}

/// The context mentions reading.
pub open spec fn spec_matches_reading(low: Seq<u8>) -> bool {
    spec_contains_sub(low, seq!['r' as u8, 'e' as u8, 'a' as u8, 'd' as u8]) || spec_contains_sub(low, seq!['l' as u8, 'o' as u8, 'o' as u8, 'k' as u8]) || spec_contains_sub(low, seq!['s' as u8, 'e' as u8, 'e' as u8]) || spec_contains_sub(low, seq!['v' as u8, 'i' as u8, 'e' as u8, 'w' as u8]) || spec_contains_sub(low, seq!['i' as u8, 'n' as u8, 's' as u8, 'p' as u8, 'e' as u8, 'c' as u8, 't' as u8])
}

fn matches_reading(low: &Vec<u8>) -> (r: bool)
    ensures
        r == spec_matches_reading(low@),
{

    let kw0: Vec<u8> = vec!['r' as u8, 'e' as u8, 'a' as u8, 'd' as u8];
    let kw1: Vec<u8> = vec!['l' as u8, 'o' as u8, 'o' as u8, 'k' as u8];
    let kw2: Vec<u8> = vec!['s' as u8, 'e' as u8, 'e' as u8];
    let kw3: Vec<u8> = vec!['v' as u8, 'i' as u8, 'e' as u8, 'w' as u8];
    let kw4: Vec<u8> = vec!['i' as u8, 'n' as u8, 's' as u8, 'p' as u8, 'e' as u8, 'c' as u8, 't' as u8];

    contains_sub(low, &kw0) || contains_sub(low, &kw1) || contains_sub(low, &kw2) || contains_sub(low, &kw3) || contains_sub(low, &kw4)
}


/// The keyword verdict over a lowercased context: the strongest intent class
/// whose keyword list is mentioned, with its confidence.
pub open spec fn spec_keyword_activity(low: Seq<u8>) -> Option<(ActivityType, u32)> {
    if spec_matches_debugging(low) {
        Some((ActivityType::Debugging, 900u32))
    } else if spec_matches_refactoring(low) {
        Some((ActivityType::Refactoring, 900u32))
    } else if spec_matches_reviewing(low) {
        Some((ActivityType::Reviewing, 900u32))
    } else if spec_matches_writing(low) {
        Some((ActivityType::Writing, 900u32))
    } else if spec_matches_reading(low) {
        Some((ActivityType::Reading, 900u32))
    } else {
        None
    }
}

/// The activity a tool name suggests: reading for the lookup tools, writing
/// for the editing tools.
pub open spec fn spec_tool_activity(tool: &str) -> Option<ActivityType> {
    if tool.spec_bytes() == seq!['R' as u8, 'e' as u8, 'a' as u8, 'd' as u8] || tool.spec_bytes() == seq!['G' as u8, 'r' as u8, 'e' as u8, 'p' as u8] || tool.spec_bytes()
        == seq!['G' as u8, 'l' as u8, 'o' as u8, 'b' as u8] {
        Some(ActivityType::Reading)
    } else if tool.spec_bytes() =~= seq!['E' as u8, 'd' as u8, 'i' as u8, 't' as u8] || tool.spec_bytes() == seq!['W' as u8, 'r' as u8, 'i' as u8, 't' as u8, 'e' as u8] {
        Some(ActivityType::Writing)
    } else {
        None
    }
}

/// The full inference: an explicit activity wins, then context keywords
/// (intent), then the tool name (action), then the unknown fallback.
pub open spec fn spec_infer_activity(
    context_bytes: Seq<u8>,
    tool_name: Option<&str>,
    explicit: Option<ActivityType>,
) -> ActivityInference {
    if explicit is Some && explicit->0 != ActivityType::Unknown {
        ActivityInference {
            activity_type: explicit->0,
            source: InferenceSource::Explicit,
            confidence_milli: 1000,
        }
    } else {
        let low = spec_lower_bytes(context_bytes);
        if spec_keyword_activity(low) is Some {
            let verdict = spec_keyword_activity(low)->0;
            ActivityInference {
                activity_type: verdict.0,
                source: InferenceSource::Keyword,
                confidence_milli: verdict.1,
            }
        } else if tool_name is Some && spec_tool_activity(tool_name->0) is Some {
            ActivityInference {
                activity_type: spec_tool_activity(tool_name->0)->0,
                source: InferenceSource::Tool,
                confidence_milli: 500,
            }
        } else {
            ActivityInference {
                activity_type: ActivityType::Unknown,
                source: InferenceSource::Default,
                confidence_milli: 0,
            }
        }
    }
}

/// Infer the activity type from a context string, a tool name, or an
/// explicit caller value.
///
/// Precedence: explicit wins; keywords in the context (intent) beat the tool
/// name (action); an unmatched input is `Unknown`.  Keyword matching folds
/// case for ASCII letters only; non-ASCII bytes are matched verbatim, so an
/// exotic uppercase letter does not fold onto an ASCII keyword.
pub fn infer_activity_type(
    context: &str,
    tool_name: Option<&str>,
    explicit: Option<ActivityType>,
) -> (r: ActivityInference)
    ensures
        r == spec_infer_activity(context.spec_bytes(), tool_name, explicit),
{
    match explicit {
        Some(activity) => {
            if activity != ActivityType::Unknown {
                return ActivityInference {
                    activity_type: activity,
                    source: InferenceSource::Explicit,
                    confidence_milli: 1000,
                };
            }
        },
        None => {},
    }

    let low = ascii_lower_bytes(context.as_bytes());

    if matches_debugging(&low) {
        return ActivityInference {
            activity_type: ActivityType::Debugging,
            source: InferenceSource::Keyword,
            confidence_milli: 900,
        };
    }
    if matches_refactoring(&low) {
        return ActivityInference {
            activity_type: ActivityType::Refactoring,
            source: InferenceSource::Keyword,
            confidence_milli: 900,
        };
    }
    if matches_reviewing(&low) {
        return ActivityInference {
            activity_type: ActivityType::Reviewing,
            source: InferenceSource::Keyword,
            confidence_milli: 900,
        };
    }
    if matches_writing(&low) {
        return ActivityInference {
            activity_type: ActivityType::Writing,
            source: InferenceSource::Keyword,
            confidence_milli: 900,
        };
    }
    if matches_reading(&low) {
        return ActivityInference {
            activity_type: ActivityType::Reading,
            source: InferenceSource::Keyword,
            confidence_milli: 900,
        };
    }

    match tool_name {
        Some(tool) => {
            let tb = tool.as_bytes();
            let read_tool: Vec<u8> = vec!['R' as u8, 'e' as u8, 'a' as u8, 'd' as u8];
            let grep_tool: Vec<u8> = vec!['G' as u8, 'r' as u8, 'e' as u8, 'p' as u8];
            let glob_tool: Vec<u8> = vec!['G' as u8, 'l' as u8, 'o' as u8, 'b' as u8];
            let edit_tool: Vec<u8> = vec!['E' as u8, 'd' as u8, 'i' as u8, 't' as u8];
            let write_tool: Vec<u8> = vec!['W' as u8, 'r' as u8, 'i' as u8, 't' as u8, 'e' as u8];
            if bytes_eq(tb, &read_tool) || bytes_eq(tb, &grep_tool) || bytes_eq(tb, &glob_tool) {
                return ActivityInference {
                    activity_type: ActivityType::Reading,
                    source: InferenceSource::Tool,
                    confidence_milli: 500,
                };
            }
            if bytes_eq(tb, &edit_tool) || bytes_eq(tb, &write_tool) {
                return ActivityInference {
                    activity_type: ActivityType::Writing,
                    source: InferenceSource::Tool,
                    confidence_milli: 500,
                };
            }
        },
        None => {},
    }

    ActivityInference {
        activity_type: ActivityType::Unknown,
        source: InferenceSource::Default,
        confidence_milli: 0,
    }
}


/// The spreading edge a location association stands for: its strength
/// forward, its strength scaled by the backward factor backward.
pub open spec fn spec_location_edge(
    a: LocationAssociation,
    backward_factor_milli: int,
) -> crate::spreading::Association {
    crate::spreading::Association {
        source: a.source as usize,
        target: a.target as usize,
        forward_strength_milli: a.strength_milli,
        backward_strength_milli: ((a.strength_milli * backward_factor_milli) / 1000) as u32,
    }
}

/// Convert location associations into spreading edges, element for element.
pub fn location_associations_to_spreading(
    associations: &Vec<LocationAssociation>,
    location_config: &LocationConfig,
) -> (r: Vec<crate::spreading::Association>)
    requires
        forall|e: int|
            0 <= e < associations@.len() ==> (#[trigger] associations@[e]).strength_milli <= 1000,
        location_config.backward_strength_factor_milli <= 1000,
    ensures
        r@.len() == associations@.len(),
        forall|e: int|
            0 <= e < r@.len() ==> #[trigger] r@[e] == spec_location_edge(
                associations@[e],
                location_config.backward_strength_factor_milli as int,
            ),
        forall|e: int|
            0 <= e < r@.len() ==> (#[trigger] r@[e]).forward_strength_milli <= 1000
                && r@[e].backward_strength_milli <= 1000,
{
    let mut core_associations: Vec<crate::spreading::Association> = Vec::new();
    let n = associations.len();
    let mut e: usize = 0;
    while e < n
        invariant
            e <= n,
            n == associations@.len(),
            forall|k: int|
                0 <= k < n ==> (#[trigger] associations@[k]).strength_milli <= 1000,
            location_config.backward_strength_factor_milli <= 1000,
            core_associations@.len() == e,
            forall|k: int|
                0 <= k < e ==> #[trigger] core_associations@[k] == spec_location_edge(
                    associations@[k],
                    location_config.backward_strength_factor_milli as int,
                ),
            forall|k: int|
                0 <= k < e ==> (#[trigger] core_associations@[k]).forward_strength_milli <= 1000
                    && core_associations@[k].backward_strength_milli <= 1000,
        decreases n - e,
    {
        let a = &associations[e];
        proof {
            assert((a.strength_milli as u64) * (location_config.backward_strength_factor_milli
                as u64) <= 1_000_000) by (nonlinear_arith)
                requires
                    a.strength_milli <= 1000,
                    location_config.backward_strength_factor_milli <= 1000,
            ;
        }
        let backward: u64 = (a.strength_milli as u64) * (
        location_config.backward_strength_factor_milli as u64) / 1000;
        core_associations.push(
            crate::spreading::Association {
                source: a.source as usize,
                target: a.target as usize,
                forward_strength_milli: a.strength_milli,
                backward_strength_milli: backward as u32,
            },
        );
        e = e + 1;
    }
    core_associations
}

/// Spread activation through the location association network.
///
/// The associations are mapped to spreading edges by
/// [`location_associations_to_spreading`] and handed to the spreading
/// engine, seeded at the given location, at a depth of three (or the node
/// cap, where that is smaller).
pub fn spread_location_activation(
    num_locations: usize,
    seed_location: u32,
    seed_activation_milli: i64,
    associations: &Vec<LocationAssociation>,
    location_config: &LocationConfig,
    spreading_config: &crate::spreading::SpreadingConfig,
) -> (r: Vec<i64>)
    requires
        forall|e: int|
            0 <= e < associations@.len() ==> (#[trigger] associations@[e]).strength_milli <= 1000,
        location_config.backward_strength_factor_milli <= 1000,
        -crate::activation::ACTIVATION_LIMIT <= seed_activation_milli
            <= crate::activation::ACTIVATION_LIMIT,
        spreading_config.decay_per_hop_milli <= 1000,
        spreading_config.minimum_activation_milli >= 0,
    ensures
        r@.len() == num_locations,
        forall|i: int|
            0 <= i < num_locations ==> -crate::activation::ACTIVATION_LIMIT <= #[trigger] r@[i]
                <= crate::activation::ACTIVATION_LIMIT,
        forall|i: int|
            0 <= i < num_locations ==> #[trigger] r@[i] >= crate::spreading::spec_seeded(
                num_locations as nat,
                seq![seed_location as usize],
                seq![seed_activation_milli],
            )[i],
        associations@.len() == 0 ==> r@ == crate::spreading::spec_seeded(
            num_locations as nat,
            seq![seed_location as usize],
            seq![seed_activation_milli],
        ),
        seed_activation_milli >= 0 ==> forall|i: int| 0 <= i < num_locations ==> #[trigger] r@[i]
            >= 0,
{
    let core_associations = location_associations_to_spreading(associations, location_config);
    let depth: usize = if spreading_config.max_nodes < 3 {
        spreading_config.max_nodes
    } else {
        3
    };
    let seeds: Vec<usize> = vec![seed_location as usize];
    let seed_acts: Vec<i64> = vec![seed_activation_milli];
    let result = crate::spreading::spread_activation(
        num_locations,
        &core_associations,
        &seeds,
        &seed_acts,
        spreading_config,
        depth,
    );
    proof {
        assert(seeds@ =~= seq![seed_location as usize]);
        assert(seed_acts@ =~= seq![seed_activation_milli]);
        if seed_activation_milli >= 0 {
            crate::spreading::lemma_seeded_nonneg(num_locations as nat, seeds@, seed_acts@);
        }
    }
    result.activations_milli
}


} // verus!
