//! Activation calculus.
//!
//! The discrete half of the activation mathematics: the MINERVA 2 cubic match
//! rule, session-aware decay buckets, encoding strength and instance noise,
//! association decay bookkeeping, and the reconsolidation zone calculus.
//!
//! Dimensionless values in `[0, 1]` are milli units (`1000` is `1.0`);
//! timestamps are integer milliseconds; elapsed days are milli-days.  The
//! transcendental curves feeding these rules (the base-level logarithm, the
//! logistic retrieval probability, exponential decay) are evaluated by the
//! caller, which hands their values in as milli units.

use vstd::prelude::*;

verus! {

/// Upper magnitude bound for activation values handed to the calculus; far
/// beyond the operating range (a few units), it only keeps products inside
/// machine integers.
pub const ACTIVATION_LIMIT: i64 = 1_000_000_000_000_000;

// ============================================================================
// Fixed-point helpers
// ============================================================================

/// `value * factor_milli / 1000`, truncated toward zero.
pub open spec fn spec_scale_milli(value: int, factor_milli: int) -> int {
    if value >= 0 {
        (value * factor_milli) / 1000
    } else {
        -(((-value) * factor_milli) / 1000)
    }
}

/// Scale a signed milli value by a non-negative milli factor of at most two,
/// truncating toward zero.
pub fn scale_milli(value: i64, factor_milli: u64) -> (r: i64)
    requires
        -ACTIVATION_LIMIT <= value <= ACTIVATION_LIMIT,
        factor_milli <= 2000,
    ensures
        r == spec_scale_milli(value as int, factor_milli as int),
        1000 * vstd::math::abs(r as int) <= vstd::math::abs(value as int) * factor_milli,
        vstd::math::abs(r as int) <= 2 * vstd::math::abs(value as int),
        -2 * ACTIVATION_LIMIT <= r <= 2 * ACTIVATION_LIMIT,
{
    let mag: u64 = if value >= 0 {
        value as u64
    } else {
        (-value) as u64
    };
    proof {
        assert(mag * factor_milli <= 1_000_000_000_000_000 * 2000 && mag * factor_milli <= mag
            * 2000) by (nonlinear_arith)
            requires
                mag <= 1_000_000_000_000_000,
                factor_milli <= 2000,
        ;
        assert((mag * factor_milli / 1000) * 1000 <= mag * factor_milli);
    }
    let scaled: u64 = mag * factor_milli / 1000;
    if value >= 0 {
        scaled as i64
    } else {
        -(scaled as i64)
    }
}

// ============================================================================
// MINERVA 2 nonlinearity
// ============================================================================

/// The MINERVA 2 cubic on a milli similarity: `s^3`, sign preserved,
/// truncated toward zero.
pub open spec fn spec_cube_milli(s: int) -> int {
    if s >= 0 {
        (s * s * s) / 1_000_000
    } else {
        -(((-s) * (-s) * (-s)) / 1_000_000)
    }
}

/// Apply MINERVA 2's nonlinear activation function to a milli similarity.
///
/// Cubing suppresses weak matches and emphasizes strong ones while keeping the
/// sign of negative similarities.
pub fn nonlinear_activation(similarity_milli: i64) -> (r: i64)
    requires
        -1_000_000 <= similarity_milli <= 1_000_000,
    ensures
        r == spec_cube_milli(similarity_milli as int),
        -1_000_000_000_000 <= r <= 1_000_000_000_000,
        similarity_milli <= 1000 ==> r <= 1000,
        -2000 <= similarity_milli ==> r >= -8000,
        -1000 <= similarity_milli ==> r >= -1000,
{
    let m: u64 = if similarity_milli >= 0 {
        similarity_milli as u64
    } else {
        (-similarity_milli) as u64
    };
    proof {
        assert(m * m <= 1_000_000_000_000 && m * m * m <= 1_000_000_000_000_000_000) by (
        nonlinear_arith)
            requires
                m <= 1_000_000,
        ;
        assert(m <= 1000 ==> m * m * m <= 1_000_000_000) by (nonlinear_arith);
        assert(m <= 2000 ==> m * m * m <= 8_000_000_000) by (nonlinear_arith);
    }
    let cubed: u64 = m * m * m / 1_000_000;
    if similarity_milli >= 0 {
        cubed as i64
    } else {
        -(cubed as i64)
    }
}

/// The cubic is odd and fixes `0` and `1`: negating the similarity negates
/// the activation, a zero similarity gives zero, and a perfect match maps to
/// a perfect activation.
pub proof fn lemma_cube_odd(s: int)
    requires
        -1_000_000 <= s <= 1_000_000,
    ensures
        spec_cube_milli(-s) == -spec_cube_milli(s),
        spec_cube_milli(0) == 0,
        spec_cube_milli(1000) == 1000,
{
    if s > 0 {
        assert(spec_cube_milli(-s) == -((s * s * s) / 1_000_000));
        assert(spec_cube_milli(s) == (s * s * s) / 1_000_000);
    } else if s < 0 {
        assert(spec_cube_milli(-s) == ((-s) * (-s) * (-s)) / 1_000_000);
        assert(spec_cube_milli(s) == -(((-s) * (-s) * (-s)) / 1_000_000));
    }
    assert(spec_cube_milli(1000) == 1000);
}

// ============================================================================
// Session-aware decay rate
// ============================================================================

/// Decay rate (milli) for a given non-negative elapsed time since last
/// access; a negative elapsed time (clock skew) falls back to the default.
pub open spec fn spec_session_decay_rate(elapsed_ms: int) -> int {
    if elapsed_ms < 0 {
        500
    } else if elapsed_ms < 1_800_000 {
        300
    } else if elapsed_ms < 7_200_000 {
        400
    } else if elapsed_ms < 86_400_000 {
        450
    } else {
        500
    }
}

/// Compute the session-aware decay rate, in milli units.
///
/// Recently accessed memories decay slower: under half an hour `0.3`, under
/// two hours `0.4`, under a day `0.45`, otherwise the default ACT-R `0.5`.
/// A future timestamp falls back to the default.
pub fn compute_session_decay_rate(last_access_ms: i64, current_time_ms: i64) -> (r: u32)
    requires
        -0x2000_0000_0000_0000 <= last_access_ms <= 0x2000_0000_0000_0000,
        -0x2000_0000_0000_0000 <= current_time_ms <= 0x2000_0000_0000_0000,
    ensures
        r == spec_session_decay_rate(current_time_ms - last_access_ms),
{
    let elapsed: i64 = current_time_ms - last_access_ms;
    if elapsed < 0 {
        500
    } else if elapsed < 1_800_000 {
        300
    } else if elapsed < 7_200_000 {
        400
    } else if elapsed < 86_400_000 {
        450
    } else {
        500
    }
}

/// The session decay rate stays inside `[0.3, 0.5]` and never decreases as
/// the last access recedes into the past.
pub proof fn lemma_session_decay_rate_monotone(elapsed_a: int, elapsed_b: int)
    requires
        0 <= elapsed_a <= elapsed_b,
    ensures
        300 <= spec_session_decay_rate(elapsed_a) <= spec_session_decay_rate(elapsed_b) <= 500,
{
}

/// Batch compute session-aware decay rates.
pub fn compute_session_decay_rate_batch(last_access_ms: &Vec<i64>, current_time_ms: i64) -> (r: Vec<
    u32,
>)
    requires
        -0x2000_0000_0000_0000 <= current_time_ms <= 0x2000_0000_0000_0000,
        forall|i: int|
            0 <= i < last_access_ms@.len() ==> -0x2000_0000_0000_0000 <= #[trigger] last_access_ms@[i]
                <= 0x2000_0000_0000_0000,
    ensures
        r@.len() == last_access_ms@.len(),
        forall|i: int|
            0 <= i < r@.len() ==> r@[i] == spec_session_decay_rate(
                current_time_ms - last_access_ms@[i],
            ),
{
    let mut r: Vec<u32> = Vec::new();
    let n = last_access_ms.len();
    let mut i: usize = 0;
    while i < n
        invariant
            i <= n,
            n == last_access_ms@.len(),
            -0x2000_0000_0000_0000 <= current_time_ms <= 0x2000_0000_0000_0000,
            forall|k: int|
                0 <= k < n ==> -0x2000_0000_0000_0000 <= #[trigger] last_access_ms@[k]
                    <= 0x2000_0000_0000_0000,
            r@.len() == i,
            forall|k: int|
                0 <= k < i ==> r@[k] == spec_session_decay_rate(
                    current_time_ms - last_access_ms@[k],
                ),
        decreases n - i,
    {
        let rate = compute_session_decay_rate(last_access_ms[i], current_time_ms);
        r.push(rate);
        i = i + 1;
    }
    r
}

// ============================================================================
// Encoding strength and instance noise
// ============================================================================

/// Configuration for encoding strength and instance noise, in milli units.
#[derive(Clone, Debug)]
pub struct InstanceNoiseConfig {
    /// Minimum encoding strength; keeps every memory retrievable.
    pub encoding_base_milli: u32,
    /// Contribution of explicit attention.
    pub attention_weight_milli: u32,
    /// Contribution of emotional weight.
    pub emotional_weight_milli: u32,
    /// Contribution of rehearsal (access count).
    pub rehearsal_weight_milli: u32,
    /// Access count at which the rehearsal term saturates.
    pub max_rehearsal_count: u32,
    /// Base noise parameter for the retrieval-probability logistic.
    pub noise_base_milli: u32,
}

impl Default for InstanceNoiseConfig {
    fn default() -> (r: Self)
        ensures
            r.encoding_base_milli == 300,
            r.attention_weight_milli == 200,
            r.emotional_weight_milli == 200,
            r.rehearsal_weight_milli == 300,
            r.max_rehearsal_count == 10,
            r.noise_base_milli == 250,
    {
        InstanceNoiseConfig {
            encoding_base_milli: 300,
            attention_weight_milli: 200,
            emotional_weight_milli: 200,
            rehearsal_weight_milli: 300,
            max_rehearsal_count: 10,
            noise_base_milli: 250,
        }
    }
}

/// Encoding strength before clamping: base plus weighted attention, emotion,
/// and a saturating rehearsal share.
pub open spec fn spec_encoding_strength_raw(
    attention_milli: int,
    emotional_weight_milli: int,
    access_count: int,
    config: InstanceNoiseConfig,
) -> int {
    config.encoding_base_milli + (config.attention_weight_milli * attention_milli) / 1000 + (
    config.emotional_weight_milli * emotional_weight_milli) / 1000 + (
    if config.max_rehearsal_count > 0 {
        (config.rehearsal_weight_milli * vstd::math::min(
            access_count,
            config.max_rehearsal_count as int,
        )) / (config.max_rehearsal_count as int)
    } else {
        0
    })
}

/// Compute the encoding strength of a memory, in milli units, clamped to
/// `[0, 1]`.
///
/// Strength grows with attention, emotional weight, and rehearsal; rehearsal
/// saturates at `max_rehearsal_count` accesses.
pub fn compute_encoding_strength(
    attention_milli: u32,
    emotional_weight_milli: u32,
    access_count: u32,
    config: &InstanceNoiseConfig,
) -> (r: u32)
    requires
        attention_milli <= 1000,
        emotional_weight_milli <= 1000,
        config.encoding_base_milli <= 1000,
        config.attention_weight_milli <= 1000,
        config.emotional_weight_milli <= 1000,
        config.rehearsal_weight_milli <= 1000,
    ensures
        r == vstd::math::min(
            spec_encoding_strength_raw(
                attention_milli as int,
                emotional_weight_milli as int,
                access_count as int,
                *config,
            ),
            1000,
        ),
        r <= 1000,
{
    let rehearsal: u64 = if config.max_rehearsal_count > 0 {
        let effective: u32 = if access_count < config.max_rehearsal_count {
            access_count
        } else {
            config.max_rehearsal_count
        };
        proof {
            assert((config.rehearsal_weight_milli as u64) * (effective as u64) <= 1000 * (
            effective as u64)) by (nonlinear_arith)
                requires
                    config.rehearsal_weight_milli <= 1000,
            ;
            assert((config.rehearsal_weight_milli as int) * (effective as int) / (
            config.max_rehearsal_count as int) <= config.rehearsal_weight_milli as int) by (
            nonlinear_arith)
                requires
                    effective <= config.max_rehearsal_count,
                    config.max_rehearsal_count > 0,
            ;
        }
        (config.rehearsal_weight_milli as u64) * (effective as u64) / (config.max_rehearsal_count
            as u64)
    } else {
        0
    };
    proof {
        assert((config.attention_weight_milli as u64) * (attention_milli as u64) <= 1_000_000)
            by (nonlinear_arith)
            requires
                config.attention_weight_milli <= 1000,
                attention_milli <= 1000,
        ;
        assert((config.emotional_weight_milli as u64) * (emotional_weight_milli as u64)
            <= 1_000_000) by (nonlinear_arith)
            requires
                config.emotional_weight_milli <= 1000,
                emotional_weight_milli <= 1000,
        ;
    }
    let raw: u64 = (config.encoding_base_milli as u64) + (config.attention_weight_milli as u64) * (
    attention_milli as u64) / 1000 + (config.emotional_weight_milli as u64) * (emotional_weight_milli
        as u64) / 1000 + rehearsal;
    if raw > 1000 {
        1000
    } else {
        raw as u32
    }
}

/// Per-memory noise from encoding strength: `noise_base * (2 - strength)`,
/// in milli units.  Stronger encoding means lower noise.
pub fn compute_instance_noise(encoding_strength_milli: u32, noise_base_milli: u32) -> (r: u32)
    requires
        encoding_strength_milli <= 1000,
        noise_base_milli <= 1_000_000,
    ensures
        r == (noise_base_milli * (2000 - encoding_strength_milli)) / 1000,
{
    proof {
        assert((noise_base_milli as u64) * ((2000 - encoding_strength_milli) as u64)
            <= 2_000_000_000) by (nonlinear_arith)
            requires
                noise_base_milli <= 1_000_000,
                encoding_strength_milli <= 1000,
        ;
    }
    let wide: u64 = (noise_base_milli as u64) * ((2000 - encoding_strength_milli) as u64) / 1000;
    wide as u32
}

/// Instance noise shrinks as encoding strength grows.
pub proof fn lemma_instance_noise_antitone(strong: int, weak: int, noise_base: int)
    requires
        0 <= weak <= strong <= 1000,
        0 <= noise_base,
    ensures
        (noise_base * (2000 - strong)) / 1000 <= (noise_base * (2000 - weak)) / 1000,
{
    assert(noise_base * (2000 - strong) <= noise_base * (2000 - weak)) by (nonlinear_arith)
        requires
            0 <= weak <= strong <= 1000,
            0 <= noise_base,
    ;
    vstd::arithmetic::div_mod::lemma_div_is_ordered(
        noise_base * (2000 - strong),
        noise_base * (2000 - weak),
        1000,
    );
}

// ============================================================================
// Association decay bookkeeping
// ============================================================================

/// Consolidation state of an association, selecting its decay time constant.
#[derive(Clone, Copy, Debug, PartialEq, Eq, Structural)]
pub enum AssociationState {
    /// Recently created, not yet consolidated.
    Fresh,
    /// In the process of consolidation.
    Consolidating,
    /// Fully consolidated into long-term memory.
    Consolidated,
    /// Reactivated and undergoing reconsolidation.
    Reconsolidating,
}

/// Configuration for association decay.  Time constants are in hours; the
/// exponential itself is evaluated by the caller.
#[derive(Clone, Debug)]
pub struct AssociationDecayConfig {
    /// Decay time constant for fresh associations, in hours.
    pub tau_fresh_hours: u64,
    /// Decay time constant while consolidating, in hours.
    pub tau_consolidating_hours: u64,
    /// Decay time constant once consolidated, in hours.
    pub tau_consolidated_hours: u64,
    /// Decay time constant while reconsolidating, in hours.
    pub tau_reconsolidating_hours: u64,
    /// Strength boost when associations are co-accessed, in milli units.
    pub reinforcement_boost_milli: u32,
    /// Strength below which an association is a pruning candidate, milli.
    pub prune_threshold_milli: u32,
}

impl Default for AssociationDecayConfig {
    /// One hour fresh, one day consolidating, thirty days consolidated,
    /// seven days reconsolidating; a `0.05` boost and a `0.1` prune floor.
    fn default() -> (r: Self)
        ensures
            r.tau_fresh_hours == 1,
            r.tau_consolidating_hours == 24,
            r.tau_consolidated_hours == 720,
            r.tau_reconsolidating_hours == 168,
            r.reinforcement_boost_milli == 50,
            r.prune_threshold_milli == 100,
    {
        AssociationDecayConfig {
            tau_fresh_hours: 1,
            tau_consolidating_hours: 24,
            tau_consolidated_hours: 720,
            tau_reconsolidating_hours: 168,
            reinforcement_boost_milli: 50,
            prune_threshold_milli: 100,
        }
    }
}

/// The decay time constant selected by a consolidation state.
pub open spec fn spec_decay_tau(state: AssociationState, config: AssociationDecayConfig) -> int {
    match state {
        AssociationState::Fresh => config.tau_fresh_hours as int,
        AssociationState::Consolidating => config.tau_consolidating_hours as int,
        AssociationState::Consolidated => config.tau_consolidated_hours as int,
        AssociationState::Reconsolidating => config.tau_reconsolidating_hours as int,
    }
}

/// Get the decay time constant (in hours) for a consolidation state.
pub fn get_decay_tau(state: AssociationState, config: &AssociationDecayConfig) -> (r: u64)
    ensures
        r == spec_decay_tau(state, *config),
{
    match state {
        AssociationState::Fresh => config.tau_fresh_hours,
        AssociationState::Consolidating => config.tau_consolidating_hours,
        AssociationState::Consolidated => config.tau_consolidated_hours,
        AssociationState::Reconsolidating => config.tau_reconsolidating_hours,
    }
}

/// Reinforce an association on co-access: add the configured boost, capped
/// at full strength.
pub fn reinforce_association(current_strength_milli: u32, config: &AssociationDecayConfig) -> (r:
    u32)
    requires
        current_strength_milli <= 1000,
        config.reinforcement_boost_milli <= 1000,
    ensures
        r == vstd::math::min(
            current_strength_milli + config.reinforcement_boost_milli,
            1000,
        ),
        current_strength_milli <= r <= 1000,
{
    let raw = current_strength_milli + config.reinforcement_boost_milli;
    if raw > 1000 {
        1000
    } else {
        raw
    }
}

/// Whether an association has decayed below the pruning threshold.
pub fn should_prune_association(strength_milli: u32, config: &AssociationDecayConfig) -> (r: bool)
    ensures
        r == (strength_milli < config.prune_threshold_milli),
{
    strength_milli < config.prune_threshold_milli
}

// ============================================================================
// Reconsolidation zone calculus
// ============================================================================

/// Default lower prediction-error threshold, milli.
pub const THETA_LOW_MILLI: u32 = 100;

/// Default upper prediction-error threshold, milli.
pub const THETA_HIGH_MILLI: u32 = 550;

/// Minimum gap kept between the effective thresholds, milli.
pub const THETA_MIN_GAP_MILLI: u32 = 50;

/// Configuration for reconsolidation-zone calculations, in milli units.
#[derive(Clone, Debug)]
pub struct ReconsolidationConfig {
    /// Lower prediction-error threshold (below it: reinforce).
    pub theta_low_milli: u32,
    /// Upper prediction-error threshold (above it: new trace).
    pub theta_high_milli: u32,
    /// Steepness of the reconsolidation sigmoid, milli; used by the caller
    /// when evaluating the dual-sigmoid probability.
    pub beta_milli: u32,
    /// How much use shifts the upper threshold down.
    pub strength_shift_milli: u32,
    /// How much age shifts the lower threshold up.
    pub age_shift_milli: u32,
    /// Access count at which the use factor reads `1.0`, milli.
    pub baseline_count_milli: u32,
    /// Days since access at which the age factor reads `1.0`, milli-days.
    pub baseline_days_milli: u32,
}

impl Default for ReconsolidationConfig {
    fn default() -> (r: Self)
        ensures
            r.theta_low_milli == THETA_LOW_MILLI,
            r.theta_high_milli == THETA_HIGH_MILLI,
            r.beta_milli == 10_000,
            r.strength_shift_milli == 150,
            r.age_shift_milli == 50,
            r.baseline_count_milli == 5000,
            r.baseline_days_milli == 1000,
    {
        ReconsolidationConfig {
            theta_low_milli: THETA_LOW_MILLI,
            theta_high_milli: THETA_HIGH_MILLI,
            beta_milli: 10_000,
            strength_shift_milli: 150,
            age_shift_milli: 50,
            baseline_count_milli: 5000,
            baseline_days_milli: 1000,
        }
    }
}

/// The age factor: days since access over the baseline, capped at five.
pub open spec fn spec_age_factor_milli(days_milli: int, baseline_days_milli: int) -> int {
    vstd::math::min((days_milli * 1000) / baseline_days_milli, 5000)
}

/// The use factor: access count over the baseline, capped at three.
pub open spec fn spec_use_factor_milli(access_count: int, baseline_count_milli: int) -> int {
    vstd::math::min((access_count * 1_000_000) / baseline_count_milli, 3000)
}

/// Compute the effective reconsolidation thresholds, in milli units.
///
/// The lower threshold rises with the memory's age (dormant memories are
/// harder to destabilize), the upper one falls with its use count
/// (well-practiced memories reconsolidate more easily), and a minimum gap of
/// `0.05` is always kept between them.
pub fn compute_effective_thresholds(
    theta_low_milli: u32,
    theta_high_milli: u32,
    access_count: u32,
    days_since_last_access_milli: u64,
    config: &ReconsolidationConfig,
) -> (r: (u64, u64))
    requires
        theta_low_milli <= 1_000_000,
        theta_high_milli <= 1_000_000,
        config.age_shift_milli <= 1_000_000,
        config.strength_shift_milli <= 1_000_000,
        config.baseline_days_milli >= 1,
        config.baseline_count_milli >= 1,
        days_since_last_access_milli <= 0x10_0000_0000_0000,
    ensures
        r.0 == theta_low_milli + (config.age_shift_milli * spec_age_factor_milli(
            days_since_last_access_milli as int,
            config.baseline_days_milli as int,
        )) / 1000,
        r.1 == vstd::math::max(
            theta_high_milli - (config.strength_shift_milli * spec_use_factor_milli(
                access_count as int,
                config.baseline_count_milli as int,
            )) / 1000,
            r.0 + THETA_MIN_GAP_MILLI,
        ),
        r.1 >= r.0 + THETA_MIN_GAP_MILLI,
{
    let age_raw: u64 = days_since_last_access_milli * 1000 / (config.baseline_days_milli as u64);
    let age_factor: u64 = if age_raw > 5000 {
        5000
    } else {
        age_raw
    };
    proof {
        assert((config.age_shift_milli as u64) * age_factor <= 5_000_000_000) by (nonlinear_arith)
            requires
                config.age_shift_milli <= 1_000_000,
                age_factor <= 5000,
        ;
    }
    let effective_low: u64 = (theta_low_milli as u64) + (config.age_shift_milli as u64) * age_factor
        / 1000;

    let use_raw: u64 = (access_count as u64) * 1_000_000 / (config.baseline_count_milli as u64);
    let use_factor: u64 = if use_raw > 3000 {
        3000
    } else {
        use_raw
    };
    proof {
        assert((config.strength_shift_milli as u64) * use_factor <= 3_000_000_000) by (
        nonlinear_arith)
            requires
                config.strength_shift_milli <= 1_000_000,
                use_factor <= 3000,
        ;
    }
    let shift: u64 = (config.strength_shift_milli as u64) * use_factor / 1000;
    let shifted_high: u64 = if shift > (theta_high_milli as u64) {
        0
    } else {
        (theta_high_milli as u64) - shift
    };

    let floor: u64 = effective_low + (THETA_MIN_GAP_MILLI as u64);
    let effective_high: u64 = if shifted_high > floor {
        shifted_high
    } else {
        floor
    };
    (effective_low, effective_high)
}

/// The zone a prediction error falls into.
#[derive(Clone, Copy, Debug, PartialEq, Eq, Structural)]
pub enum PeZone {
    /// The retrieved trace matched expectation closely: reinforce it.
    Reinforce,
    /// A moderate mismatch: the trace becomes labile and reconsolidates.
    Reconsolidate,
    /// A large mismatch: encode a new trace instead.
    NewTrace,
}

/// Classify an absolute prediction error against the effective thresholds.
///
/// Below the lower threshold the trace is reinforced, between the two it
/// reconsolidates, at or above the upper one a new trace is created.
pub fn pe_zone(pe_abs_milli: u64, theta_low_eff_milli: u64, theta_high_eff_milli: u64) -> (r:
    PeZone)
    requires
        theta_low_eff_milli <= theta_high_eff_milli,
    ensures
        r == PeZone::Reinforce <==> pe_abs_milli < theta_low_eff_milli,
        r == PeZone::Reconsolidate <==> (theta_low_eff_milli <= pe_abs_milli
            < theta_high_eff_milli),
        r == PeZone::NewTrace <==> pe_abs_milli >= theta_high_eff_milli,
{
    if pe_abs_milli < theta_low_eff_milli {
        PeZone::Reinforce
    } else if pe_abs_milli < theta_high_eff_milli {
        PeZone::Reconsolidate
    } else {
        PeZone::NewTrace
    }
}

// ============================================================================
// Combined activation
// ============================================================================

/// Breakdown of activation components for a single memory, in milli units.
#[derive(Clone, Debug)]
pub struct ActivationBreakdown {
    /// Base-level activation used for the recency boost.
    pub base_level_milli: i64,
    /// Probe activation after emotional modulation.
    pub probe_activation_milli: i64,
    /// Spreading activation received from associated memories.
    pub spreading_milli: i64,
    /// Emotional weight, in `[0, 1]` milli.
    pub emotional_weight_milli: i64,
    /// Combined total activation.
    pub total_milli: i64,
}

/// Recency boost from a base-level activation: the base level is mapped from
/// `[-10, 0]` onto `[0, 1]` with clamping.
pub open spec fn spec_recency_boost_milli(base_level_milli: int) -> int {
    if base_level_milli <= -10_000 {
        0
    } else if base_level_milli >= 0 {
        1000
    } else {
        (base_level_milli + 10_000) / 10
    }
}

/// Emotional multiplier from an emotional weight: `1 + (e - 0.5)`, milli.
pub open spec fn spec_emotional_multiplier_milli(emotional_weight_milli: int) -> int {
    500 + emotional_weight_milli
}

/// The multiplicative combination rule: the emotionally modulated probe
/// activation, scaled up by the recency boost, plus spreading.
pub open spec fn spec_combined_total_milli(
    base_level_milli: int,
    probe_activation_milli: int,
    spreading_milli: int,
    emotional_weight_milli: int,
) -> int {
    spec_scale_milli(
        spec_scale_milli(
            probe_activation_milli,
            spec_emotional_multiplier_milli(emotional_weight_milli),
        ),
        1000 + spec_recency_boost_milli(base_level_milli),
    ) + spreading_milli
}

/// Combine all activation sources into a total, multiplicatively.
///
/// Similarity is the primary signal; recency only scales it (by at most two),
/// so a recent but irrelevant memory cannot outrank an older, strongly
/// matching one.  Spreading is added on top.  The caller clamps a `-inf`
/// base level (empty history) to `-10_000` before calling.
pub fn combine_activations(
    base_level_milli: i64,
    probe_activation_milli: i64,
    spreading_milli: i64,
    emotional_weight_milli: i64,
) -> (r: ActivationBreakdown)
    requires
        -1_000_000_000_000 <= base_level_milli <= 1_000_000_000_000,
        -1_000_000 <= probe_activation_milli <= 1_000_000,
        -ACTIVATION_LIMIT <= spreading_milli <= ACTIVATION_LIMIT,
        0 <= emotional_weight_milli <= 1000,
    ensures
        r.base_level_milli == base_level_milli,
        r.probe_activation_milli == spec_scale_milli(
            probe_activation_milli as int,
            spec_emotional_multiplier_milli(emotional_weight_milli as int),
        ),
        r.spreading_milli == spreading_milli,
        r.emotional_weight_milli == emotional_weight_milli,
        r.total_milli == spec_combined_total_milli(
            base_level_milli as int,
            probe_activation_milli as int,
            spreading_milli as int,
            emotional_weight_milli as int,
        ),
        vstd::math::abs(r.probe_activation_milli as int) <= 2 * vstd::math::abs(
            probe_activation_milli as int,
        ),
        -4 * vstd::math::abs(probe_activation_milli as int) <= r.total_milli - spreading_milli <= 4
            * vstd::math::abs(probe_activation_milli as int),
{
    let emotional_multiplier: u64 = (500 + emotional_weight_milli) as u64;
    let modulated_probe: i64 = scale_milli(probe_activation_milli, emotional_multiplier);

    let recency_boost: u64 = if base_level_milli <= -10_000 {
        0
    } else if base_level_milli >= 0 {
        1000
    } else {
        ((base_level_milli + 10_000) as u64) / 10
    };

    let probe_with_recency: i64 = scale_milli(modulated_probe, 1000 + recency_boost);
    let total: i64 = probe_with_recency + spreading_milli;

    ActivationBreakdown {
        base_level_milli,
        probe_activation_milli: modulated_probe,
        spreading_milli,
        emotional_weight_milli,
        total_milli: total,
    }
}

// ============================================================================
// Ranking helpers
// ============================================================================

/// Rank memory indices by activation: the `top_k` most activated indices,
/// highest first, ties by lower index.
pub fn rank_by_activation(activations_milli: &Vec<i64>, top_k: usize) -> (r: Vec<usize>)
    ensures
        r@.len() == vstd::math::min(activations_milli@.len() as int, top_k as int),
        forall|j: int| 0 <= j < r@.len() ==> (#[trigger] r@[j]) < activations_milli@.len(),
        forall|i: int, j: int|
            0 <= i < j < r@.len() ==> activations_milli@[r@[i] as int]
                > activations_milli@[r@[j] as int] || (activations_milli@[r@[i] as int]
                == activations_milli@[r@[j] as int] && r@[i] <= r@[j]),
        forall|i: int, j: int| 0 <= i < j < r@.len() ==> r@[i] != r@[j],
        forall|i: int|
            #![trigger activations_milli@[i]]
            0 <= i < activations_milli@.len() && (forall|j: int|
                0 <= j < r@.len() ==> (#[trigger] r@[j]) != i as usize) ==> forall|j: int|
                0 <= j < r@.len() ==> activations_milli@[(#[trigger] r@[j]) as int]
                    > activations_milli@[i] || (activations_milli@[r@[j] as int]
                    == activations_milli@[i] && r@[j] < i as usize),
{
    let n = activations_milli.len();
    let mut pairs: Vec<(usize, i64)> = Vec::new();
    let mut i: usize = 0;
    while i < n
        invariant
            i <= n,
            n == activations_milli@.len(),
            pairs@.len() == i,
            forall|j: int|
                0 <= j < i ==> (#[trigger] pairs@[j]).0 == j && pairs@[j].1
                    == activations_milli@[j],
        decreases n - i,
    {
        pairs.push((i, activations_milli[i]));
        i = i + 1;
    }
    let sorted = crate::ranking::sort_pairs_desc(pairs);
    proof {
        broadcast use vstd::seq_lib::group_to_multiset_ensures;

        assert forall|j: int|
            0 <= j < sorted@.len() implies (#[trigger] sorted@[j]).0 < n
            && activations_milli@[sorted@[j].0 as int] == sorted@[j].1 by {
            assert(sorted@.to_multiset().contains(sorted@[j]));
            assert(pairs@.to_multiset().contains(sorted@[j]));
            assert(pairs@.contains(sorted@[j]));
        }
    }
    let out = crate::ranking::take_indices(&sorted, top_k);
    proof {
        assert forall|i: int, j: int|
            0 <= i < j < out@.len() implies activations_milli@[out@[i] as int]
            > activations_milli@[out@[j] as int] || (activations_milli@[out@[i] as int]
            == activations_milli@[out@[j] as int] && out@[i] <= out@[j]) by {
            assert(out@[i] == sorted@[i].0 && out@[j] == sorted@[j].0);
            assert(crate::ranking::rank_le(sorted@[i], sorted@[j]));
        }
        crate::ranking::lemma_permutation_distinct_keys(
            pairs@,
            sorted@,
            |p: (usize, i64)| p.0 as int,
        );
        assert forall|i: int, j: int| 0 <= i < j < out@.len() implies out@[i] != out@[j] by {
            assert(out@[i] == sorted@[i].0 && out@[j] == sorted@[j].0);
        }
        // an index left out is outranked by every returned index
        assert forall|i: int|
            #![trigger activations_milli@[i]]
            0 <= i < n && (forall|j: int|
                0 <= j < out@.len() ==> (#[trigger] out@[j]) != i as usize) implies (forall|j: int|
            0 <= j < out@.len() ==> activations_milli@[(#[trigger] out@[j]) as int]
                > activations_milli@[i] || (activations_milli@[out@[j] as int]
                == activations_milli@[i] && out@[j] < i as usize)) by {
            broadcast use vstd::seq_lib::group_to_multiset_ensures;

            assert(pairs@[i].0 == i as usize && pairs@[i].1 == activations_milli@[i]);
            assert(pairs@.contains(pairs@[i]));
            assert(sorted@.to_multiset().contains(pairs@[i]));
            assert(sorted@.contains(pairs@[i]));
            let q0 = choose|q0: int| 0 <= q0 < sorted@.len() && sorted@[q0] == pairs@[i];
            crate::ranking::lemma_pair_position_of(sorted@, i as usize, q0);
            let q = crate::ranking::spec_pair_position_of(sorted@, i as usize);
            assert(sorted@[q].1 == activations_milli@[i]) by {
                assert(sorted@.contains(sorted@[q]));
                assert(pairs@.to_multiset().contains(sorted@[q]));
                assert(pairs@.contains(sorted@[q]));
                let pp = choose|pp: int| 0 <= pp < pairs@.len() && pairs@[pp] == sorted@[q];
                assert(pairs@[pp].0 == pp);
            }
            assert(q >= out@.len()) by {
                if q < out@.len() {
                    assert(out@[q] == sorted@[q].0);
                }
            }
            assert forall|j: int|
                0 <= j < out@.len() implies activations_milli@[(#[trigger] out@[j]) as int]
                > activations_milli@[i] || (activations_milli@[out@[j] as int]
                == activations_milli@[i] && out@[j] < i as usize) by {
                assert(out@[j] == sorted@[j].0);
                assert(crate::ranking::rank_le(sorted@[j], sorted@[q]));
                assert(out@[j] != i as usize);
            }
        }
    }
    out
}

} // verus!
