//! Visual memory.
//!
//! Visual retrieval reuses the activation pipeline with two extra additive
//! boosts (significance and emotional overhang) applied before ranking; the
//! module also owns the consolidation-window state machine, tag strength,
//! pruning candidacy, and representative-frame selection for video
//! description.

use vstd::prelude::*;

use crate::activation::{
    combine_activations,
    nonlinear_activation,
    spec_cube_milli,
    spec_emotional_multiplier_milli,
    spec_recency_boost_milli,
    spec_scale_milli,
    ACTIVATION_LIMIT,
};
use crate::location::spec_asymptote_milli;
use crate::ranking::{rank_le, rank_sorted, sort_pairs_desc};
use crate::spreading::{spread_activation, Association, SpreadingConfig};

verus! {

/// Where a visual memory originated.
#[derive(Clone, Copy, Debug, PartialEq, Eq, Structural)]
pub enum VisualSource {
    /// Shared over a chat service.
    Discord,
    /// Received by message.
    Sms,
    /// Direct upload or screenshot.
    Direct,
    /// Extracted frame from a video.
    VideoFrame,
    /// Other or unknown source.
    Other,
}

impl Default for VisualSource {
    fn default() -> (r: Self)
        ensures
            r == VisualSource::Other,
    {
        VisualSource::Other
    }
}

/// Emotional context of a visual memory: valence in `[-1, 1]` milli, arousal
/// in `[0, 1]` milli.
#[derive(Clone, Copy, Debug, PartialEq, Eq, Structural)]
pub struct EmotionalContext {
    /// Pleasant (`1000`) to unpleasant (`-1000`).
    pub valence_milli: i64,
    /// High activation (`1000`) to low activation (`0`).
    pub arousal_milli: i64,
}

impl Default for EmotionalContext {
    fn default() -> (r: Self)
        ensures
            r.valence_milli == 0,
            r.arousal_milli == 500,
    {
        EmotionalContext { valence_milli: 0, arousal_milli: 500 }
    }
}

impl EmotionalContext {
    /// Create an emotional context, clamping into range.
    pub fn new(valence_milli: i64, arousal_milli: i64) -> (r: Self)
        ensures
            r.valence_milli == vstd::math::max(vstd::math::min(valence_milli as int, 1000), -1000),
            r.arousal_milli == vstd::math::max(vstd::math::min(arousal_milli as int, 1000), 0),
    {
        let v: i64 = if valence_milli < -1000 {
            -1000
        } else if valence_milli > 1000 {
            1000
        } else {
            valence_milli
        };
        let a: i64 = if arousal_milli < 0 {
            0
        } else if arousal_milli > 1000 {
            1000
        } else {
            arousal_milli
        };
        EmotionalContext { valence_milli: v, arousal_milli: a }
    }

    /// Emotional weight for activation: `0.5` plus arousal, milli.
    pub fn emotional_weight(&self) -> (r: i64)
        requires
            0 <= self.arousal_milli <= 1000,
        ensures
            r == 500 + self.arousal_milli,
    {
        500 + self.arousal_milli
    }

    /// Whether this is a strong emotional moment: high arousal or an extreme
    /// valence in either direction.
    pub fn is_significant(&self) -> (r: bool)
        requires
            -1000 <= self.valence_milli <= 1000,
        ensures
            r == (self.arousal_milli > 700 || self.valence_milli > 700 || self.valence_milli
                < -700),
    {
        self.arousal_milli > 700 || self.valence_milli > 700 || self.valence_milli < -700
    }
}

/// A visual memory with its retrieval metadata.  The embedding itself stays
/// with the host; the pipeline receives its similarity to the probe.
#[derive(Clone, Debug)]
pub struct VisualMemory {
    /// Unique identifier.
    pub id: u32,
    /// Short description: the gist of the image.
    pub description: String,
    /// Detailed description; decays faster, may be absent.
    pub detailed_description: Option<String>,
    /// When the image was captured or received, ms.
    pub captured_at_ms: i64,
    /// Most recent access, ms.
    pub last_accessed_ms: i64,
    /// Access count.
    pub access_count: u32,
    /// Emotional context at capture time.
    pub emotional_context: EmotionalContext,
    /// Significance, milli.
    pub significance_milli: u32,
    /// Where the image came from.
    pub source: VisualSource,
    /// Who shared it, if anyone.
    pub shared_by: Option<String>,
    /// Video identifier, when this is a frame.
    pub video_id: Option<String>,
    /// Frame number within the video.
    pub frame_number: Option<u32>,
    /// Detected objects.
    pub objects: Vec<String>,
    /// Semantic tags.
    pub tags: Vec<String>,
    /// Whether this memory is protected from decay and pruning.
    pub is_pinned: bool,
}

impl VisualMemory {
    /// Whether this memory is a video frame.
    pub fn is_video_frame(&self) -> (r: bool)
        ensures
            r == self.video_id is Some,
    {
        self.video_id.is_some()
    }

    /// Emotional weight for retrieval.
    pub fn emotional_weight(&self) -> (r: i64)
        requires
            0 <= self.emotional_context.arousal_milli <= 1000,
        ensures
            r == 500 + self.emotional_context.arousal_milli,
    {
        self.emotional_context.emotional_weight()
    }
}

/// Configuration for visual memory maintenance, milli units.
#[derive(Clone, Debug)]
pub struct VisualConfig {
    /// Significance threshold for automatic tagging.
    pub tagging_significance_threshold_milli: u32,
    /// Minimum emotional arousal that boosts retention.
    pub emotional_retention_threshold_milli: u32,
    /// How much emotional arousal reduces decay.
    pub emotional_decay_reduction_milli: u32,
    /// Decay rate per day once stale.
    pub base_decay_rate_milli: u32,
    /// Days before decay begins.
    pub stale_threshold_days: u32,
    /// Significance never decays below this floor.
    pub significance_floor_milli: u32,
    /// Memories below this significance may be pruned.
    pub pruning_threshold_milli: u32,
    /// Days without access before a memory is stale enough to prune.
    pub pruning_stale_days: u32,
    /// Whether video keyframes are preserved from pruning.
    pub preserve_keyframes: bool,
}

impl Default for VisualConfig {
    fn default() -> (r: Self)
        ensures
            r.tagging_significance_threshold_milli == 600,
            r.emotional_retention_threshold_milli == 700,
            r.emotional_decay_reduction_milli == 500,
            r.base_decay_rate_milli == 50,
            r.stale_threshold_days == 14,
            r.significance_floor_milli == 100,
            r.pruning_threshold_milli == 200,
            r.pruning_stale_days == 90,
            r.preserve_keyframes == true,
    {
        VisualConfig {
            tagging_significance_threshold_milli: 600,
            emotional_retention_threshold_milli: 700,
            emotional_decay_reduction_milli: 500,
            base_decay_rate_milli: 50,
            stale_threshold_days: 14,
            significance_floor_milli: 100,
            pruning_threshold_milli: 200,
            pruning_stale_days: 90,
            preserve_keyframes: true,
        }
    }
}

// ============================================================================
// Consolidation
// ============================================================================

/// State of memory consolidation.
#[derive(Clone, Copy, Debug, PartialEq, Eq, Structural)]
pub enum ConsolidationState {
    /// Fresh memory, not yet consolidated.
    Fresh,
    /// Currently being consolidated (labile).
    Consolidating,
    /// Fully consolidated (stable).
    Consolidated,
    /// Undergoing reconsolidation after reactivation.
    Reconsolidating,
}

impl Default for ConsolidationState {
    fn default() -> (r: Self)
        ensures
            r == ConsolidationState::Fresh,
    {
        ConsolidationState::Fresh
    }
}

/// A time window during which consolidation occurs.
#[derive(Clone, Copy, Debug, PartialEq, Eq, Structural)]
pub struct ConsolidationWindow {
    /// When the window opened, ms.
    pub started_at_ms: i64,
    /// When the window closes and the memory becomes stable, ms.
    pub ends_at_ms: i64,
    /// Current state.
    pub state: ConsolidationState,
}

/// Progress through a window, milli: linear in elapsed time, clamped to
/// `[0, 1]`, and full once the window has closed.
pub open spec fn spec_window_progress(started: int, ends: int, now: int) -> int {
    if now >= ends {
        1000
    } else if now <= started {
        0
    } else {
        ((now - started) * 1000) / (ends - started)
    }
}

impl ConsolidationWindow {
    /// Open a consolidation window now.
    pub fn new(current_time_ms: i64, duration_ms: i64) -> (r: Self)
        requires
            duration_ms >= 1,
            -0x4_0000_0000_0000 <= current_time_ms <= 0x4_0000_0000_0000,
            duration_ms <= 0x4_0000_0000_0000,
        ensures
            r.started_at_ms == current_time_ms,
            r.ends_at_ms == current_time_ms + duration_ms,
            r.state == ConsolidationState::Consolidating,
    {
        ConsolidationWindow {
            started_at_ms: current_time_ms,
            ends_at_ms: current_time_ms + duration_ms,
            state: ConsolidationState::Consolidating,
        }
    }

    /// Whether the window is still open.
    pub fn is_open(&self, current_time_ms: i64) -> (r: bool)
        ensures
            r == (current_time_ms < self.ends_at_ms),
    {
        current_time_ms < self.ends_at_ms
    }

    /// Progress through the window, milli.
    pub fn progress(&self, current_time_ms: i64) -> (r: u32)
        requires
            spec_window_wf(*self),
            -0x8_0000_0000_0000 <= current_time_ms <= 0x8_0000_0000_0000,
        ensures
            r == spec_window_progress(
                self.started_at_ms as int,
                self.ends_at_ms as int,
                current_time_ms as int,
            ),
            r <= 1000,
    {
        if current_time_ms >= self.ends_at_ms {
            return 1000;
        }
        if current_time_ms <= self.started_at_ms {
            return 0;
        }
        let elapsed: u64 = (current_time_ms - self.started_at_ms) as u64;
        let duration: u64 = (self.ends_at_ms - self.started_at_ms) as u64;
        proof {
            assert((elapsed as int) * 1000 / (duration as int) < 1000) by (nonlinear_arith)
                requires
                    0 < elapsed < duration,
            ;
        }
        let scaled: u64 = elapsed * 1000 / duration;
        scaled as u32
    }
}

/// Full consolidation state of a visual memory.
#[derive(Clone, Debug)]
pub struct VisualConsolidationState {
    /// Current consolidation state.
    pub state: ConsolidationState,
    /// Active consolidation window, while consolidating.
    pub window: Option<ConsolidationWindow>,
    /// Consolidation strength, milli.
    pub strength_milli: u32,
    /// Number of reactivations.
    pub reactivation_count: u32,
}

impl Default for VisualConsolidationState {
    fn default() -> (r: Self)
        ensures
            r.state == ConsolidationState::Fresh,
            r.window is None,
            r.strength_milli == 0,
            r.reactivation_count == 0,
    {
        VisualConsolidationState {
            state: ConsolidationState::Fresh,
            window: None,
            strength_milli: 0,
            reactivation_count: 0,
        }
    }
}

/// A window is well-formed when it closes after it opened, within the time
/// range the calculus accepts.
pub open spec fn spec_window_wf(w: ConsolidationWindow) -> bool {
    &&& w.started_at_ms < w.ends_at_ms
    &&& -0x4_0000_0000_0000 <= w.started_at_ms
    &&& w.ends_at_ms <= 0x8_0000_0000_0000
}

/// What a clock update does to a consolidation state: nothing without a
/// window; while the window is open, strength follows its progress; once it
/// has closed, the memory is consolidated at full strength and the window is
/// dropped.  The reactivation count is untouched.
pub open spec fn spec_consolidation_updated(
    pre: VisualConsolidationState,
    now: int,
    post: VisualConsolidationState,
) -> bool {
    match pre.window {
        None => post == pre,
        Some(w) => {
            if now < w.ends_at_ms {
                &&& post.state == pre.state
                &&& post.window == pre.window
                &&& post.strength_milli == spec_window_progress(
                    w.started_at_ms as int,
                    w.ends_at_ms as int,
                    now,
                )
                &&& post.reactivation_count == pre.reactivation_count
            } else {
                &&& post.state == ConsolidationState::Consolidated
                &&& post.window is None
                &&& post.strength_milli == 1000
                &&& post.reactivation_count == pre.reactivation_count
            }
        },
    }
}

impl VisualConsolidationState {
    /// Whether the memory is currently labile (modifiable).
    pub fn is_labile(&self) -> (r: bool)
        ensures
            r == (self.state == ConsolidationState::Consolidating || self.state
                == ConsolidationState::Reconsolidating),
    {
        match self.state {
            ConsolidationState::Consolidating => true,
            ConsolidationState::Reconsolidating => true,
            _ => false,
        }
    }

    /// Start consolidation: open a window now.
    pub fn start_consolidation(&mut self, current_time_ms: i64, duration_ms: i64)
        requires
            duration_ms >= 1,
            -0x4_0000_0000_0000 <= current_time_ms <= 0x4_0000_0000_0000,
            duration_ms <= 0x4_0000_0000_0000,
        ensures
            final(self).state == ConsolidationState::Consolidating,
            final(self).window matches Some(w) && w.started_at_ms == current_time_ms
                && w.ends_at_ms == current_time_ms + duration_ms,
            final(self).strength_milli == old(self).strength_milli,
            final(self).reactivation_count == old(self).reactivation_count,
    {
        self.state = ConsolidationState::Consolidating;
        self.window = Some(ConsolidationWindow::new(current_time_ms, duration_ms));
    }

    /// Update the state from the clock: while the window is open, strength
    /// follows its progress; once it closes, the memory is consolidated at
    /// full strength and the window is dropped.
    pub fn update(&mut self, current_time_ms: i64)
        requires
            old(self).window matches Some(w) ==> spec_window_wf(w),
            -0x8_0000_0000_0000 <= current_time_ms <= 0x8_0000_0000_0000,
        ensures
            spec_consolidation_updated(*old(self), current_time_ms as int, *final(self)),
    {
        match self.window {
            Some(window) => {
                if window.is_open(current_time_ms) {
                    self.strength_milli = window.progress(current_time_ms);
                } else {
                    self.state = ConsolidationState::Consolidated;
                    self.strength_milli = 1000;
                    self.window = None;
                }
            },
            None => {},
        }
    }
}

// ============================================================================
// Tagging
// ============================================================================

/// Why a tag was assigned.
#[derive(Clone, Copy, Debug, PartialEq, Eq, Structural)]
pub enum TagReason {
    /// Detected automatically by a vision model.
    AutoDetected,
    /// Inferred from context.
    ContextInferred,
    /// Added manually.
    UserAdded,
    /// Inherited from an associated memory.
    Inherited,
}

/// A tag with its provenance.
#[derive(Clone, Debug)]
pub struct VisualTag {
    /// The tag value.
    pub tag: String,
    /// Why this tag was assigned.
    pub reason: TagReason,
    /// Confidence, milli.
    pub confidence_milli: u32,
}

/// Tag strength: base confidence, plus `0.3` of the access-count asymptote,
/// plus half of the significance above the tagging threshold; capped at one.
pub open spec fn spec_tag_strength_milli(
    base_confidence: int,
    access_count: int,
    significance: int,
    config: VisualConfig,
) -> int {
    let access_boost = spec_asymptote_milli(100 * access_count);
    let significance_boost = if significance > config.tagging_significance_threshold_milli {
        ((significance - config.tagging_significance_threshold_milli) * 500) / 1000
    } else {
        0
    };
    vstd::math::min(base_confidence + (access_boost * 300) / 1000 + significance_boost, 1000)
}

/// Compute tag strength, milli.
pub fn compute_tag_strength(
    base_confidence_milli: u32,
    access_count: u32,
    significance_milli: u32,
    config: &VisualConfig,
) -> (r: u32)
    requires
        base_confidence_milli <= 1000,
        significance_milli <= 1000,
    ensures
        r == spec_tag_strength_milli(
            base_confidence_milli as int,
            access_count as int,
            significance_milli as int,
            *config,
        ),
        r <= 1000,
{
    let kn: u64 = 100 * (access_count as u64);
    proof {
        vstd::arithmetic::div_mod::lemma_div_is_ordered_by_denominator(
            1_000_000,
            1000,
            1000 + kn as int,
        );
    }
    let access_boost: u64 = 1000 - 1_000_000 / (1000 + kn);
    let significance_boost: u64 = if significance_milli
        > config.tagging_significance_threshold_milli {
        (((significance_milli - config.tagging_significance_threshold_milli) as u64) * 500) / 1000
    } else {
        0
    };
    let combined: u64 = (base_confidence_milli as u64) + access_boost * 300 / 1000
        + significance_boost;
    if combined > 1000 {
        1000
    } else {
        combined as u32
    }
}

/// Whether a tag should be applied.
pub fn should_tag(strength_milli: u32, threshold_milli: u32) -> (r: bool)
    ensures
        r == (strength_milli >= threshold_milli),
{
    strength_milli >= threshold_milli
}

// ============================================================================
// Pruning
// ============================================================================

/// Why a memory is a pruning candidate.
#[derive(Clone, Copy, Debug, PartialEq, Eq, Structural)]
pub enum PruningReason {
    /// Low significance and aging.
    LowSignificance,
    /// Not accessed in a long time.
    Stale,
    /// Duplicate or near-duplicate of another memory.
    Duplicate,
    /// Low-quality frame.
    LowQuality,
}

/// A candidate for pruning.
#[derive(Clone, Copy, Debug, PartialEq, Eq, Structural)]
pub struct PruningCandidate {
    /// Memory index.
    pub index: usize,
    /// Current significance, milli.
    pub significance_milli: u32,
    /// Time since last access, milli-days.
    pub days_since_access_milli: i64,
    /// Why this is a pruning candidate.
    pub reason: PruningReason,
    /// Pruning score, milli; higher means more prunable.
    pub score_milli: i64,
}

/// Milliseconds in a day.
pub const MS_PER_DAY_VISUAL: i64 = 86_400_000;

/// A memory is shielded from pruning: pinned, or a preserved keyframe.
pub open spec fn spec_prune_shielded(m: VisualMemory, config: VisualConfig) -> bool {
    m.is_pinned || (config.preserve_keyframes && m.frame_number == Some(0u32))
}

/// Time since last access in milli-days; a future timestamp counts as no
/// elapsed time.
pub open spec fn spec_days_since_milli(now: int, last: int) -> int {
    (vstd::math::max(now - last, 0) * 1000) / (MS_PER_DAY_VISUAL as int)
}

/// The pruning verdict for one memory: `None` for shielded, fresh-enough, or
/// significant-enough memories; otherwise the reason and score.
pub open spec fn spec_pruning_verdict(
    m: VisualMemory,
    now: int,
    config: VisualConfig,
) -> Option<(PruningReason, int)> {
    if spec_prune_shielded(m, config) {
        None
    } else {
        let days = spec_days_since_milli(now, m.last_accessed_ms as int);
        if days > config.pruning_stale_days * 1000 {
            Some(
                (
                    PruningReason::Stale,
                    ((days / (config.pruning_stale_days as int)) * (1000 - m.significance_milli))
                        / 1000,
                ),
            )
        } else if m.significance_milli < config.pruning_threshold_milli {
            Some(
                (
                    PruningReason::LowSignificance,
                    ((config.pruning_threshold_milli - m.significance_milli) * vstd::math::min(
                        days / (config.stale_threshold_days as int),
                        1000,
                    )) / 1000,
                ),
            )
        } else {
            None
        }
    }
}

/// Compute elapsed milli-days between two timestamps.
fn days_since_milli(current_time_ms: i64, last_ms: i64) -> (r: i64)
    requires
        -0x10_0000_0000_0000 <= last_ms <= 0x10_0000_0000_0000,
        -0x10_0000_0000_0000 <= current_time_ms <= 0x10_0000_0000_0000,
    ensures
        r == spec_days_since_milli(current_time_ms as int, last_ms as int),
        0 <= r <= 0x1_0000_0000_0000,
{
    if current_time_ms <= last_ms {
        return 0;
    }
    let elapsed: u64 = (current_time_ms - last_ms) as u64;
    let wide: u64 = elapsed * 1000 / (MS_PER_DAY_VISUAL as u64);
    wide as i64
}

/// Compute the pruning verdict for one memory.
fn pruning_verdict(m: &VisualMemory, current_time_ms: i64, config: &VisualConfig) -> (r: Option<
    (PruningReason, i64),
>)
    requires
        m.significance_milli <= 1000,
        -0x10_0000_0000_0000 <= m.last_accessed_ms <= 0x10_0000_0000_0000,
        -0x10_0000_0000_0000 <= current_time_ms <= 0x10_0000_0000_0000,
        1 <= config.pruning_stale_days <= 100_000,
        1 <= config.stale_threshold_days <= 100_000,
        config.pruning_threshold_milli <= 1000,
    ensures
        r is Some <==> spec_pruning_verdict(*m, current_time_ms as int, *config) is Some,
        r matches Some(v) ==> spec_pruning_verdict(*m, current_time_ms as int, *config) == Some(
            (v.0, v.1 as int),
        ),
        r matches Some(v) ==> 0 <= v.1 <= 0x100_0000_0000_0000,
{
    if m.is_pinned {
        return None;
    }
    if config.preserve_keyframes {
        match m.frame_number {
            Some(f) => {
                if f == 0 {
                    return None;
                }
            },
            None => {},
        }
    }
    let days_milli: i64 = days_since_milli(current_time_ms, m.last_accessed_ms);
    let days: u64 = days_milli as u64;
    if days_milli > (config.pruning_stale_days as i64) * 1000 {
        let ratio: u64 = days / (config.pruning_stale_days as u64);
        proof {
            assert(ratio * ((1000 - m.significance_milli) as u64) <= ratio * 1000) by (
            nonlinear_arith)
                requires
                    m.significance_milli <= 1000,
            ;
            assert(days / (config.pruning_stale_days as u64) <= days) by (nonlinear_arith)
                requires
                    config.pruning_stale_days >= 1,
            ;
        }
        let score: u64 = ratio * ((1000 - m.significance_milli) as u64) / 1000;
        Some((PruningReason::Stale, score as i64))
    } else if m.significance_milli < config.pruning_threshold_milli {
        let aging_raw: u64 = days / (config.stale_threshold_days as u64);
        let aging: u64 = if aging_raw > 1000 {
            1000
        } else {
            aging_raw
        };
        proof {
            assert(((config.pruning_threshold_milli - m.significance_milli) as u64) * aging
                <= 1000 * 1000) by (nonlinear_arith)
                requires
                    aging <= 1000,
                    m.significance_milli < config.pruning_threshold_milli,
                    config.pruning_threshold_milli <= 1000,
            ;
        }
        let score: u64 = ((config.pruning_threshold_milli - m.significance_milli) as u64) * aging
            / 1000;
        Some((PruningReason::LowSignificance, score as i64))
    } else {
        None
    }
}

/// How many of the first `i` memories have a pruning verdict.
pub open spec fn spec_count_prunable(
    memories: Seq<VisualMemory>,
    now: int,
    config: VisualConfig,
    i: int,
) -> nat
    decreases i,
{
    if i <= 0 {
        0
    } else {
        spec_count_prunable(memories, now, config, i - 1) + (if spec_pruning_verdict(
            memories[i - 1],
            now,
            config,
        ) is Some {
            1nat
        } else {
            0nat
        })
    }
}

/// The candidate records the verdict of the memory it points at.
pub open spec fn spec_is_verdict_of(
    memories: Seq<VisualMemory>,
    now: int,
    config: VisualConfig,
    c: PruningCandidate,
) -> bool {
    &&& c.index < memories.len()
    &&& spec_pruning_verdict(memories[c.index as int], now, config) == Some(
        (c.reason, c.score_milli as int),
    )
    &&& c.significance_milli == memories[c.index as int].significance_milli
    &&& c.days_since_access_milli == spec_days_since_milli(
        now,
        memories[c.index as int].last_accessed_ms as int,
    )
}

/// Compute pruning candidates, most prunable first (ties by lower index).
///
/// Pinned memories and preserved keyframes are never candidates; stale
/// memories score by staleness weighted against significance, low-significance
/// memories by their shortfall weighted by age.
pub fn compute_pruning_candidates(
    memories: &Vec<VisualMemory>,
    current_time_ms: i64,
    config: &VisualConfig,
) -> (r: Vec<PruningCandidate>)
    requires
        forall|i: int|
            0 <= i < memories@.len() ==> (#[trigger] memories@[i]).significance_milli <= 1000
                && -0x10_0000_0000_0000 <= memories@[i].last_accessed_ms <= 0x10_0000_0000_0000,
        -0x10_0000_0000_0000 <= current_time_ms <= 0x10_0000_0000_0000,
        1 <= config.pruning_stale_days <= 100_000,
        1 <= config.stale_threshold_days <= 100_000,
        config.pruning_threshold_milli <= 1000,
    ensures
        r@.len() == spec_count_prunable(
            memories@,
            current_time_ms as int,
            *config,
            memories@.len() as int,
        ),
        forall|j: int|
            0 <= j < r@.len() ==> spec_is_verdict_of(
                memories@,
                current_time_ms as int,
                *config,
                #[trigger] r@[j],
            ),
        forall|j: int|
            0 <= j < r@.len() ==> !(#[trigger] memories@[r@[j].index as int]).is_pinned,
        forall|i: int, j: int|
            0 <= i < j < r@.len() ==> (#[trigger] r@[i]).index != (#[trigger] r@[j]).index,
        forall|i: int, j: int|
            0 <= i < j < r@.len() ==> (#[trigger] r@[i]).score_milli > (#[trigger] r@[j]).score_milli
                || (r@[i].score_milli == r@[j].score_milli),
{
    let n = memories.len();
    let mut kept: Vec<PruningCandidate> = Vec::new();
    let mut i: usize = 0;
    while i < n
        invariant
            i <= n,
            n == memories@.len(),
            forall|k: int|
                0 <= k < n ==> (#[trigger] memories@[k]).significance_milli <= 1000
                    && -0x10_0000_0000_0000 <= memories@[k].last_accessed_ms
                    <= 0x10_0000_0000_0000,
            -0x10_0000_0000_0000 <= current_time_ms <= 0x10_0000_0000_0000,
            1 <= config.pruning_stale_days <= 100_000,
            1 <= config.stale_threshold_days <= 100_000,
            config.pruning_threshold_milli <= 1000,
            kept@.len() == spec_count_prunable(memories@, current_time_ms as int, *config, i as int),
            forall|j: int|
                0 <= j < kept@.len() ==> spec_is_verdict_of(
                    memories@,
                    current_time_ms as int,
                    *config,
                    #[trigger] kept@[j],
                ),
            forall|j: int|
                0 <= j < kept@.len() ==> 0 <= (#[trigger] kept@[j]).score_milli
                    <= 0x100_0000_0000_0000,
            forall|j: int| 0 <= j < kept@.len() ==> (#[trigger] kept@[j]).index < i,
            forall|a: int, b: int|
                0 <= a < b < kept@.len() ==> kept@[a].index < kept@[b].index,
        decreases n - i,
    {
        let m = &memories[i];
        match pruning_verdict(m, current_time_ms, config) {
            Some(verdict) => {
                let days = days_since_milli(current_time_ms, m.last_accessed_ms);
                kept.push(
                    PruningCandidate {
                        index: i,
                        significance_milli: m.significance_milli,
                        days_since_access_milli: days,
                        reason: verdict.0,
                        score_milli: verdict.1,
                    },
                );
            },
            None => {},
        }
        i = i + 1;
    }

    // Rank by score, descending; ties keep the lower memory index first.
    let mut pairs: Vec<(usize, i64)> = Vec::new();
    let kn = kept.len();
    let mut p: usize = 0;
    while p < kn
        invariant
            p <= kn,
            kn == kept@.len(),
            pairs@.len() == p,
            forall|j: int|
                0 <= j < p ==> (#[trigger] pairs@[j]).0 == j && pairs@[j].1 == kept@[j].score_milli,
        decreases kn - p,
    {
        pairs.push((p, kept[p].score_milli));
        p = p + 1;
    }
    let ranked = sort_pairs_desc(pairs);
    proof {
        broadcast use vstd::seq_lib::group_to_multiset_ensures;

        assert forall|j: int|
            0 <= j < ranked@.len() implies (#[trigger] ranked@[j]).0 < kn && ranked@[j].1
            == kept@[ranked@[j].0 as int].score_milli by {
            assert(ranked@.to_multiset().contains(ranked@[j]));
            assert(pairs@.to_multiset().contains(ranked@[j]));
            assert(pairs@.contains(ranked@[j]));
            let q = choose|q: int| 0 <= q < pairs@.len() && pairs@[q] == ranked@[j];
            assert(pairs@[q].0 == q && pairs@[q].1 == kept@[q].score_milli);
        }
    }
    let mut out: Vec<PruningCandidate> = Vec::new();
    let mut t: usize = 0;
    while t < ranked.len()
        invariant
            t <= ranked@.len(),
            ranked@.len() == kn,
            kn == kept@.len(),
            forall|j: int|
                0 <= j < kn ==> (#[trigger] ranked@[j]).0 < kn && ranked@[j].1
                    == kept@[ranked@[j].0 as int].score_milli,
            rank_sorted(ranked@),
            forall|j: int|
                0 <= j < kept@.len() ==> spec_is_verdict_of(
                    memories@,
                    current_time_ms as int,
                    *config,
                    #[trigger] kept@[j],
                ),
            out@.len() == t,
            forall|j: int| 0 <= j < t ==> #[trigger] out@[j] == kept@[ranked@[j].0 as int],
            forall|j: int| 0 <= j < t ==> (#[trigger] out@[j]).score_milli == ranked@[j].1,
        decreases ranked@.len() - t,
    {
        out.push(kept[ranked[t].0]);
        t = t + 1;
    }
    proof {
        assert forall|j: int|
            0 <= j < out@.len() implies spec_is_verdict_of(
            memories@,
            current_time_ms as int,
            *config,
            #[trigger] out@[j],
        ) by {
            assert(out@[j] == kept@[ranked@[j].0 as int]);
        }
        crate::ranking::lemma_permutation_distinct_keys(
            pairs@,
            ranked@,
            |p: (usize, i64)| p.0 as int,
        );
        assert forall|i1: int, j1: int|
            0 <= i1 < j1 < out@.len() implies (#[trigger] out@[i1]).index != (
        #[trigger] out@[j1]).index by {
            assert(out@[i1] == kept@[ranked@[i1].0 as int]);
            assert(out@[j1] == kept@[ranked@[j1].0 as int]);
            assert(ranked@[i1].0 != ranked@[j1].0);
            let a = ranked@[i1].0 as int;
            let b = ranked@[j1].0 as int;
            if a < b {
                assert(kept@[a].index < kept@[b].index);
            } else {
                assert(kept@[b].index < kept@[a].index);
            }
        }
        assert forall|i1: int, j1: int|
            0 <= i1 < j1 < out@.len() implies (#[trigger] out@[i1]).score_milli > (
        #[trigger] out@[j1]).score_milli || (out@[i1].score_milli == out@[j1].score_milli) by {
            assert(rank_le(ranked@[i1], ranked@[j1]));
        }
    }
    out
}

/// Whether one memory should be pruned outright: never when pinned or a
/// preserved keyframe; otherwise when it is both stale and insignificant, or
/// doubly stale and of middling significance.
pub fn should_prune(
    significance_milli: u32,
    days_since_access_milli: i64,
    is_pinned: bool,
    is_keyframe: bool,
    config: &VisualConfig,
) -> (r: bool)
    requires
        config.pruning_stale_days <= 100_000,
    ensures
        is_pinned ==> r == false,
        !is_pinned && config.preserve_keyframes && is_keyframe ==> r == false,
        !is_pinned && !(config.preserve_keyframes && is_keyframe) ==> r == (
        (days_since_access_milli > config.pruning_stale_days * 1000 && significance_milli
            < config.pruning_threshold_milli) || (days_since_access_milli
            > config.pruning_stale_days * 2000 && significance_milli < 500)),
{
    if is_pinned {
        return false;
    }
    if config.preserve_keyframes && is_keyframe {
        return false;
    }
    if days_since_access_milli > (config.pruning_stale_days as i64) * 1000 && significance_milli
        < config.pruning_threshold_milli {
        return true;
    }
    if days_since_access_milli > (config.pruning_stale_days as i64) * 2000 && significance_milli
        < 500 {
        return true;
    }
    false
}

// ============================================================================
// Video frame selection
// ============================================================================

/// A candidate frame for description.
#[derive(Clone, Debug)]
pub struct FrameCandidate {
    /// Frame index in the video.
    pub index: usize,
    /// Timestamp, milliseconds.
    pub timestamp_ms: i64,
    /// Whether this is a keyframe.
    pub is_keyframe: bool,
    /// Whether this frame starts a new scene.
    pub is_scene_change: bool,
    /// Quality score, milli.
    pub quality_milli: u32,
}

/// A transcript segment for context.
#[derive(Clone, Debug)]
pub struct TranscriptSegment {
    /// Start timestamp, milliseconds.
    pub start_ms: i64,
    /// End timestamp, milliseconds.
    pub end_ms: i64,
    /// The transcribed text.
    pub text: String,
}

/// The timestamp lies inside some transcript segment.
pub open spec fn spec_in_any_segment(ts: int, segments: Seq<TranscriptSegment>) -> bool {
    exists|k: int|
        0 <= k < segments.len() && (#[trigger] segments[k]).start_ms <= ts && ts
            <= segments[k].end_ms
}

/// A frame's selection score: quality, plus `0.3` for a keyframe, `0.5` for
/// a scene change, and `0.2` when speech overlaps the frame.
pub open spec fn spec_frame_score(f: FrameCandidate, segments: Option<Seq<TranscriptSegment>>) -> int {
    f.quality_milli + (if f.is_keyframe {
        300int
    } else {
        0int
    }) + (if f.is_scene_change {
        500int
    } else {
        0int
    }) + (if segments matches Some(segs) && spec_in_any_segment(f.timestamp_ms as int, segs) {
        200int
    } else {
        0int
    })
}

/// Whether the timestamp lies inside some transcript segment.
fn in_any_segment(ts: i64, segments: &Vec<TranscriptSegment>) -> (r: bool)
    ensures
        r == spec_in_any_segment(ts as int, segments@),
{
    let n = segments.len();
    let mut k: usize = 0;
    while k < n
        invariant
            k <= n,
            n == segments@.len(),
            forall|t: int|
                0 <= t < k ==> !((#[trigger] segments@[t]).start_ms <= ts && ts
                    <= segments@[t].end_ms),
        decreases n - k,
    {
        let seg = &segments[k];
        if seg.start_ms <= ts && ts <= seg.end_ms {
            return true;
        }
        k = k + 1;
    }
    false
}

/// The minimum index gap kept between selected frames: wide enough to
/// spread the quota over the video, and never less than one.
pub open spec fn spec_min_frame_gap(n: int, max_frames: int) -> int {
    if max_frames <= 0x1000_0000 && n > max_frames * 2 {
        n / (max_frames * 2)
    } else {
        1
    }
}

/// How many of the first `i` mask entries are set.
pub open spec fn spec_count_true(mask: Seq<bool>, i: int) -> nat
    decreases i,
{
    if i <= 0 {
        0
    } else {
        spec_count_true(mask, i - 1) + (if mask[i - 1] {
            1nat
        } else {
            0nat
        })
    }
}

/// Select frames for description under a hard quota.
///
/// Frames are scored by quality, keyframe and scene-change bonuses, and
/// transcript overlap.  The first and last frame are always kept when the
/// quota allows two; the rest are taken by score, never closer to an already
/// selected frame than a minimum index gap.  Indices come back in
/// chronological order, each at most once.
pub fn select_frames_for_description(
    frames: &Vec<FrameCandidate>,
    max_frames: usize,
    transcript_segments: Option<&Vec<TranscriptSegment>>,
) -> (r: Vec<usize>)
    requires
        max_frames <= 0x1000_0000,
        frames@.len() <= 0x1000_0000,
    ensures
        forall|j: int| 0 <= j < r@.len() ==> (#[trigger] r@[j]) < frames@.len(),
        forall|i: int, j: int| 0 <= i < j < r@.len() ==> r@[i] < r@[j],
        frames@.len() == 0 || max_frames == 0 ==> r@.len() == 0,
        r@.len() <= max_frames,
        max_frames >= 2 && frames@.len() >= 1 ==> r@.len() >= 1 && r@[0] == 0 && r@[r@.len() - 1]
            == frames@.len() - 1,
        forall|i: int, j: int|
            0 <= i < j < r@.len() ==> r@[j] - r@[i] >= spec_min_frame_gap(
                frames@.len() as int,
                max_frames as int,
            ),
{
    let n = frames.len();
    if n == 0 || max_frames == 0 {
        return Vec::new();
    }

    // Score every frame.
    let mut scores: Vec<i64> = Vec::new();
    let mut i: usize = 0;
    while i < n
        invariant
            i <= n,
            n == frames@.len(),
            scores@.len() == i,
        decreases n - i,
    {
        let f = &frames[i];
        let mut score: i64 = f.quality_milli as i64;
        if f.is_keyframe {
            score = score + 300;
        }
        if f.is_scene_change {
            score = score + 500;
        }
        match transcript_segments {
            Some(segments) => {
                if in_any_segment(f.timestamp_ms, segments) {
                    score = score + 200;
                }
            },
            None => {},
        }
        scores.push(score);
        i = i + 1;
    }

    let mut pairs: Vec<(usize, i64)> = Vec::new();
    let mut p: usize = 0;
    while p < n
        invariant
            p <= n,
            n == scores@.len(),
            pairs@.len() == p,
            forall|j: int| 0 <= j < p ==> (#[trigger] pairs@[j]).0 == j,
        decreases n - p,
    {
        pairs.push((p, scores[p]));
        p = p + 1;
    }
    let ranked = sort_pairs_desc(pairs);
    proof {
        broadcast use vstd::seq_lib::group_to_multiset_ensures;

        assert forall|j: int| 0 <= j < ranked@.len() implies (#[trigger] ranked@[j]).0 < n by {
            assert(ranked@.to_multiset().contains(ranked@[j]));
            assert(pairs@.to_multiset().contains(ranked@[j]));
            assert(pairs@.contains(ranked@[j]));
        }
    }

    // Selection mask plus a list for gap checking.
    let mut mask: Vec<bool> = Vec::new();
    let mut z: usize = 0;
    while z < n
        invariant
            z <= n,
            mask@.len() == z,
            forall|j: int| 0 <= j < z ==> !(#[trigger] mask@[j]),
        decreases n - z,
    {
        mask.push(false);
        z = z + 1;
    }
    proof {
        lemma_count_true_bound(mask@, n as int);
        lemma_count_true_zero(mask@, n as int);
    }
    let mut chosen: Vec<usize> = Vec::new();
    let mut count: usize = 0;

    if max_frames >= 2 {
        let ghost m0 = mask@;
        mask[0] = true;
        proof {
            lemma_count_true_zero(m0, n as int);
            lemma_count_true_update(m0, 0, n as int);
            assert(spec_count_true(mask@, n as int) == 1);
        }
        chosen.push(0);
        count = 1;
        if n > 1 {
            let ghost m1 = mask@;
            mask[n - 1] = true;
            proof {
                assert(!m1[n - 1]);
                lemma_count_true_update(m1, n - 1, n as int);
                assert(spec_count_true(mask@, n as int) == 2);
            }
            chosen.push(n - 1);
            count = 2;
        }
    }

    proof {
        assert forall|j: int| 0 <= j < n && mask@[j] implies chosen@.contains(j as usize) by {
            if max_frames >= 2 {
                if j == 0 {
                    assert(chosen@[0] == 0usize);
                } else {
                    assert(j == n - 1);
                    assert(chosen@[1] == (n - 1) as usize);
                }
            }
        }
    }
    let min_gap: usize = if max_frames <= 0x1000_0000 && n > max_frames * 2 {
        proof {
            vstd::arithmetic::div_mod::lemma_div_non_zero(n as int, (max_frames * 2) as int);
            if max_frames >= 2 {
                vstd::arithmetic::div_mod::lemma_div_is_ordered_by_denominator(
                    n as int,
                    4,
                    (max_frames * 2) as int,
                );
            }
        }
        n / (max_frames * 2)
    } else {
        1
    };
    proof {
        assert(min_gap == spec_min_frame_gap(n as int, max_frames as int));
        assert(min_gap >= 1);
        assert(max_frames >= 2 && n > 1 ==> n - 1 >= min_gap);
    }

    let mut t: usize = 0;
    while t < ranked.len()
        invariant
            t <= ranked@.len(),
            n == frames@.len(),
            mask@.len() == n,
            forall|j: int| 0 <= j < ranked@.len() ==> (#[trigger] ranked@[j]).0 < n,
            count == spec_count_true(mask@, n as int),
            count <= vstd::math::max(max_frames as int, 2),
            max_frames >= 2 ==> count <= max_frames,
            max_frames >= 2 ==> mask@[0],
            max_frames >= 2 && n > 1 ==> mask@[n - 1],
            max_frames < 2 ==> count <= max_frames,
            min_gap == spec_min_frame_gap(n as int, max_frames as int),
            min_gap >= 1,
            forall|j: int| 0 <= j < chosen@.len() ==> (#[trigger] chosen@[j]) < n,
            forall|j: int| 0 <= j < chosen@.len() ==> mask@[#[trigger] chosen@[j] as int],
            forall|j: int| 0 <= j < n && mask@[j] ==> chosen@.contains(j as usize),
            forall|a: int, b: int|
                0 <= a < b < chosen@.len() ==> (if chosen@[a] >= chosen@[b] {
                    chosen@[a] - chosen@[b]
                } else {
                    chosen@[b] - chosen@[a]
                }) >= min_gap,
        decreases ranked@.len() - t,
    {
        if count >= max_frames {
            break ;
        }
        let idx = ranked[t].0;
        let mut too_close = false;
        let mut c: usize = 0;
        while c < chosen.len()
            invariant
                c <= chosen@.len(),
                forall|j: int| 0 <= j < chosen@.len() ==> (#[trigger] chosen@[j]) < n,
                !too_close ==> forall|j: int|
                    0 <= j < c ==> (if idx >= (#[trigger] chosen@[j]) {
                        idx - chosen@[j]
                    } else {
                        chosen@[j] - idx
                    }) >= min_gap,
            ensures
                !too_close ==> forall|j: int|
                    0 <= j < chosen@.len() ==> (if idx >= (#[trigger] chosen@[j]) {
                        idx - chosen@[j]
                    } else {
                        chosen@[j] - idx
                    }) >= min_gap,
            decreases chosen@.len() - c,
        {
            let s = chosen[c];
            let gap: usize = if idx > s {
                idx - s
            } else {
                s - idx
            };
            if gap < min_gap {
                too_close = true;
            }
            c = c + 1;
        }
        if !too_close {
            let was_set: bool = mask[idx];
            let ghost before = mask@;
            let ghost chosen_before = chosen@;
            mask[idx] = true;
            proof {
                lemma_count_true_update(before, idx as int, n as int);
            }
            chosen.push(idx);
            count = if was_set {
                count
            } else {
                count + 1
            };
            proof {
                assert forall|j: int| 0 <= j < n && mask@[j] implies chosen@.contains(j as usize) by {
                    if j == idx as int {
                        assert(chosen@[chosen@.len() - 1] == idx);
                    } else {
                        assert(before[j] == mask@[j]);
                        assert(chosen_before.contains(j as usize));
                        let w = choose|w: int|
                            0 <= w < chosen_before.len() && chosen_before[w] == j as usize;
                        assert(chosen@[w] == j as usize);
                    }
                }
                assert forall|a: int, b: int|
                    0 <= a < b < chosen@.len() implies (if chosen@[a] >= chosen@[b] {
                    chosen@[a] - chosen@[b]
                } else {
                    chosen@[b] - chosen@[a]
                }) >= min_gap by {
                    if b == chosen@.len() - 1 {
                        assert(chosen@[a] == chosen_before[a]);
                        assert(chosen@[b] == idx);
                    } else {
                        assert(chosen@[a] == chosen_before[a] && chosen@[b] == chosen_before[b]);
                    }
                }
            }
        }
        t = t + 1;
    }

    // Emit in chronological order.
    let mut out: Vec<usize> = Vec::new();
    let mut o: usize = 0;
    while o < n
        invariant
            o <= n,
            n == mask@.len(),
            out@.len() == spec_count_true(mask@, o as int),
            forall|j: int| 0 <= j < out@.len() ==> (#[trigger] out@[j]) < o,
            forall|i1: int, j1: int| 0 <= i1 < j1 < out@.len() ==> out@[i1] < out@[j1],
            forall|j: int| 0 <= j < out@.len() ==> mask@[#[trigger] out@[j] as int],
            forall|j: int| 0 <= j < o && mask@[j] ==> out@.contains(j as usize),
            forall|j: int| 0 <= j < n && mask@[j] ==> chosen@.contains(j as usize),
            min_gap == spec_min_frame_gap(n as int, max_frames as int),
            forall|a: int, b: int|
                0 <= a < b < chosen@.len() ==> (if chosen@[a] >= chosen@[b] {
                    chosen@[a] - chosen@[b]
                } else {
                    chosen@[b] - chosen@[a]
                }) >= min_gap,
        decreases n - o,
    {
        if mask[o] {
            let ghost before_out = out@;
            out.push(o);
            proof {
                assert forall|j: int| 0 <= j < o + 1 && mask@[j] implies out@.contains(j as usize) by {
                    if j == o as int {
                        assert(out@[out@.len() - 1] == o);
                    } else {
                        let w = choose|w: int|
                            0 <= w < before_out.len() && before_out[w] == j as usize;
                        assert(out@[w] == j as usize);
                    }
                }
            }
        }
        o = o + 1;
    }
    proof {
        lemma_count_true_bound(mask@, n as int);
        assert forall|i1: int, j1: int|
            0 <= i1 < j1 < out@.len() implies out@[j1] - out@[i1] >= spec_min_frame_gap(
            n as int,
            max_frames as int,
        ) by {
            assert(mask@[out@[i1] as int] && mask@[out@[j1] as int]);
            assert(chosen@.contains(out@[i1]) && chosen@.contains(out@[j1]));
            let a = choose|a: int| 0 <= a < chosen@.len() && chosen@[a] == out@[i1];
            let b = choose|b: int| 0 <= b < chosen@.len() && chosen@[b] == out@[j1];
            assert(out@[i1] < out@[j1]);
            assert(a != b);
            if a < b {
                assert((if chosen@[a] >= chosen@[b] {
                    chosen@[a] - chosen@[b]
                } else {
                    chosen@[b] - chosen@[a]
                }) >= min_gap);
            } else {
                assert((if chosen@[b] >= chosen@[a] {
                    chosen@[b] - chosen@[a]
                } else {
                    chosen@[a] - chosen@[b]
                }) >= min_gap);
            }
        }
        if max_frames >= 2 {
            assert(mask@[0]);
            assert(out@.contains(0usize));
            assert(out@.len() >= 1);
            assert(out@[0] == 0usize) by {
                let w = choose|w: int| 0 <= w < out@.len() && out@[w] == 0usize;
                if w > 0 {
                    assert(out@[0] < out@[w]);
                }
            }
            if n > 1 {
                assert(mask@[n - 1]);
                assert(out@.contains((n - 1) as usize));
                assert(out@[out@.len() - 1] == (n - 1) as usize) by {
                    let w = choose|w: int| 0 <= w < out@.len() && out@[w] == (n - 1) as usize;
                    if w < out@.len() - 1 {
                        assert(out@[w] < out@[out@.len() - 1]);
                        assert(out@[out@.len() - 1] < n);
                    }
                }
            }
        }
    }
    out
}

/// The count of set entries never exceeds the prefix length.
proof fn lemma_count_true_bound(mask: Seq<bool>, i: int)
    ensures
        spec_count_true(mask, i) <= vstd::math::max(i, 0),
    decreases i,
{
    if i > 0 {
        lemma_count_true_bound(mask, i - 1);
    }
}

/// An all-false mask has no set entries.
proof fn lemma_count_true_zero(mask: Seq<bool>, i: int)
    requires
        forall|j: int| 0 <= j < mask.len() ==> !mask[j],
        i <= mask.len(),
    ensures
        spec_count_true(mask, i) == 0,
    decreases i,
{
    if i > 0 {
        lemma_count_true_zero(mask, i - 1);
    }
}

/// Setting one entry raises the count by one if it was clear, else leaves it.
proof fn lemma_count_true_update(mask: Seq<bool>, at: int, i: int)
    requires
        0 <= at < mask.len(),
        i <= mask.len(),
    ensures
        i <= at ==> spec_count_true(mask.update(at, true), i) == spec_count_true(mask, i),
        i > at ==> spec_count_true(mask.update(at, true), i) == spec_count_true(mask, i) + (
        if mask[at] {
            0nat
        } else {
            1nat
        }),
    decreases i,
{
    if i > 0 {
        lemma_count_true_update(mask, at, i - 1);
        if i - 1 == at {
            assert(mask.update(at, true)[at]);
        } else {
            assert(mask.update(at, true)[i - 1] == mask[i - 1]);
        }
    }
}


// ============================================================================
// Visual retrieval
// ============================================================================

/// Configuration for visual memory retrieval.
#[derive(Clone, Debug)]
pub struct VisualRetrievalConfig {
    /// Spreading activation depth.
    pub spreading_depth: usize,
    /// Spreading decay per hop, milli.
    pub spreading_decay_milli: u32,
    /// Total-activation floor; the host derives it from its probability
    /// floor through the logistic.  `i64::MIN` keeps every candidate.
    pub min_total_activation_milli: i64,
    /// Maximum number of results returned.
    pub max_results: usize,
    /// Whether to spread along backward edges too.
    pub bidirectional: bool,
    /// Boost factor for emotionally charged memories, milli.
    pub emotional_boost_milli: u32,
    /// Boost factor for significant memories, milli.
    pub significance_boost_milli: u32,
}

impl Default for VisualRetrievalConfig {
    fn default() -> (r: Self)
        ensures
            r.spreading_depth == 3,
            r.spreading_decay_milli == 700,
            r.min_total_activation_milli == i64::MIN,
            r.max_results == 10,
            r.bidirectional == true,
            r.emotional_boost_milli == 300,
            r.significance_boost_milli == 200,
    {
        VisualRetrievalConfig {
            spreading_depth: 3,
            spreading_decay_milli: 700,
            min_total_activation_milli: i64::MIN,
            max_results: 10,
            bidirectional: true,
            emotional_boost_milli: 300,
            significance_boost_milli: 200,
        }
    }
}

/// Input data for visual retrieval; arrays are parallel by memory index.
#[derive(Clone, Debug)]
pub struct VisualRetrievalInput {
    /// Cosine similarity of the probe to each memory, milli.
    pub similarities_milli: Vec<i64>,
    /// Base-level activation of each memory, milli; `-10_000` stands for a
    /// memory that was never accessed.
    pub base_levels_milli: Vec<i64>,
    /// Emotional weight per memory, milli; a short array means `0.5`.
    pub emotional_weights_milli: Vec<i64>,
    /// Significance per memory, milli; a short array means `0.5`.
    pub significance_scores_milli: Vec<i64>,
    /// Association graph edges.
    pub associations: Vec<Association>,
}

/// A candidate from visual retrieval, milli.
#[derive(Clone, Copy, Debug, PartialEq, Eq, Structural)]
pub struct VisualRetrievalCandidate {
    /// Memory index.
    pub index: usize,
    /// Base-level activation.
    pub base_level_milli: i64,
    /// Probe activation: cubed, emotionally modulated similarity.
    pub probe_activation_milli: i64,
    /// Spreading activation received.
    pub spreading_milli: i64,
    /// Emotional weight.
    pub emotional_weight_milli: i64,
    /// The combined significance and emotional-overhang boost.
    pub significance_boost_milli: i64,
    /// Combined total activation: the ranking key.
    pub total_activation_milli: i64,
}

/// An entry of a parallel milli array, or the default where it is short.
pub open spec fn spec_entry_or(v: Seq<i64>, i: int, default: i64) -> i64 {
    if 0 <= i < v.len() {
        v[i]
    } else {
        default
    }
}

/// The additive boosts of a visual memory: significance scaled by its
/// factor, plus the emotional overhang above `0.7` scaled by its factor.
pub open spec fn spec_visual_boosts(
    significance: int,
    emotional: int,
    config: VisualRetrievalConfig,
) -> int {
    (significance * config.significance_boost_milli) / 1000 + (if emotional > 700 {
        ((emotional - 700) * config.emotional_boost_milli) / 1000
    } else {
        0int
    })
}

/// A visual memory's total when nothing spreads: the emotionally modulated
/// cubed similarity, scaled by the recency boost, plus its additive boosts.
pub open spec fn spec_visual_total_without_spreading(
    similarities: Seq<i64>,
    base_levels: Seq<i64>,
    emotional: Seq<i64>,
    significance: Seq<i64>,
    config: VisualRetrievalConfig,
    i: int,
) -> int {
    spec_scale_milli(
        spec_scale_milli(
            spec_cube_milli(similarities[i] as int),
            spec_emotional_multiplier_milli(spec_entry_or(emotional, i, 500) as int),
        ),
        1000 + spec_recency_boost_milli(base_levels[i] as int),
    ) + spec_visual_boosts(
        spec_entry_or(significance, i, 500) as int,
        spec_entry_or(emotional, i, 500) as int,
        config,
    )
}

/// How many of the first `i` memories reach the activation floor when
/// nothing spreads.
pub open spec fn spec_count_visual_meeting(
    similarities: Seq<i64>,
    base_levels: Seq<i64>,
    emotional: Seq<i64>,
    significance: Seq<i64>,
    config: VisualRetrievalConfig,
    i: int,
) -> nat
    decreases i,
{
    if i <= 0 {
        0
    } else {
        spec_count_visual_meeting(similarities, base_levels, emotional, significance, config, i - 1)
            + (if spec_visual_total_without_spreading(
            similarities,
            base_levels,
            emotional,
            significance,
            config,
            i - 1,
        ) >= config.min_total_activation_milli {
            1nat
        } else {
            0nat
        })
    }
}

/// The first position of a visual candidate with the given index in a list.
pub open spec fn spec_visual_position_of(s: Seq<VisualRetrievalCandidate>, index: usize) -> int {
    choose|q: int| 0 <= q < s.len() && (#[trigger] s[q]).index == index
}

proof fn lemma_visual_position_of(s: Seq<VisualRetrievalCandidate>, index: usize, witness: int)
    requires
        0 <= witness < s.len(),
        s[witness].index == index,
    ensures
        0 <= spec_visual_position_of(s, index) < s.len(),
        s[spec_visual_position_of(s, index)].index == index,
{
    assert(0 <= witness < s.len() && (#[trigger] s[witness]).index == index);
}

/// Visual candidate ranking: higher total first, ties by lower index.
pub open spec fn visual_rank_le(a: VisualRetrievalCandidate, b: VisualRetrievalCandidate) -> bool {
    a.total_activation_milli > b.total_activation_milli || (a.total_activation_milli
        == b.total_activation_milli && a.index <= b.index)
}

/// Sort visual candidates by total descending, ties by index ascending.
fn sort_visual_candidates(v: &Vec<VisualRetrievalCandidate>) -> (r: Vec<VisualRetrievalCandidate>)
    ensures
        r@.len() == v@.len(),
        forall|i: int, j: int| 0 <= i < j < r@.len() ==> visual_rank_le(r@[i], r@[j]),
        r@.to_multiset() == v@.to_multiset(),
{
    let mut r: Vec<VisualRetrievalCandidate> = Vec::new();
    let n = v.len();
    let mut i: usize = 0;
    proof {
        broadcast use vstd::seq_lib::group_to_multiset_ensures;

        assert(v@.take(0int) =~= Seq::<VisualRetrievalCandidate>::empty());
        assert(r@ =~= Seq::<VisualRetrievalCandidate>::empty());
    }
    while i < n
        invariant
            i <= n,
            n == v@.len(),
            r@.len() == i,
            forall|a: int, b: int| 0 <= a < b < r@.len() ==> visual_rank_le(r@[a], r@[b]),
            r@.to_multiset() == v@.take(i as int).to_multiset(),
        decreases n - i,
    {
        let x = v[i];
        let mut pos: usize = 0;
        while pos < r.len()
            invariant
                pos <= r@.len(),
                forall|a: int, b: int| 0 <= a < b < r@.len() ==> visual_rank_le(r@[a], r@[b]),
                forall|k: int| 0 <= k < pos ==> visual_rank_le(#[trigger] r@[k], x),
            ensures
                pos <= r@.len(),
                forall|k: int| 0 <= k < pos ==> visual_rank_le(#[trigger] r@[k], x),
                pos < r@.len() ==> visual_rank_le(x, r@[pos as int]),
            decreases r@.len() - pos,
        {
            let y = r[pos];
            if y.total_activation_milli > x.total_activation_milli || (y.total_activation_milli
                == x.total_activation_milli && y.index <= x.index) {
                pos = pos + 1;
            } else {
                break ;
            }
        }
        proof {
            assert forall|k: int| pos <= k < r@.len() implies visual_rank_le(x, #[trigger] r@[k]) by {
                if k > pos {
                    assert(visual_rank_le(r@[pos as int], r@[k]));
                }
            }
        }
        let ghost old_r = r@;
        r.insert(pos, x);
        proof {
            broadcast use vstd::seq_lib::group_to_multiset_ensures;

            assert(r@ =~= old_r.take(pos as int) + seq![x] + old_r.skip(pos as int));
            assert(r@.to_multiset() =~= old_r.to_multiset().insert(x)) by {
                assert(old_r =~= old_r.take(pos as int) + old_r.skip(pos as int));
                vstd::seq_lib::lemma_multiset_commutative(
                    old_r.take(pos as int),
                    old_r.skip(pos as int),
                );
                vstd::seq_lib::lemma_multiset_commutative(
                    old_r.take(pos as int) + seq![x],
                    old_r.skip(pos as int),
                );
                vstd::seq_lib::lemma_multiset_commutative(old_r.take(pos as int), seq![x]);
            }
            assert(v@.take(i as int + 1) =~= v@.take(i as int).push(v@[i as int]));
            assert(v@.take(i as int + 1).to_multiset() =~= v@.take(
                i as int,
            ).to_multiset().insert(x));
        }
        i = i + 1;
    }
    proof {
        assert(v@.take(n as int) =~= v@);
    }
    r
}

/// Retrieve visual memories for a probe.
///
/// The standard pipeline — cube, emotional and recency modulation, spreading
/// — plus two additive boosts applied to the total before the probability
/// filter: significance, and emotional overhang above `0.7` arousal weight.
pub fn retrieve_visual(input: &VisualRetrievalInput, config: &VisualRetrievalConfig) -> (r: Vec<
    VisualRetrievalCandidate,
>)
    requires
        input.base_levels_milli@.len() == input.similarities_milli@.len(),
        forall|i: int|
            0 <= i < input.similarities_milli@.len() ==> -1000
                <= #[trigger] input.similarities_milli@[i] <= 1000,
        forall|i: int|
            0 <= i < input.base_levels_milli@.len() ==> -1_000_000_000_000
                <= #[trigger] input.base_levels_milli@[i] <= 1_000_000_000_000,
        forall|i: int|
            0 <= i < input.emotional_weights_milli@.len() ==> 0
                <= #[trigger] input.emotional_weights_milli@[i] <= 1000,
        forall|i: int|
            0 <= i < input.significance_scores_milli@.len() ==> 0
                <= #[trigger] input.significance_scores_milli@[i] <= 1000,
        forall|e: int|
            0 <= e < input.associations@.len() ==> (#[trigger] input.associations@[e]).forward_strength_milli
                <= 1000 && input.associations@[e].backward_strength_milli <= 1000,
        config.spreading_decay_milli <= 1000,
        config.emotional_boost_milli <= 1000,
        config.significance_boost_milli <= 1000,
    ensures
        r@.len() <= config.max_results,
        forall|j: int|
            0 <= j < r@.len() ==> (#[trigger] r@[j]).index < input.similarities_milli@.len(),
        forall|j: int|
            0 <= j < r@.len() ==> (#[trigger] r@[j]).base_level_milli
                == input.base_levels_milli@[r@[j].index as int],
        forall|j: int|
            0 <= j < r@.len() ==> (#[trigger] r@[j]).emotional_weight_milli == spec_entry_or(
                input.emotional_weights_milli@,
                r@[j].index as int,
                500,
            ),
        forall|j: int|
            0 <= j < r@.len() ==> (#[trigger] r@[j]).probe_activation_milli == spec_scale_milli(
                spec_cube_milli(input.similarities_milli@[r@[j].index as int] as int),
                spec_emotional_multiplier_milli(r@[j].emotional_weight_milli as int),
            ),
        forall|j: int|
            0 <= j < r@.len() ==> (#[trigger] r@[j]).significance_boost_milli == spec_visual_boosts(
                spec_entry_or(input.significance_scores_milli@, r@[j].index as int, 500) as int,
                r@[j].emotional_weight_milli as int,
                *config,
            ),
        forall|j: int|
            0 <= j < r@.len() ==> (#[trigger] r@[j]).total_activation_milli == spec_scale_milli(
                r@[j].probe_activation_milli as int,
                1000 + spec_recency_boost_milli(r@[j].base_level_milli as int),
            ) + r@[j].spreading_milli + r@[j].significance_boost_milli,
        forall|j: int|
            0 <= j < r@.len() ==> (#[trigger] r@[j]).total_activation_milli
                >= config.min_total_activation_milli,
        forall|i: int, j: int| 0 <= i < j < r@.len() ==> visual_rank_le(r@[i], r@[j]),
        input.similarities_milli@.len() == 0 ==> r@.len() == 0,
        config.spreading_depth == 0 ==> forall|j: int|
            0 <= j < r@.len() ==> (#[trigger] r@[j]).spreading_milli == 0
                && r@[j].total_activation_milli == spec_visual_total_without_spreading(
                input.similarities_milli@,
                input.base_levels_milli@,
                input.emotional_weights_milli@,
                input.significance_scores_milli@,
                *config,
                r@[j].index as int,
            ),
        config.spreading_depth == 0 ==> r@.len() == vstd::math::min(
            config.max_results as int,
            spec_count_visual_meeting(
                input.similarities_milli@,
                input.base_levels_milli@,
                input.emotional_weights_milli@,
                input.significance_scores_milli@,
                *config,
                input.similarities_milli@.len() as int,
            ) as int,
        ),
        forall|i: int, j: int|
            0 <= i < j < r@.len() ==> (#[trigger] r@[i]).index != (#[trigger] r@[j]).index,
        forall|j: int| 0 <= j < r@.len() ==> (#[trigger] r@[j]).spreading_milli >= 0,
        forall|j: int|
            0 <= j < r@.len() ==> (#[trigger] r@[j]).total_activation_milli
                >= spec_visual_total_without_spreading(
                input.similarities_milli@,
                input.base_levels_milli@,
                input.emotional_weights_milli@,
                input.significance_scores_milli@,
                *config,
                r@[j].index as int,
            ),
        r@.len() >= vstd::math::min(
            config.max_results as int,
            spec_count_visual_meeting(
                input.similarities_milli@,
                input.base_levels_milli@,
                input.emotional_weights_milli@,
                input.significance_scores_milli@,
                *config,
                input.similarities_milli@.len() as int,
            ) as int,
        ),
        config.min_total_activation_milli == i64::MIN ==> r@.len() == vstd::math::min(
            config.max_results as int,
            input.similarities_milli@.len() as int,
        ),
        forall|i: int|
            #![trigger spec_visual_total_without_spreading(
                input.similarities_milli@,
                input.base_levels_milli@,
                input.emotional_weights_milli@,
                input.significance_scores_milli@,
                *config,
                i,
            )]
            0 <= i < input.similarities_milli@.len() && spec_visual_total_without_spreading(
                input.similarities_milli@,
                input.base_levels_milli@,
                input.emotional_weights_milli@,
                input.significance_scores_milli@,
                *config,
                i,
            ) >= config.min_total_activation_milli && (forall|j: int|
                0 <= j < r@.len() ==> (#[trigger] r@[j]).index != i as usize) ==> forall|j: int|
                0 <= j < r@.len() ==> (#[trigger] r@[j]).total_activation_milli
                    >= spec_visual_total_without_spreading(
                    input.similarities_milli@,
                    input.base_levels_milli@,
                    input.emotional_weights_milli@,
                    input.significance_scores_milli@,
                    *config,
                    i,
                ),
{
    let n = input.similarities_milli.len();

    // Cube the similarities.
    let mut probe_raw: Vec<i64> = Vec::new();
    let mut i: usize = 0;
    while i < n
        invariant
            i <= n,
            n == input.similarities_milli@.len(),
            forall|k: int|
                0 <= k < n ==> -1000 <= #[trigger] input.similarities_milli@[k] <= 1000,
            probe_raw@.len() == i,
            forall|k: int|
                0 <= k < i ==> #[trigger] probe_raw@[k] == spec_cube_milli(
                    input.similarities_milli@[k] as int,
                ),
            forall|k: int| 0 <= k < i ==> -1000 <= #[trigger] probe_raw@[k] <= 1000,
        decreases n - i,
    {
        let cubed = nonlinear_activation(input.similarities_milli[i]);
        probe_raw.push(cubed);
        i = i + 1;
    }

    // Seed activations: (base + probe) scaled by the emotional multiplier.
    let mut seed_pairs: Vec<(usize, i64)> = Vec::new();
    let mut i2: usize = 0;
    while i2 < n
        invariant
            i2 <= n,
            n == input.similarities_milli@.len(),
            n == input.base_levels_milli@.len(),
            n == probe_raw@.len(),
            forall|k: int|
                0 <= k < input.emotional_weights_milli@.len() ==> 0
                    <= #[trigger] input.emotional_weights_milli@[k] <= 1000,
            forall|k: int|
                0 <= k < input.base_levels_milli@.len() ==> -1_000_000_000_000
                    <= #[trigger] input.base_levels_milli@[k] <= 1_000_000_000_000,
            forall|k: int| 0 <= k < n ==> -1000 <= #[trigger] probe_raw@[k] <= 1000,
            forall|j: int| 0 <= j < seed_pairs@.len() ==> (#[trigger] seed_pairs@[j]).0 < n,
            forall|j: int|
                0 <= j < seed_pairs@.len() ==> 0 < (#[trigger] seed_pairs@[j]).1
                    <= 4_000_000_000_000,
        decreases n - i2,
    {
        let emotional: i64 = if i2 < input.emotional_weights_milli.len() {
            input.emotional_weights_milli[i2]
        } else {
            500
        };
        let base: i64 = input.base_levels_milli[i2];
        let sum: i64 = base + probe_raw[i2];
        let initial = crate::activation::scale_milli(sum, (500 + emotional) as u64);
        if initial > 0 {
            seed_pairs.push((i2, initial));
        }
        i2 = i2 + 1;
    }
    let ranked_seeds = sort_pairs_desc(seed_pairs);
    proof {
        broadcast use vstd::seq_lib::group_to_multiset_ensures;

        assert forall|j: int|
            0 <= j < ranked_seeds@.len() implies 0 < (#[trigger] ranked_seeds@[j]).1
            <= 4_000_000_000_000 by {
            assert(ranked_seeds@.to_multiset().contains(ranked_seeds@[j]));
            assert(seed_pairs@.to_multiset().contains(ranked_seeds@[j]));
            assert(seed_pairs@.contains(ranked_seeds@[j]));
        }
    }
    let mut seed_indices: Vec<usize> = Vec::new();
    let mut seed_acts: Vec<i64> = Vec::new();
    let seed_limit: usize = if ranked_seeds.len() < 5 {
        ranked_seeds.len()
    } else {
        5
    };
    let mut sd: usize = 0;
    while sd < seed_limit
        invariant
            sd <= seed_limit,
            seed_limit <= ranked_seeds@.len(),
            seed_indices@.len() == sd,
            seed_acts@.len() == sd,
            forall|j: int|
                0 <= j < ranked_seeds@.len() ==> 0 < (#[trigger] ranked_seeds@[j]).1
                    <= 4_000_000_000_000,
            forall|k: int| 0 <= k < sd ==> 0 < #[trigger] seed_acts@[k] <= 4_000_000_000_000,
        decreases seed_limit - sd,
    {
        seed_indices.push(ranked_seeds[sd].0);
        seed_acts.push(ranked_seeds[sd].1);
        sd = sd + 1;
    }

    // Spreading.
    let spreading: Vec<i64> = if seed_indices.len() > 0 && config.spreading_depth > 0 {
        let spreading_config = SpreadingConfig {
            decay_per_hop_milli: config.spreading_decay_milli,
            minimum_activation_milli: 10,
            max_nodes: 1000,
            bidirectional: config.bidirectional,
        };
        let result = spread_activation(
            n,
            &input.associations,
            &seed_indices,
            &seed_acts,
            &spreading_config,
            config.spreading_depth,
        );
        proof {
            crate::spreading::lemma_seeded_nonneg(n as nat, seed_indices@, seed_acts@);
            assert(forall|k: int|
                0 <= k < n ==> #[trigger] result.activations_milli@[k] >= 0);
        }
        result.activations_milli
    } else {
        let mut zeros: Vec<i64> = Vec::new();
        let mut z: usize = 0;
        while z < n
            invariant
                z <= n,
                zeros@.len() == z,
                forall|k: int| 0 <= k < z ==> #[trigger] zeros@[k] == 0i64,
            decreases n - z,
        {
            zeros.push(0i64);
            z = z + 1;
        }
        zeros
    };

    // Combine, add boosts, filter by the activation floor.
    let mut kept: Vec<VisualRetrievalCandidate> = Vec::new();
    let ghost floor = config.min_total_activation_milli as int;
    let mut i4: usize = 0;
    while i4 < n
        invariant
            i4 <= n,
            n == input.similarities_milli@.len(),
            n == input.base_levels_milli@.len(),
            n == probe_raw@.len(),
            n == spreading@.len(),
            forall|k: int|
                0 <= k < input.emotional_weights_milli@.len() ==> 0
                    <= #[trigger] input.emotional_weights_milli@[k] <= 1000,
            forall|k: int|
                0 <= k < input.significance_scores_milli@.len() ==> 0
                    <= #[trigger] input.significance_scores_milli@[k] <= 1000,
            forall|k: int|
                0 <= k < input.base_levels_milli@.len() ==> -1_000_000_000_000
                    <= #[trigger] input.base_levels_milli@[k] <= 1_000_000_000_000,
            forall|k: int|
                0 <= k < n ==> #[trigger] probe_raw@[k] == spec_cube_milli(
                    input.similarities_milli@[k] as int,
                ),
            forall|k: int| 0 <= k < n ==> -1000 <= #[trigger] probe_raw@[k] <= 1000,
            forall|k: int|
                0 <= k < n ==> -ACTIVATION_LIMIT <= #[trigger] spreading@[k] <= ACTIVATION_LIMIT,
            forall|k: int| 0 <= k < n ==> #[trigger] spreading@[k] >= 0,
            (seed_indices@.len() > 0 && config.spreading_depth > 0) || (forall|k: int|
                0 <= k < n ==> #[trigger] spreading@[k] == 0),
            config.emotional_boost_milli <= 1000,
            config.significance_boost_milli <= 1000,
            kept@.len() <= i4,
            forall|j: int| 0 <= j < kept@.len() ==> (#[trigger] kept@[j]).index < i4,
            forall|a: int, b: int|
                0 <= a < b < kept@.len() ==> kept@[a].index < kept@[b].index,
            forall|j: int| 0 <= j < kept@.len() ==> (#[trigger] kept@[j]).spreading_milli >= 0,
            forall|j: int|
                0 <= j < kept@.len() ==> (#[trigger] kept@[j]).total_activation_milli
                    >= spec_visual_total_without_spreading(
                    input.similarities_milli@,
                    input.base_levels_milli@,
                    input.emotional_weights_milli@,
                    input.significance_scores_milli@,
                    *config,
                    kept@[j].index as int,
                ),
            kept@.len() >= spec_count_visual_meeting(
                input.similarities_milli@,
                input.base_levels_milli@,
                input.emotional_weights_milli@,
                input.significance_scores_milli@,
                *config,
                i4 as int,
            ),
            floor == i64::MIN ==> kept@.len() == i4,
            forall|i: int|
                #![trigger spec_visual_total_without_spreading(
                    input.similarities_milli@,
                    input.base_levels_milli@,
                    input.emotional_weights_milli@,
                    input.significance_scores_milli@,
                    *config,
                    i,
                )]
                0 <= i < i4 && spec_visual_total_without_spreading(
                    input.similarities_milli@,
                    input.base_levels_milli@,
                    input.emotional_weights_milli@,
                    input.significance_scores_milli@,
                    *config,
                    i,
                ) >= floor ==> exists|j: int|
                    0 <= j < kept@.len() && (#[trigger] kept@[j]).index == i,
            forall|j: int|
                0 <= j < kept@.len() ==> (#[trigger] kept@[j]).base_level_milli
                    == input.base_levels_milli@[kept@[j].index as int],
            forall|j: int|
                0 <= j < kept@.len() ==> (#[trigger] kept@[j]).emotional_weight_milli
                    == spec_entry_or(input.emotional_weights_milli@, kept@[j].index as int, 500),
            forall|j: int|
                0 <= j < kept@.len() ==> (#[trigger] kept@[j]).probe_activation_milli
                    == spec_scale_milli(
                    spec_cube_milli(input.similarities_milli@[kept@[j].index as int] as int),
                    spec_emotional_multiplier_milli(kept@[j].emotional_weight_milli as int),
                ),
            forall|j: int|
                0 <= j < kept@.len() ==> (#[trigger] kept@[j]).significance_boost_milli
                    == spec_visual_boosts(
                    spec_entry_or(
                        input.significance_scores_milli@,
                        kept@[j].index as int,
                        500,
                    ) as int,
                    kept@[j].emotional_weight_milli as int,
                    *config,
                ),
            forall|j: int|
                0 <= j < kept@.len() ==> (#[trigger] kept@[j]).total_activation_milli
                    == spec_scale_milli(
                    kept@[j].probe_activation_milli as int,
                    1000 + spec_recency_boost_milli(kept@[j].base_level_milli as int),
                ) + kept@[j].spreading_milli + kept@[j].significance_boost_milli,
            forall|j: int|
                0 <= j < kept@.len() ==> (#[trigger] kept@[j]).total_activation_milli >= floor,
            forall|j: int|
                0 <= j < kept@.len() ==> (#[trigger] kept@[j]).spreading_milli
                    == spreading@[kept@[j].index as int],
            config.spreading_depth == 0 ==> forall|j: int|
                0 <= j < kept@.len() ==> (#[trigger] kept@[j]).spreading_milli == 0
                    && kept@[j].total_activation_milli == spec_visual_total_without_spreading(
                    input.similarities_milli@,
                    input.base_levels_milli@,
                    input.emotional_weights_milli@,
                    input.significance_scores_milli@,
                    *config,
                    kept@[j].index as int,
                ),
            config.spreading_depth == 0 ==> kept@.len() == spec_count_visual_meeting(
                input.similarities_milli@,
                input.base_levels_milli@,
                input.emotional_weights_milli@,
                input.significance_scores_milli@,
                *config,
                i4 as int,
            ),
            floor == config.min_total_activation_milli as int,
        decreases n - i4,
    {
        let emotional: i64 = if i4 < input.emotional_weights_milli.len() {
            input.emotional_weights_milli[i4]
        } else {
            500
        };
        let significance: i64 = if i4 < input.significance_scores_milli.len() {
            input.significance_scores_milli[i4]
        } else {
            500
        };
        let breakdown = combine_activations(
            input.base_levels_milli[i4],
            probe_raw[i4],
            spreading[i4],
            emotional,
        );
        proof {
            assert(significance * config.significance_boost_milli <= 1000 * 1000) by (
            nonlinear_arith)
                requires
                    0 <= significance <= 1000,
                    config.significance_boost_milli <= 1000,
            ;
            assert(emotional > 700 ==> (emotional - 700) * (config.emotional_boost_milli as i64)
                <= 300 * 1000) by (nonlinear_arith)
                requires
                    emotional <= 1000,
                    config.emotional_boost_milli <= 1000,
            ;
        }
        let sig_boost: i64 = significance * (config.significance_boost_milli as i64) / 1000;
        let emo_boost: i64 = if emotional > 700 {
            (emotional - 700) * (config.emotional_boost_milli as i64) / 1000
        } else {
            0
        };
        let boosted_total: i64 = breakdown.total_milli + sig_boost + emo_boost;
        proof {
            assert(boosted_total == spec_visual_total_without_spreading(
                input.similarities_milli@,
                input.base_levels_milli@,
                input.emotional_weights_milli@,
                input.significance_scores_milli@,
                *config,
                i4 as int,
            ) + spreading@[i4 as int]);
        }
        let ghost kept_before = kept@;
        if boosted_total >= config.min_total_activation_milli {
            kept.push(
                VisualRetrievalCandidate {
                    index: i4,
                    base_level_milli: breakdown.base_level_milli,
                    probe_activation_milli: breakdown.probe_activation_milli,
                    spreading_milli: breakdown.spreading_milli,
                    emotional_weight_milli: breakdown.emotional_weight_milli,
                    significance_boost_milli: sig_boost + emo_boost,
                    total_activation_milli: boosted_total,
                },
            );
        }
        proof {
            assert forall|i: int|
                #![trigger spec_visual_total_without_spreading(
                    input.similarities_milli@,
                    input.base_levels_milli@,
                    input.emotional_weights_milli@,
                    input.significance_scores_milli@,
                    *config,
                    i,
                )]
                0 <= i < i4 + 1 && spec_visual_total_without_spreading(
                    input.similarities_milli@,
                    input.base_levels_milli@,
                    input.emotional_weights_milli@,
                    input.significance_scores_milli@,
                    *config,
                    i,
                ) >= floor implies exists|j: int|
                    0 <= j < kept@.len() && (#[trigger] kept@[j]).index == i by {
                if i < i4 as int {
                    let j = choose|j: int|
                        0 <= j < kept_before.len() && (#[trigger] kept_before[j]).index == i;
                    assert(kept@[j].index == i);
                } else {
                    assert(kept@[kept@.len() - 1].index == i4);
                }
            }
        }
        i4 = i4 + 1;
    }

    // Rank and truncate.
    let sorted = sort_visual_candidates(&kept);
    proof {
        broadcast use vstd::seq_lib::group_to_multiset_ensures;

        assert(forall|j: int|
            0 <= j < sorted@.len() ==> sorted@.to_multiset().contains(#[trigger] sorted@[j]));
    }
    let mut out: Vec<VisualRetrievalCandidate> = Vec::new();
    let limit: usize = if sorted.len() < config.max_results {
        sorted.len()
    } else {
        config.max_results
    };
    let mut t: usize = 0;
    while t < limit
        invariant
            t <= limit,
            limit <= sorted@.len(),
            out@.len() == t,
            forall|j: int| 0 <= j < t ==> #[trigger] out@[j] == sorted@[j],
        decreases limit - t,
    {
        out.push(sorted[t]);
        t = t + 1;
    }
    proof {
        broadcast use vstd::seq_lib::group_to_multiset_ensures;

        assert forall|j: int| 0 <= j < out@.len() implies kept@.contains(#[trigger] out@[j]) by {
            assert(out@[j] == sorted@[j]);
            assert(sorted@.to_multiset().contains(sorted@[j]));
            assert(kept@.to_multiset().contains(sorted@[j]));
        }
        assert forall|j: int|
            0 <= j < out@.len() implies exists|p: int|
                0 <= p < kept@.len() && kept@[p] == #[trigger] out@[j] by {
            assert(kept@.contains(out@[j]));
        }
        // candidate indices stay pairwise distinct through the sort
        crate::ranking::lemma_permutation_distinct_keys(
            kept@,
            sorted@,
            |c: VisualRetrievalCandidate| c.index as int,
        );
        assert forall|a: int, b: int|
            0 <= a < b < out@.len() implies (#[trigger] out@[a]).index != (
        #[trigger] out@[b]).index by {
            assert(out@[a] == sorted@[a] && out@[b] == sorted@[b]);
        }
        // an eligible memory absent from the results is outranked by all of
        // them: it sits in the sorted list beyond the truncation point
        let ghost sims = input.similarities_milli@;
        let ghost bases = input.base_levels_milli@;
        let ghost emos = input.emotional_weights_milli@;
        let ghost sigs = input.significance_scores_milli@;
        assert forall|i: int|
            #![trigger spec_visual_total_without_spreading(sims, bases, emos, sigs, *config, i)]
            0 <= i < n && spec_visual_total_without_spreading(sims, bases, emos, sigs, *config, i)
                >= config.min_total_activation_milli && (forall|j: int|
                0 <= j < out@.len() ==> (#[trigger] out@[j]).index != i as usize) implies (forall|
            j: int,
        |
            0 <= j < out@.len() ==> (#[trigger] out@[j]).total_activation_milli
                >= spec_visual_total_without_spreading(sims, bases, emos, sigs, *config, i)) by {
            let jk = choose|jk: int|
                0 <= jk < kept@.len() && (#[trigger] kept@[jk]).index == i as usize;
            assert(kept@.contains(kept@[jk]));
            assert(sorted@.to_multiset().contains(kept@[jk]));
            assert(sorted@.contains(kept@[jk]));
            let q0 = choose|q0: int| 0 <= q0 < sorted@.len() && sorted@[q0] == kept@[jk];
            lemma_visual_position_of(sorted@, i as usize, q0);
            let q = spec_visual_position_of(sorted@, i as usize);
            assert(sorted@[q].total_activation_milli >= spec_visual_total_without_spreading(
                sims,
                bases,
                emos,
                sigs,
                *config,
                i,
            )) by {
                assert(sorted@.contains(sorted@[q]));
                assert(kept@.to_multiset().contains(sorted@[q]));
                assert(kept@.contains(sorted@[q]));
            }
            assert(q >= limit) by {
                if q < limit {
                    assert(out@[q] == sorted@[q]);
                }
            }
            assert forall|j: int|
                0 <= j < out@.len() implies (#[trigger] out@[j]).total_activation_milli
                >= spec_visual_total_without_spreading(sims, bases, emos, sigs, *config, i) by {
                assert(out@[j] == sorted@[j]);
                assert(visual_rank_le(sorted@[j], sorted@[q]));
            }
        }
    }
    out
}


/// Configuration for frame description prompts.
#[derive(Clone, Copy, Debug, PartialEq, Eq, Structural)]
pub struct FrameDescriptionConfig {
    /// Whether the description should assess emotion.
    pub include_emotion: bool,
    /// Whether to detect and list objects.
    pub detect_objects: bool,
    /// Guidance for the maximum description length, in characters.
    pub max_description_length: usize,
}

impl Default for FrameDescriptionConfig {
    fn default() -> (r: Self)
        ensures
            r.include_emotion == true,
            r.detect_objects == true,
            r.max_description_length == 200,
    {
        FrameDescriptionConfig {
            include_emotion: true,
            detect_objects: true,
            max_description_length: 200,
        }
    }
}

} // verus!
