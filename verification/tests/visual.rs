use lucid::visual::compute_pruning_candidates;
use lucid::visual::compute_tag_strength;
use lucid::visual::retrieve_visual;
use lucid::visual::select_frames_for_description;
use lucid::visual::should_prune;
use lucid::visual::should_tag;
use lucid::visual::ConsolidationState;
use lucid::visual::ConsolidationWindow;
use lucid::visual::EmotionalContext;
use lucid::visual::FrameCandidate;
use lucid::visual::PruningReason;
use lucid::visual::TranscriptSegment;
use lucid::visual::VisualConfig;
use lucid::visual::VisualConsolidationState;
use lucid::visual::VisualMemory;
use lucid::visual::VisualRetrievalConfig;
use lucid::visual::VisualRetrievalInput;
use lucid::visual::VisualSource;

const MS_PER_DAY: i64 = 24 * 60 * 60 * 1000;

fn make_memory(id: u32, last_accessed_ms: i64, significance_milli: u32, pinned: bool) -> VisualMemory {
    VisualMemory {
        id,
        description: format!("Test {id}"),
        detailed_description: None,
        captured_at_ms: last_accessed_ms,
        last_accessed_ms,
        access_count: 1,
        emotional_context: EmotionalContext::default(),
        significance_milli,
        source: VisualSource::Direct,
        shared_by: None,
        video_id: None,
        frame_number: None,
        objects: vec![],
        tags: vec![],
        is_pinned: pinned,
    }
}

#[test]
fn test_emotional_context_weight() {
    let low = EmotionalContext::new(0, 0);
    let high = EmotionalContext::new(0, 1000);

    assert_eq!(low.emotional_weight(), 500);
    assert_eq!(high.emotional_weight(), 1500);
}

#[test]
fn test_emotional_context_significance() {
    let neutral = EmotionalContext::new(0, 500);
    let high_arousal = EmotionalContext::new(0, 800);
    let negative = EmotionalContext::new(-900, 500);

    assert!(!neutral.is_significant());
    assert!(high_arousal.is_significant());
    assert!(negative.is_significant());
}

#[test]
fn test_consolidation_window() {
    let start: i64 = 1000;
    let duration: i64 = 1000;
    let window = ConsolidationWindow::new(start, duration);

    assert!(window.is_open(start + 500));
    assert!(!window.is_open(start + 1500));
    assert_eq!(window.progress(start + 500), 500);
}

#[test]
fn test_consolidation_state_machine() {
    let mut state = VisualConsolidationState::default();
    assert_eq!(state.state, ConsolidationState::Fresh);
    assert!(!state.is_labile());

    state.start_consolidation(1000, 1000);
    assert!(state.is_labile());

    state.update(1500);
    assert_eq!(state.state, ConsolidationState::Consolidating);
    assert_eq!(state.strength_milli, 500);

    state.update(2500);
    assert_eq!(state.state, ConsolidationState::Consolidated);
    assert_eq!(state.strength_milli, 1000);
    assert!(state.window.is_none());
}

#[test]
fn test_tag_strength() {
    let config = VisualConfig::default();

    // Low access, low significance
    let weak = compute_tag_strength(500, 1, 300, &config);

    // High access, high significance
    let strong = compute_tag_strength(800, 20, 900, &config);

    assert!(strong > weak);
    assert!(strong <= 1000);
    assert!(should_tag(strong, 600));
}

#[test]
fn visual_test_should_prune() {
    let config = VisualConfig::default();

    // Pinned memory should never be pruned
    assert!(!should_prune(100, 100_000, true, false, &config));

    // Keyframe should not be pruned by default
    assert!(!should_prune(100, 100_000, false, true, &config));

    // Low significance, very stale should be pruned
    assert!(should_prune(100, 100_000, false, false, &config));

    // High significance should not be pruned
    assert!(!should_prune(800, 100_000, false, false, &config));
}

#[test]
fn test_pruning_candidates() {
    let config = VisualConfig::default();
    let current_time = MS_PER_DAY * 100;
    let old_time: i64 = 0;

    let memories = vec![
        make_memory(0, old_time, 100, false),
        make_memory(1, current_time, 900, false),
    ];

    let candidates = compute_pruning_candidates(&memories, current_time, &config);

    // Only the stale, low-significance memory is a candidate
    assert_eq!(candidates.len(), 1);
    assert_eq!(candidates[0].index, 0);
    assert_eq!(candidates[0].reason, PruningReason::Stale);
}

#[test]
fn test_pruning_never_selects_pinned() {
    let config = VisualConfig::default();
    let current_time = MS_PER_DAY * 200;
    let memories = vec![
        make_memory(0, 0, 50, true),
        make_memory(1, 0, 50, false),
    ];
    let candidates = compute_pruning_candidates(&memories, current_time, &config);
    assert_eq!(candidates.len(), 1);
    assert_eq!(candidates[0].index, 1);
}

#[test]
fn test_retrieve_visual_empty() {
    let input = VisualRetrievalInput {
        similarities_milli: vec![],
        base_levels_milli: vec![],
        emotional_weights_milli: vec![],
        significance_scores_milli: vec![],
        associations: vec![],
    };
    let config = VisualRetrievalConfig::default();
    let result = retrieve_visual(&input, &config);
    assert!(result.is_empty());
}

#[test]
fn test_retrieve_visual_similarity_ordering() {
    // An identical, a partially similar, and an orthogonal memory, all
    // accessed just now with equal emotion and significance.
    let input = VisualRetrievalInput {
        similarities_milli: vec![1000, 707, 0],
        base_levels_milli: vec![0, 0, 0],
        emotional_weights_milli: vec![500, 500, 500],
        significance_scores_milli: vec![500, 500, 500],
        associations: vec![],
    };
    let mut config = VisualRetrievalConfig::default();
    config.spreading_depth = 0;
    let result = retrieve_visual(&input, &config);
    assert!(!result.is_empty());
    assert_eq!(result[0].index, 0);
}

#[test]
fn test_retrieve_visual_significance_boost() {
    // Equal similarity; the significant, emotionally charged memory wins.
    let input = VisualRetrievalInput {
        similarities_milli: vec![700, 700],
        base_levels_milli: vec![0, 0],
        emotional_weights_milli: vec![500, 900],
        significance_scores_milli: vec![100, 900],
        associations: vec![],
    };
    let mut config = VisualRetrievalConfig::default();
    config.spreading_depth = 0;
    let result = retrieve_visual(&input, &config);
    assert_eq!(result[0].index, 1);
    assert!(result[0].significance_boost_milli > result[1].significance_boost_milli);
}

fn frame(index: usize, timestamp_ms: i64, keyframe: bool, scene_change: bool, quality: u32) -> FrameCandidate {
    FrameCandidate {
        index,
        timestamp_ms,
        is_keyframe: keyframe,
        is_scene_change: scene_change,
        quality_milli: quality,
    }
}

#[test]
fn test_select_frames_includes_first_and_last() {
    let frames: Vec<FrameCandidate> =
        (0..10).map(|i| frame(i, (i as i64) * 1000, false, false, 500)).collect();
    let selected = select_frames_for_description(&frames, 4, None);
    assert!(selected.len() <= 4);
    assert_eq!(selected[0], 0);
    assert_eq!(*selected.last().unwrap(), 9);
    // Chronological and distinct
    for w in selected.windows(2) {
        assert!(w[0] < w[1]);
    }
}

#[test]
fn test_select_frames_prefers_scene_changes() {
    let mut frames: Vec<FrameCandidate> =
        (0..12).map(|i| frame(i, (i as i64) * 1000, false, false, 100)).collect();
    frames[5].is_scene_change = true;
    frames[5].quality_milli = 900;
    let selected = select_frames_for_description(&frames, 3, None);
    assert!(selected.contains(&5));
}

#[test]
fn test_select_frames_transcript_alignment() {
    let frames: Vec<FrameCandidate> =
        (0..8).map(|i| frame(i, (i as i64) * 1000, false, false, 100)).collect();
    let segments = vec![TranscriptSegment {
        start_ms: 2500,
        end_ms: 3500,
        text: "speech".to_string(),
    }];
    let selected = select_frames_for_description(&frames, 3, Some(&segments));
    // Frame 3 (at 3000 ms) overlaps the speech and outranks its silent peers.
    assert!(selected.contains(&3));
}

#[test]
fn test_select_frames_empty_or_zero_quota() {
    let frames: Vec<FrameCandidate> = vec![];
    assert!(select_frames_for_description(&frames, 4, None).is_empty());
    let frames: Vec<FrameCandidate> = (0..4).map(|i| frame(i, 0, false, false, 100)).collect();
    assert!(select_frames_for_description(&frames, 0, None).is_empty());
}

use lucid::visual::FrameDescriptionConfig;

#[test]
fn test_frame_description_config_default() {
    let config = FrameDescriptionConfig::default();
    assert!(config.include_emotion);
    assert!(config.detect_objects);
    assert_eq!(config.max_description_length, 200);
}
