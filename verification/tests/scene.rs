use lucid::scene::detect_scene_changes;
use lucid::scene::hamming_distance;
use lucid::scene::PerceptualHash;
use lucid::scene::SceneConfig;

#[test]
fn test_hamming_distance_identical() {
    let a = vec![0xFF, 0x00, 0xAA];
    let b = vec![0xFF, 0x00, 0xAA];
    assert_eq!(hamming_distance(&a, &b), 0);
}

#[test]
fn test_hamming_distance_all_different() {
    let a = vec![0xFF]; // 11111111
    let b = vec![0x00]; // 00000000
    assert_eq!(hamming_distance(&a, &b), 8);
}

#[test]
fn test_hamming_distance_partial() {
    let a = vec![0xFF]; // 11111111
    let b = vec![0xF0]; // 11110000
    assert_eq!(hamming_distance(&a, &b), 4);
}

#[test]
fn test_scene_config_default() {
    let config = SceneConfig::default();
    assert_eq!(config.hash_size, 8);
    assert_eq!(config.scene_threshold, 12);
    assert_eq!(config.duplicate_threshold, 3);
}

#[test]
fn test_perceptual_hash_distance() {
    let hash1 = PerceptualHash { bytes: vec![0xFF, 0x00], hex: "ff00".to_string() };
    let hash2 = PerceptualHash { bytes: vec![0xF0, 0x0F], hex: "f00f".to_string() };

    // 0xFF ^ 0xF0 = 0x0F (4 bits) + 0x00 ^ 0x0F = 0x0F (4 bits) = 8 bits
    assert_eq!(hash1.distance(&hash2), 8);
}

#[test]
fn test_detect_scene_changes_thresholds() {
    let config = SceneConfig::default();
    let hashes = vec![
        PerceptualHash { bytes: vec![0x00, 0x00], hex: String::new() },
        // 2 bits from the previous frame: a duplicate
        PerceptualHash { bytes: vec![0x03, 0x00], hex: String::new() },
        // 14 bits from the previous frame: a scene change
        PerceptualHash { bytes: vec![0xFC, 0x3F], hex: String::new() },
    ];
    let frame_numbers = vec![0, 1, 2];
    let candidates = detect_scene_changes(&frame_numbers, hashes, &config);

    assert_eq!(candidates.len(), 3);
    assert!(candidates[0].is_scene_change);
    assert!(!candidates[0].is_duplicate);
    assert_eq!(candidates[0].distance_from_previous, 0);

    assert!(!candidates[1].is_scene_change);
    assert!(candidates[1].is_duplicate);
    assert_eq!(candidates[1].distance_from_previous, 2);

    assert!(candidates[2].is_scene_change);
    assert!(!candidates[2].is_duplicate);
    assert_eq!(candidates[2].distance_from_previous, 14);
}

use lucid::scene::find_scene_representative;
use lucid::scene::get_representative_frames;
use lucid::scene::get_scene_frames;
use lucid::scene::get_unique_frames;
use lucid::scene::FrameCandidate;

fn candidate(frame_number: u32, bytes: Vec<u8>, scene_change: bool, duplicate: bool) -> FrameCandidate {
    FrameCandidate {
        frame_number,
        hash: PerceptualHash { bytes, hex: String::new() },
        is_scene_change: scene_change,
        is_duplicate: duplicate,
        distance_from_previous: 0,
    }
}

#[test]
fn test_scene_and_unique_filters() {
    let candidates = vec![
        candidate(0, vec![0x00], true, false),
        candidate(1, vec![0x01], false, true),
        candidate(2, vec![0xF0], true, false),
    ];
    assert_eq!(get_scene_frames(&candidates), vec![0, 2]);
    assert_eq!(get_unique_frames(&candidates), vec![0, 2]);
}

#[test]
fn test_scene_representative_is_central() {
    // 0x00 and 0x03 sit close together; 0xFF is the outlier, so the frame
    // closest to both others wins.
    let frames = vec![
        candidate(0, vec![0x00], true, false),
        candidate(1, vec![0x03], false, false),
        candidate(2, vec![0xFF], false, false),
    ];
    // totals: frame0 = 2+8 = 10, frame1 = 2+6 = 8, frame2 = 8+6 = 14
    assert_eq!(find_scene_representative(&frames), Some(1));
    assert_eq!(find_scene_representative(&Vec::new()), None);
}

#[test]
fn test_representative_frames_per_scene() {
    let candidates = vec![
        candidate(0, vec![0x00], true, false),
        candidate(1, vec![0x01], false, false),
        candidate(2, vec![0xFF], true, false),
        candidate(3, vec![0xFE], false, false),
    ];
    let reps = get_representative_frames(&candidates);
    assert_eq!(reps.len(), 2);
    assert!(reps[0] < 2);
    assert!(reps[1] >= 2);
}
