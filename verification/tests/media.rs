use lucid::init;
use lucid::transcribe::get_model_download_url;
use lucid::transcribe::TranscriptSegment;
use lucid::transcribe::TranscriptionConfig;
use lucid::transcribe::TranscriptionResult;
use lucid::video::ImageFormat;
use lucid::video::ProcessingStats;

#[test]
fn test_init() {
    assert_eq!(init(), "lucid-core initialized");
}

#[test]
fn test_config_default() {
    let config = TranscriptionConfig::default();
    assert_eq!(config.language, "en");
    assert_eq!(config.threads, 0);
    assert!(!config.translate);
}

#[test]
fn test_model_download_url() {
    let url = get_model_download_url();
    assert!(url.contains("huggingface.co"));
    assert!(url.contains("ggml-base.en.bin"));
}

#[test]
fn test_transcript_segment_times() {
    let segment = TranscriptSegment {
        start_ms: 1500,
        end_ms: 3000,
        text: "Hello".to_string(),
        confidence_milli: Some(950),
    };

    assert_eq!(segment.start_ms, 1500);
    assert_eq!(segment.end_ms, 3000);
    assert_eq!(segment.duration_ms(), 1500);
}

#[test]
fn test_transcription_result_text_in_range() {
    let result = TranscriptionResult {
        text: "Hello world".to_string(),
        segments: vec![
            TranscriptSegment {
                start_ms: 0,
                end_ms: 1000,
                text: "Hello".to_string(),
                confidence_milli: None,
            },
            TranscriptSegment {
                start_ms: 1000,
                end_ms: 2000,
                text: "world".to_string(),
                confidence_milli: None,
            },
        ],
        detected_language: None,
        duration_ms: 2000,
    };

    assert_eq!(result.text_in_range(0, 1000), "Hello");
    assert_eq!(result.text_in_range(0, 2000), "Hello world");
    assert!(!result.is_empty());
}

#[test]
fn test_transcription_result_is_empty() {
    let result = TranscriptionResult {
        text: "  \t\n".to_string(),
        segments: vec![],
        detected_language: None,
        duration_ms: 0,
    };
    assert!(result.is_empty());
}

#[test]
fn test_image_format() {
    assert_eq!(ImageFormat::Jpeg.extension(), "jpg");
    assert_eq!(ImageFormat::Png.extension(), "png");
    assert_eq!(ImageFormat::Jpeg.codec(), "mjpeg");
    assert_eq!(ImageFormat::Png.codec(), "png");
}

#[test]
fn test_processing_stats_default() {
    let stats = ProcessingStats {
        frames_extracted: 0,
        scene_changes: 0,
        duplicates: 0,
        extraction_time_ms: 0,
        scene_detection_time_ms: 0,
        transcription_time_ms: 0,
    };

    assert_eq!(stats.frames_extracted, 0);
}

use lucid::transcribe::parse_wav_samples;
use lucid::transcribe::WavError;

#[test]
fn test_parse_wav_samples() {
    // A minimal RIFF/WAVE file with one data chunk of two samples.
    let mut wav: Vec<u8> = Vec::new();
    wav.extend_from_slice(b"RIFF");
    wav.extend_from_slice(&36u32.to_le_bytes());
    wav.extend_from_slice(b"WAVE");
    wav.extend_from_slice(b"fmt ");
    wav.extend_from_slice(&16u32.to_le_bytes());
    wav.extend_from_slice(&[0u8; 16]);
    wav.extend_from_slice(b"data");
    wav.extend_from_slice(&4u32.to_le_bytes());
    wav.extend_from_slice(&1000i16.to_le_bytes());
    wav.extend_from_slice(&(-2000i16).to_le_bytes());

    let samples = parse_wav_samples(&wav).unwrap();
    assert_eq!(samples, vec![1000, -2000]);
}

#[test]
fn test_parse_wav_errors() {
    assert_eq!(parse_wav_samples(&vec![0u8; 10]), Err(WavError::TooShort));
    assert_eq!(parse_wav_samples(&vec![0u8; 64]), Err(WavError::NotRiff));
    let mut wav: Vec<u8> = Vec::new();
    wav.extend_from_slice(b"RIFF");
    wav.extend_from_slice(&36u32.to_le_bytes());
    wav.extend_from_slice(b"WAVE");
    wav.extend_from_slice(&[0u8; 32]);
    assert_eq!(parse_wav_samples(&wav), Err(WavError::NoDataChunk));
}
