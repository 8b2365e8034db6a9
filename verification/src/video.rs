//! Video processing data model.
//!
//! The frame image format and the statistics a processing run reports.  The
//! extraction itself — probing and decoding media — is the host's business.

use vstd::prelude::*;

verus! {

/// Output image format for extracted frames.
#[derive(Clone, Copy, Debug, PartialEq, Eq, Structural)]
pub enum ImageFormat {
    /// JPEG: smaller files, lossy.
    Jpeg,
    /// PNG: larger files, lossless.
    Png,
}

impl Default for ImageFormat {
    fn default() -> (r: Self)
        ensures
            r == ImageFormat::Jpeg,
    {
        ImageFormat::Jpeg
    }
}

impl ImageFormat {
    /// The file extension for this format.
    pub fn extension(&self) -> (r: &'static str)
        ensures
            *self == ImageFormat::Jpeg ==> r@ == "jpg"@,
            *self == ImageFormat::Png ==> r@ == "png"@,
    {
        match self {
            ImageFormat::Jpeg => "jpg",
            ImageFormat::Png => "png",
        }
    }

    /// The encoder name for this format.
    pub fn codec(&self) -> (r: &'static str)
        ensures
            *self == ImageFormat::Jpeg ==> r@ == "mjpeg"@,
            *self == ImageFormat::Png ==> r@ == "png"@,
    {
        match self {
            ImageFormat::Jpeg => "mjpeg",
            ImageFormat::Png => "png",
        }
    }
}

/// Statistics from one video processing run.
#[derive(Clone, Copy, Debug, PartialEq, Eq, Structural)]
pub struct ProcessingStats {
    /// Total frames extracted.
    pub frames_extracted: usize,
    /// Scene changes detected.
    pub scene_changes: usize,
    /// Duplicate frames detected.
    pub duplicates: usize,
    /// Time spent extracting frames, ms.
    pub extraction_time_ms: u64,
    /// Time spent on scene detection, ms.
    pub scene_detection_time_ms: u64,
    /// Time spent transcribing, ms.
    pub transcription_time_ms: u64,
}

} // verus!
