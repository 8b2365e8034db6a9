//! Transcription data model.
//!
//! Timestamped transcript segments and whole-transcription results, with the
//! range queries the frame-selection and tagging logic needs.  Producing a
//! transcript from audio is the host's business; everything decided over the
//! produced segments is verified here.

use vstd::prelude::*;

use vstd::string::StringExecFns;
use vstd::string::StringSliceAdditionalSpecFns;

verus! {

/// Configuration for transcription.
#[derive(Clone, Debug)]
pub struct TranscriptionConfig {
    /// Path to the acoustic model file; empty until the host resolves its
    /// model directory.
    pub model_path: String,
    /// Language code, or `auto` for detection.
    pub language: String,
    /// Worker threads; `0` lets the backend decide.
    pub threads: u32,
    /// Whether to translate to English.
    pub translate: bool,
    /// Maximum segment length in characters; `0` for no limit.
    pub max_segment_length: usize,
}

impl Default for TranscriptionConfig {
    fn default() -> (r: Self)
        ensures
            r.model_path@.len() == 0,
            r.language@ == "en"@,
            r.threads == 0,
            r.translate == false,
            r.max_segment_length == 0,
    {
        TranscriptionConfig {
            model_path: String::new(),
            language: String::from_str("en"),
            threads: 0,
            translate: false,
            max_segment_length: 0,
        }
    }
}

/// The URL the default acoustic model is downloaded from.
pub fn get_model_download_url() -> (r: &'static str)
    ensures
        r@ == "https://huggingface.co/ggerganov/whisper.cpp/resolve/main/ggml-base.en.bin"@,
{
    "https://huggingface.co/ggerganov/whisper.cpp/resolve/main/ggml-base.en.bin"
}

/// A segment of transcribed audio.
#[derive(Clone, Debug)]
pub struct TranscriptSegment {
    /// Start time, milliseconds.
    pub start_ms: i64,
    /// End time, milliseconds.
    pub end_ms: i64,
    /// Transcribed text.
    pub text: String,
    /// Confidence, milli, if the backend reports one.
    pub confidence_milli: Option<u32>,
}

impl TranscriptSegment {
    /// Duration of the segment, milliseconds.
    pub fn duration_ms(&self) -> (r: i64)
        requires
            self.start_ms <= self.end_ms,
            -0x2000_0000_0000_0000 <= self.start_ms,
            self.end_ms <= 0x2000_0000_0000_0000,
        ensures
            r == self.end_ms - self.start_ms,
    {
        self.end_ms - self.start_ms
    }
}

/// A byte is ASCII whitespace.
pub open spec fn spec_is_ascii_space(b: u8) -> bool {
    b == 32 || b == 9 || b == 10 || b == 13
}

/// Result of a transcription.
#[derive(Clone, Debug)]
pub struct TranscriptionResult {
    /// Full transcribed text.
    pub text: String,
    /// Individual segments with timestamps.
    pub segments: Vec<TranscriptSegment>,
    /// Detected language, when auto-detection ran.
    pub detected_language: Option<String>,
    /// Duration of the audio, milliseconds.
    pub duration_ms: i64,
}

/// A segment lies wholly inside a time range.
pub open spec fn spec_segment_in_range(seg: TranscriptSegment, start_ms: int, end_ms: int) -> bool {
    seg.start_ms >= start_ms && seg.end_ms <= end_ms
}

/// How many of the first `i` segments lie wholly inside the range.
pub open spec fn spec_count_in_range(
    segments: Seq<TranscriptSegment>,
    start_ms: int,
    end_ms: int,
    i: int,
) -> nat
    decreases i,
{
    if i <= 0 {
        0
    } else {
        spec_count_in_range(segments, start_ms, end_ms, i - 1) + (if spec_segment_in_range(
            segments[i - 1],
            start_ms,
            end_ms,
        ) {
            1nat
        } else {
            0nat
        })
    }
}

/// The text of the first `i` segments that lie wholly inside the range,
/// joined by single spaces.
pub open spec fn spec_text_in_range(
    segments: Seq<TranscriptSegment>,
    start_ms: int,
    end_ms: int,
    i: int,
) -> Seq<char>
    decreases i,
{
    if i <= 0 {
        Seq::empty()
    } else {
        let prev = spec_text_in_range(segments, start_ms, end_ms, i - 1);
        if spec_segment_in_range(segments[i - 1], start_ms, end_ms) {
            if spec_count_in_range(segments, start_ms, end_ms, i - 1) == 0 {
                prev + segments[i - 1].text@
            } else {
                prev + " "@ + segments[i - 1].text@
            }
        } else {
            prev
        }
    }
}

impl TranscriptionResult {
    /// Whether the transcription produced any text beyond ASCII whitespace.
    pub fn is_empty(&self) -> (r: bool)
        ensures
            r == (forall|k: int|
                0 <= k < vstd::utf8::encode_utf8(self.text@).len() ==> spec_is_ascii_space(
                    #[trigger] vstd::utf8::encode_utf8(self.text@)[k],
                )),
    {
        let text: &str = self.text.as_str();
        let bytes: &[u8] = text.as_bytes();
        let n = bytes.len();
        let mut k: usize = 0;
        while k < n
            invariant
                k <= n,
                n == vstd::utf8::encode_utf8(self.text@).len(),
                bytes@ == vstd::utf8::encode_utf8(self.text@),
                forall|t: int| 0 <= t < k ==> spec_is_ascii_space(#[trigger] bytes@[t]),
            decreases n - k,
        {
            let b = bytes[k];
            if !(b == 32 || b == 9 || b == 10 || b == 13) {
                return false;
            }
            k = k + 1;
        }
        true
    }

    /// The text of the segments lying wholly inside `[start_ms, end_ms]`,
    /// joined by single spaces.
    pub fn text_in_range(&self, start_ms: i64, end_ms: i64) -> (r: String)
        ensures
            r@ == spec_text_in_range(
                self.segments@,
                start_ms as int,
                end_ms as int,
                self.segments@.len() as int,
            ),
    {
        let mut r = String::new();
        let mut matched: usize = 0;
        let n = self.segments.len();
        let mut i: usize = 0;
        while i < n
            invariant
                i <= n,
                n == self.segments@.len(),
                matched <= i,
                matched == spec_count_in_range(self.segments@, start_ms as int, end_ms as int, i as int),
                r@ == spec_text_in_range(self.segments@, start_ms as int, end_ms as int, i as int),
            decreases n - i,
        {
            let seg = &self.segments[i];
            if seg.start_ms >= start_ms && seg.end_ms <= end_ms {
                if matched > 0 {
                    r.append(" ");
                }
                r.append(seg.text.as_str());
                matched = matched + 1;
            }
            i = i + 1;
        }
        r
    }
}


// ============================================================================
// WAV decoding
// ============================================================================

/// Why a WAV byte string could not be decoded.
#[derive(Clone, Copy, Debug, PartialEq, Eq, Structural)]
pub enum WavError {
    /// Shorter than a WAV header.
    TooShort,
    /// The RIFF/WAVE magic is absent.
    NotRiff,
    /// No data chunk was found.
    NoDataChunk,
}

/// A little-endian 16-bit sample from two bytes.
pub open spec fn spec_i16_le(lo: u8, hi: u8) -> i16 {
    (((hi as u16) * 256 + (lo as u16))) as i16
}

/// A little-endian 32-bit size from four bytes.
pub open spec fn spec_u32_le(b0: u8, b1: u8, b2: u8, b3: u8) -> int {
    b0 + 256 * b1 + 65536 * b2 + 16777216 * b3
}

/// The chunk at `pos` carries the data tag.
pub open spec fn spec_is_data_tag(data: Seq<u8>, pos: int) -> bool {
    data[pos] == 100 && data[pos + 1] == 97 && data[pos + 2] == 116 && data[pos + 3] == 97
}

/// Walk the chunk list from `pos`: the start and size of the first data
/// chunk, or nothing when the walk runs out of the buffer.
pub open spec fn spec_find_data_chunk(data: Seq<u8>, pos: int) -> Option<(int, int)>
    decreases data.len() - pos,
{
    if pos < 0 || pos + 8 >= data.len() {
        None
    } else {
        let size = spec_u32_le(data[pos + 4], data[pos + 5], data[pos + 6], data[pos + 7]);
        if spec_is_data_tag(data, pos) {
            Some((pos + 8, size))
        } else {
            let next = pos + 8 + size + (if size % 2 == 0 {
                0int
            } else {
                1int
            });
            if next > data.len() {
                None
            } else {
                spec_find_data_chunk(data, next)
            }
        }
    }
}

/// The samples of a data chunk: consecutive little-endian 16-bit words,
/// clipped to the buffer.
pub open spec fn spec_decode_samples(data: Seq<u8>, start: int, size: int) -> Seq<i16> {
    let effective = vstd::math::min(size, data.len() - start);
    Seq::new((effective / 2) as nat, |k: int| spec_i16_le(data[start + 2 * k], data[start + 2 * k + 1]))
}

/// What decoding a WAV byte string yields: its 16-bit samples, or the first
/// reason it is not a 16-bit PCM WAV.
pub open spec fn spec_parse_wav(data: Seq<u8>) -> Result<Seq<i16>, WavError> {
    if data.len() < 44 {
        Err(WavError::TooShort)
    } else if !(data[0] == 82 && data[1] == 73 && data[2] == 70 && data[3] == 70 && data[8] == 87
        && data[9] == 65 && data[10] == 86 && data[11] == 69) {
        Err(WavError::NotRiff)
    } else {
        match spec_find_data_chunk(data, 12) {
            Some(chunk) => Ok(spec_decode_samples(data, chunk.0, chunk.1)),
            None => Err(WavError::NoDataChunk),
        }
    }
}

/// Decode a 16-bit PCM WAV byte string into its samples.
///
/// Checks the RIFF/WAVE magic, walks the chunk list to the first data
/// chunk, and decodes its bytes as consecutive little-endian 16-bit words.
/// Scaling the samples into unit floats is the host's business.
pub fn parse_wav_samples(data: &Vec<u8>) -> (r: Result<Vec<i16>, WavError>)
    requires
        data@.len() <= 0x1000_0000_0000,
    ensures
        r matches Ok(v) ==> spec_parse_wav(data@) == Ok::<Seq<i16>, WavError>(v@),
        r matches Err(e) ==> spec_parse_wav(data@) == Err::<Seq<i16>, WavError>(e),
{
    let n = data.len();
    if n < 44 {
        return Err(WavError::TooShort);
    }
    if !(data[0] == 82 && data[1] == 73 && data[2] == 70 && data[3] == 70 && data[8] == 87
        && data[9] == 65 && data[10] == 86 && data[11] == 69) {
        return Err(WavError::NotRiff);
    }
    let mut pos: usize = 12;
    while pos < n - 8
        invariant
            12 <= pos <= n,
            n == data@.len(),
            44 <= n <= 0x1000_0000_0000,
            data@[0] == 82 && data@[1] == 73 && data@[2] == 70 && data@[3] == 70 && data@[8] == 87
                && data@[9] == 65 && data@[10] == 86 && data@[11] == 69,
            spec_find_data_chunk(data@, 12) == spec_find_data_chunk(data@, pos as int),
        ensures
            12 <= pos <= n,
            n == data@.len(),
            spec_find_data_chunk(data@, 12) == spec_find_data_chunk(data@, pos as int),
            pos + 8 < n ==> spec_is_data_tag(data@, pos as int),
        decreases n - pos,
    {
        let size: u64 = (data[pos + 4] as u64) + 256 * (data[pos + 5] as u64) + 65536 * (data[pos
            + 6] as u64) + 16777216 * (data[pos + 7] as u64);
        if data[pos] == 100 && data[pos + 1] == 97 && data[pos + 2] == 116 && data[pos + 3] == 97 {
            break ;
        }
        let pad: u64 = if size % 2 == 0 {
            0
        } else {
            1
        };
        let next: u64 = (pos as u64) + 8 + size + pad;
        proof {
            let p = pos as int;
            assert(spec_u32_le(data@[p + 4], data@[p + 5], data@[p + 6], data@[p + 7])
                == size as int);
            assert(!spec_is_data_tag(data@, p));
            assert(next as int == p + 8 + (size as int) + (if (size as int) % 2 == 0 {
                0int
            } else {
                1int
            }));
        }
        if next > (n as u64) {
            proof {
                assert(spec_find_data_chunk(data@, pos as int) is None);
            }
            return Err(WavError::NoDataChunk);
        }
        pos = next as usize;
    }
    if pos >= n - 8 {
        proof {
            assert(spec_find_data_chunk(data@, pos as int) is None);
        }
        return Err(WavError::NoDataChunk);
    }
    let size: u64 = (data[pos + 4] as u64) + 256 * (data[pos + 5] as u64) + 65536 * (data[pos + 6]
        as u64) + 16777216 * (data[pos + 7] as u64);
    let start: usize = pos + 8;
    let available: u64 = (n - start) as u64;
    let effective: u64 = if size < available {
        size
    } else {
        available
    };
    let count: usize = (effective / 2) as usize;
    let mut samples: Vec<i16> = Vec::new();
    let mut k: usize = 0;
    while k < count
        invariant
            k <= count,
            n == data@.len(),
            start + 2 * count <= n,
            count == vstd::math::min(size as int, n - start) / 2,
            samples@.len() == k,
            forall|t: int|
                0 <= t < k ==> #[trigger] samples@[t] == spec_i16_le(
                    data@[start + 2 * t],
                    data@[start + 2 * t + 1],
                ),
        decreases count - k,
    {
        let lo = data[start + 2 * k];
        let hi = data[start + 2 * k + 1];
        let word: u16 = (lo as u16) + 256 * (hi as u16);
        samples.push(word as i16);
        k = k + 1;
    }
    proof {
        assert(spec_find_data_chunk(data@, pos as int) == Some((start as int, size as int)));
        assert(samples@ =~= spec_decode_samples(data@, start as int, size as int));
    }
    Ok(samples)
}

} // verus!
