//! Scene detection over perceptual hashes.
//!
//! Consecutive frames are compared by the Hamming distance between their
//! perceptual hashes.  A large distance marks a scene change, a very small one
//! marks a near-duplicate.  Computing a hash from pixels is the caller's
//! business; everything decided from the hashes onward is verified here.

use vstd::prelude::*;

verus! {

/// Number of set bits in one byte.
pub open spec fn pop8(x: u8) -> nat {
    (((x >> 0u8) & 1) + ((x >> 1u8) & 1) + ((x >> 2u8) & 1) + ((x >> 3u8) & 1) + ((x >> 4u8) & 1)
        + ((x >> 5u8) & 1) + ((x >> 6u8) & 1) + ((x >> 7u8) & 1)) as nat
}

proof fn lemma_pop8_bound(x: u8)
    ensures
        pop8(x) <= 8,
{
    assert(((x >> 0u8) & 1) + ((x >> 1u8) & 1) + ((x >> 2u8) & 1) + ((x >> 3u8) & 1) + ((x
        >> 4u8) & 1) + ((x >> 5u8) & 1) + ((x >> 6u8) & 1) + ((x >> 7u8) & 1) <= 8) by (bit_vector);
}

/// Bits that differ between `a` and `b` from position `i` on, over the prefix
/// both sequences share.
pub open spec fn hamming_from(a: Seq<u8>, b: Seq<u8>, i: int) -> nat
    decreases a.len() + b.len() - i,
{
    if i < 0 || i >= a.len() || i >= b.len() {
        0
    } else {
        pop8(a[i] ^ b[i]) + hamming_from(a, b, i + 1)
    }
}

/// Bits that differ between the shared prefix of `a` and `b`.
pub open spec fn spec_hamming(a: Seq<u8>, b: Seq<u8>) -> nat {
    hamming_from(a, b, 0)
}

/// Sum the set bits of one byte.
fn byte_ones(x: u8) -> (r: u32)
    ensures
        r == pop8(x),
{
    (((x >> 0u8) & 1) as u32) + (((x >> 1u8) & 1) as u32) + (((x >> 2u8) & 1) as u32) + (((x
        >> 3u8) & 1) as u32) + (((x >> 4u8) & 1) as u32) + (((x >> 5u8) & 1) as u32) + (((x
        >> 6u8) & 1) as u32) + (((x >> 7u8) & 1) as u32)
}

/// Compute the Hamming distance between two byte arrays.
///
/// Returns the number of bits that differ.  Arrays of different lengths are
/// compared up to the shorter length.
pub fn hamming_distance(a: &[u8], b: &[u8]) -> (r: u32)
    requires
        8 * vstd::math::min(a@.len() as int, b@.len() as int) <= u32::MAX,
    ensures
        r == spec_hamming(a@, b@),
{
    let n: usize = if a.len() < b.len() {
        a.len()
    } else {
        b.len()
    };
    let mut r: u32 = 0;
    let mut i: usize = 0;
    while i < n
        invariant
            i <= n,
            n == vstd::math::min(a@.len() as int, b@.len() as int),
            8 * n <= u32::MAX,
            r + hamming_from(a@, b@, i as int) == spec_hamming(a@, b@),
            r <= 8 * i,
        decreases n - i,
    {
        proof {
            lemma_pop8_bound(a@[i as int] ^ b@[i as int]);
        }
        r = r + byte_ones(a[i] ^ b[i]);
        i = i + 1;
    }
    r
}

/// A perceptual hash of one frame.
#[derive(Clone, Debug)]
pub struct PerceptualHash {
    /// The raw hash bytes.
    pub bytes: Vec<u8>,
    /// Encoded form of the hash, for storage by the host.
    pub hex: String,
}

impl PerceptualHash {
    /// Compute the Hamming distance to another hash.
    pub fn distance(&self, other: &Self) -> (r: u32)
        requires
            8 * vstd::math::min(self.bytes@.len() as int, other.bytes@.len() as int) <= u32::MAX,
        ensures
            r == spec_hamming(self.bytes@, other.bytes@),
    {
        hamming_distance(self.bytes.as_slice(), other.bytes.as_slice())
    }
}

/// Configuration for scene detection.
#[derive(Clone, Debug)]
pub struct SceneConfig {
    /// Hash edge size; the hash holds `hash_size * hash_size` bits.
    pub hash_size: u32,
    /// Hamming distance at or above which a frame starts a new scene.
    pub scene_threshold: u32,
    /// Hamming distance at or below which a frame duplicates its predecessor.
    pub duplicate_threshold: u32,
}

impl Default for SceneConfig {
    /// An 8x8 (64-bit) hash; roughly 20% of bits differing marks a scene
    /// change, at most 5% differing marks a duplicate.
    fn default() -> (r: Self)
        ensures
            r.hash_size == 8,
            r.scene_threshold == 12,
            r.duplicate_threshold == 3,
    {
        SceneConfig { hash_size: 8, scene_threshold: 12, duplicate_threshold: 3 }
    }
}

/// A frame with its hash and its scene-detection verdict.
#[derive(Clone, Debug)]
pub struct FrameCandidate {
    /// Frame number within the video, 0-indexed.
    pub frame_number: u32,
    /// Perceptual hash of the frame.
    pub hash: PerceptualHash,
    /// Whether this frame starts a new scene.
    pub is_scene_change: bool,
    /// Whether this frame duplicates the previous one.
    pub is_duplicate: bool,
    /// Hamming distance from the previous frame (0 for the first frame).
    pub distance_from_previous: u32,
}

/// Detect scene changes in a sequence of frame hashes.
///
/// The first frame always opens a scene.  Every later frame is compared with
/// its predecessor: a distance at or above `scene_threshold` opens a scene, a
/// distance at or below `duplicate_threshold` marks a duplicate.
pub fn detect_scene_changes(
    frame_numbers: &Vec<u32>,
    hashes: Vec<PerceptualHash>,
    config: &SceneConfig,
) -> (r: Vec<FrameCandidate>)
    requires
        frame_numbers@.len() == hashes@.len(),
        forall|i: int|
            0 <= i < hashes@.len() ==> 8 * hashes@[i].bytes@.len() <= u32::MAX,
    ensures
        r@.len() == hashes@.len(),
        forall|i: int| 0 <= i < r@.len() ==> r@[i].frame_number == frame_numbers@[i],
        forall|i: int| 0 <= i < r@.len() ==> r@[i].hash.bytes@ == hashes@[i].bytes@,
        r@.len() > 0 ==> r@[0].is_scene_change && !r@[0].is_duplicate && r@[0].distance_from_previous
            == 0,
        forall|i: int|
            1 <= i < r@.len() ==> r@[i].distance_from_previous == spec_hamming(
                hashes@[i].bytes@,
                hashes@[i - 1].bytes@,
            ),
        forall|i: int|
            1 <= i < r@.len() ==> r@[i].is_scene_change == (r@[i].distance_from_previous
                >= config.scene_threshold),
        forall|i: int|
            1 <= i < r@.len() ==> r@[i].is_duplicate == (r@[i].distance_from_previous
                <= config.duplicate_threshold),
{
    let mut r: Vec<FrameCandidate> = Vec::new();
    let n = hashes.len();
    let mut i: usize = 0;
    while i < n
        invariant
            i <= n,
            n == hashes@.len(),
            frame_numbers@.len() == n,
            forall|k: int| 0 <= k < n ==> 8 * hashes@[k].bytes@.len() <= u32::MAX,
            r@.len() == i,
            forall|k: int| 0 <= k < i ==> r@[k].frame_number == frame_numbers@[k],
            forall|k: int| 0 <= k < i ==> r@[k].hash.bytes@ == hashes@[k].bytes@,
            i > 0 ==> r@[0].is_scene_change && !r@[0].is_duplicate && r@[0].distance_from_previous
                == 0,
            forall|k: int|
                1 <= k < i ==> r@[k].distance_from_previous == spec_hamming(
                    hashes@[k].bytes@,
                    hashes@[k - 1].bytes@,
                ),
            forall|k: int|
                1 <= k < i ==> r@[k].is_scene_change == (r@[k].distance_from_previous
                    >= config.scene_threshold),
            forall|k: int|
                1 <= k < i ==> r@[k].is_duplicate == (r@[k].distance_from_previous
                    <= config.duplicate_threshold),
        decreases n - i,
    {
        let dist: u32 = if i == 0 {
            0
        } else {
            hashes[i].distance(&hashes[i - 1])
        };
        let is_scene_change = if i == 0 {
            true
        } else {
            dist >= config.scene_threshold
        };
        let is_duplicate = if i == 0 {
            false
        } else {
            dist <= config.duplicate_threshold
        };
        let hash = PerceptualHash {
            bytes: hashes[i].bytes.clone(),
            hex: hashes[i].hex.clone(),
        };
        r.push(
            FrameCandidate {
                frame_number: frame_numbers[i],
                hash,
                is_scene_change,
                is_duplicate,
                distance_from_previous: dist,
            },
        );
        i = i + 1;
    }
    r
}


/// How many of the first `i` candidates are scene changes.
pub open spec fn spec_count_scene_changes(candidates: Seq<FrameCandidate>, i: int) -> nat
    decreases i,
{
    if i <= 0 {
        0
    } else {
        spec_count_scene_changes(candidates, i - 1) + (if candidates[i - 1].is_scene_change {
            1nat
        } else {
            0nat
        })
    }
}

/// How many of the first `i` candidates are not duplicates.
pub open spec fn spec_count_unique(candidates: Seq<FrameCandidate>, i: int) -> nat
    decreases i,
{
    if i <= 0 {
        0
    } else {
        spec_count_unique(candidates, i - 1) + (if !candidates[i - 1].is_duplicate {
            1nat
        } else {
            0nat
        })
    }
}

/// The positions of the scene-change frames, in order.
pub fn get_scene_frames(candidates: &Vec<FrameCandidate>) -> (r: Vec<usize>)
    ensures
        r@.len() == spec_count_scene_changes(candidates@, candidates@.len() as int),
        forall|j: int|
            0 <= j < r@.len() ==> (#[trigger] r@[j]) < candidates@.len()
                && candidates@[r@[j] as int].is_scene_change,
        forall|i: int, j: int| 0 <= i < j < r@.len() ==> r@[i] < r@[j],
        forall|i: int|
            0 <= i < candidates@.len() && (#[trigger] candidates@[i]).is_scene_change
                ==> r@.contains(i as usize),
{
    let n = candidates.len();
    let mut r: Vec<usize> = Vec::new();
    let mut i: usize = 0;
    while i < n
        invariant
            i <= n,
            n == candidates@.len(),
            r@.len() == spec_count_scene_changes(candidates@, i as int),
            forall|j: int|
                0 <= j < r@.len() ==> (#[trigger] r@[j]) < i && candidates@[r@[j] as int].is_scene_change,
            forall|a: int, b: int| 0 <= a < b < r@.len() ==> r@[a] < r@[b],
            forall|k: int|
                0 <= k < i && (#[trigger] candidates@[k]).is_scene_change ==> r@.contains(
                    k as usize,
                ),
        decreases n - i,
    {
        if candidates[i].is_scene_change {
            let ghost before = r@;
            r.push(i);
            proof {
                assert forall|k: int|
                    0 <= k < i + 1 && (#[trigger] candidates@[k]).is_scene_change implies r@.contains(
                    k as usize,
                ) by {
                    if k == i as int {
                        assert(r@[r@.len() - 1] == i);
                    } else {
                        let w = choose|w: int| 0 <= w < before.len() && before[w] == k as usize;
                        assert(r@[w] == k as usize);
                    }
                }
            }
        }
        i = i + 1;
    }
    r
}

/// The positions of the non-duplicate frames, in order.
pub fn get_unique_frames(candidates: &Vec<FrameCandidate>) -> (r: Vec<usize>)
    ensures
        r@.len() == spec_count_unique(candidates@, candidates@.len() as int),
        forall|j: int|
            0 <= j < r@.len() ==> (#[trigger] r@[j]) < candidates@.len()
                && !candidates@[r@[j] as int].is_duplicate,
        forall|i: int, j: int| 0 <= i < j < r@.len() ==> r@[i] < r@[j],
        forall|i: int|
            0 <= i < candidates@.len() && !(#[trigger] candidates@[i]).is_duplicate
                ==> r@.contains(i as usize),
{
    let n = candidates.len();
    let mut r: Vec<usize> = Vec::new();
    let mut i: usize = 0;
    while i < n
        invariant
            i <= n,
            n == candidates@.len(),
            r@.len() == spec_count_unique(candidates@, i as int),
            forall|j: int|
                0 <= j < r@.len() ==> (#[trigger] r@[j]) < i && !candidates@[r@[j] as int].is_duplicate,
            forall|a: int, b: int| 0 <= a < b < r@.len() ==> r@[a] < r@[b],
            forall|k: int|
                0 <= k < i && !(#[trigger] candidates@[k]).is_duplicate ==> r@.contains(k as usize),
        decreases n - i,
    {
        if !candidates[i].is_duplicate {
            let ghost before = r@;
            r.push(i);
            proof {
                assert forall|k: int|
                    0 <= k < i + 1 && !(#[trigger] candidates@[k]).is_duplicate implies r@.contains(
                    k as usize,
                ) by {
                    if k == i as int {
                        assert(r@[r@.len() - 1] == i);
                    } else {
                        let w = choose|w: int| 0 <= w < before.len() && before[w] == k as usize;
                        assert(r@[w] == k as usize);
                    }
                }
            }
        }
        i = i + 1;
    }
    r
}

/// The total Hamming distance from frame `i` to the first `j` other frames
/// of a scene.
pub open spec fn spec_distance_sum(frames: Seq<FrameCandidate>, i: int, j: int) -> nat
    decreases j,
{
    if j <= 0 {
        0
    } else {
        spec_distance_sum(frames, i, j - 1) + (if j - 1 == i {
            0nat
        } else {
            spec_hamming(frames[i].hash.bytes@, frames[j - 1].hash.bytes@)
        })
    }
}

/// Sum the Hamming distances from frame `i` to every other frame.
fn distance_sum(frames: &Vec<FrameCandidate>, i: usize) -> (r: u64)
    requires
        i < frames@.len(),
        frames@.len() <= 0x1_0000_0000,
        forall|k: int|
            0 <= k < frames@.len() ==> 8 * (#[trigger] frames@[k]).hash.bytes@.len() <= u32::MAX,
    ensures
        r == spec_distance_sum(frames@, i as int, frames@.len() as int),
{
    let n = frames.len();
    let mut total: u64 = 0;
    let mut j: usize = 0;
    while j < n
        invariant
            j <= n,
            i < n,
            n == frames@.len(),
            n <= 0x1_0000_0000,
            forall|k: int|
                0 <= k < n ==> 8 * (#[trigger] frames@[k]).hash.bytes@.len() <= u32::MAX,
            total == spec_distance_sum(frames@, i as int, j as int),
            total <= (j as u64) * 0x1_0000_0000,
        decreases n - j,
    {
        if j != i {
            let d = frames[i].hash.distance(&frames[j].hash);
            total = total + (d as u64);
        }
        j = j + 1;
    }
    total
}

/// The most representative frame of a scene: the one whose total Hamming
/// distance to the other frames is smallest, earliest on a tie; `None` only
/// for an empty scene.
pub fn find_scene_representative(frames: &Vec<FrameCandidate>) -> (r: Option<usize>)
    requires
        frames@.len() <= 0x1_0000_0000,
        forall|k: int|
            0 <= k < frames@.len() ==> 8 * (#[trigger] frames@[k]).hash.bytes@.len() <= u32::MAX,
    ensures
        r is Some <==> frames@.len() > 0,
        r matches Some(best) ==> best < frames@.len() && forall|j: int|
            0 <= j < frames@.len() ==> spec_distance_sum(
                frames@,
                best as int,
                frames@.len() as int,
            ) <= spec_distance_sum(frames@, j, frames@.len() as int),
        r matches Some(best) ==> forall|j: int|
            0 <= j < best ==> spec_distance_sum(frames@, j, frames@.len() as int)
                > spec_distance_sum(frames@, best as int, frames@.len() as int),
{
    let n = frames.len();
    if n == 0 {
        return None;
    }
    let mut best: usize = 0;
    let mut best_total: u64 = distance_sum(frames, 0);
    let mut i: usize = 1;
    while i < n
        invariant
            1 <= i <= n,
            n == frames@.len(),
            n <= 0x1_0000_0000,
            forall|k: int|
                0 <= k < n ==> 8 * (#[trigger] frames@[k]).hash.bytes@.len() <= u32::MAX,
            best < i,
            best_total == spec_distance_sum(frames@, best as int, n as int),
            forall|j: int|
                0 <= j < i ==> best_total <= spec_distance_sum(frames@, j, n as int),
            forall|j: int|
                0 <= j < best ==> spec_distance_sum(frames@, j, n as int) > best_total,
        decreases n - i,
    {
        let total = distance_sum(frames, i);
        if total < best_total {
            best = i;
            best_total = total;
        }
        i = i + 1;
    }
    Some(best)
}


/// How many of positions `1..i` open a new scene.
pub open spec fn spec_count_changes(c: Seq<FrameCandidate>, i: int) -> nat
    decreases i,
{
    if i <= 1 {
        0
    } else {
        spec_count_changes(c, i - 1) + (if c[i - 1].is_scene_change {
            1nat
        } else {
            0nat
        })
    }
}

/// The end of the scene segment starting at `s`: the next scene-change
/// position after `s`, or the end of the list.
pub open spec fn spec_seg_end(c: Seq<FrameCandidate>, s: int) -> int
    decreases c.len() - s,
{
    if s + 1 >= c.len() {
        c.len() as int
    } else if c[s + 1].is_scene_change {
        s + 1
    } else {
        spec_seg_end(c, s + 1)
    }
}

/// The start of scene segment `j`: segment `0` starts at the first frame,
/// each later segment at the end of the one before it.
pub open spec fn spec_seg_start(c: Seq<FrameCandidate>, j: int) -> int
    decreases j,
{
    if j <= 0 {
        0
    } else {
        spec_seg_end(c, spec_seg_start(c, j - 1))
    }
}

/// The total Hamming distance from frame `i` to the frames of `[lo, j)`
/// other than itself.
pub open spec fn spec_distance_sum_range(c: Seq<FrameCandidate>, lo: int, i: int, j: int) -> nat
    decreases j - lo,
{
    if j <= lo {
        0
    } else {
        spec_distance_sum_range(c, lo, i, j - 1) + (if j - 1 == i {
            0nat
        } else {
            spec_hamming(c[i].hash.bytes@, c[j - 1].hash.bytes@)
        })
    }
}

/// Distance sums only read the hash bytes, so a copied slice has the same
/// sums as the stretch of the list it was copied from.
proof fn lemma_distance_sum_congruent(
    slice: Seq<FrameCandidate>,
    c: Seq<FrameCandidate>,
    lo: int,
    i: int,
    j: int,
)
    requires
        0 <= lo,
        lo + slice.len() <= c.len(),
        0 <= i < slice.len(),
        0 <= j <= slice.len(),
        forall|k: int|
            0 <= k < slice.len() ==> (#[trigger] slice[k]).hash.bytes@ == c[lo + k].hash.bytes@,
    ensures
        spec_distance_sum(slice, i, j) == spec_distance_sum_range(c, lo, lo + i, lo + j),
    decreases j,
{
    if j > 0 {
        lemma_distance_sum_congruent(slice, c, lo, i, j - 1);
    }
}

/// A stretch with no scene change strictly inside it, closed by a change or
/// by the end of the list, is exactly one segment.
proof fn lemma_seg_end_of_run(c: Seq<FrameCandidate>, s: int, e: int)
    requires
        0 <= s < e <= c.len(),
        forall|p: int| s < p < e ==> !(#[trigger] c[p]).is_scene_change,
        e == c.len() || c[e].is_scene_change,
    ensures
        spec_seg_end(c, s) == e,
    decreases e - s,
{
    if s + 1 < e {
        lemma_seg_end_of_run(c, s + 1, e);
    }
}

/// Copy a byte string.
fn copy_bytes(v: &Vec<u8>) -> (r: Vec<u8>)
    ensures
        r@ == v@,
{
    let mut r: Vec<u8> = Vec::new();
    let mut i: usize = 0;
    while i < v.len()
        invariant
            i <= v@.len(),
            r@ == v@.take(i as int),
        decreases v@.len() - i,
    {
        proof {
            assert(v@.take(i as int + 1) =~= v@.take(i as int).push(v@[i as int]));
        }
        r.push(v[i]);
        i = i + 1;
    }
    proof {
        assert(v@.take(v@.len() as int) =~= v@);
    }
    r
}

/// A representative frame from each scene, as positions into the candidate
/// list.
///
/// Scenes run from one scene-change boundary to the next; each contributes
/// exactly one position, lying inside the scene and minimizing the total
/// Hamming distance to the scene's other frames.
pub fn get_representative_frames(candidates: &Vec<FrameCandidate>) -> (r: Vec<usize>)
    requires
        candidates@.len() <= 0x1_0000_0000,
        forall|k: int|
            0 <= k < candidates@.len() ==> 8 * (#[trigger] candidates@[k]).hash.bytes@.len()
                <= u32::MAX,
    ensures
        forall|j: int| 0 <= j < r@.len() ==> (#[trigger] r@[j]) < candidates@.len(),
        candidates@.len() == 0 ==> r@.len() == 0,
        candidates@.len() > 0 ==> r@.len() == 1 + spec_count_changes(
            candidates@,
            candidates@.len() as int,
        ),
        forall|j: int|
            0 <= j < r@.len() ==> spec_seg_start(candidates@, j) <= (#[trigger] r@[j]) < spec_seg_end(
                candidates@,
                spec_seg_start(candidates@, j),
            ),
        forall|j: int, q: int|
            0 <= j < r@.len() && spec_seg_start(candidates@, j) <= q < spec_seg_end(
                candidates@,
                spec_seg_start(candidates@, j),
            ) ==> spec_distance_sum_range(
                candidates@,
                spec_seg_start(candidates@, j),
                r@[j] as int,
                spec_seg_end(candidates@, spec_seg_start(candidates@, j)),
            ) <= #[trigger] spec_distance_sum_range(
                candidates@,
                spec_seg_start(candidates@, j),
                q,
                spec_seg_end(candidates@, spec_seg_start(candidates@, j)),
            ),
{
    let n = candidates.len();
    if n == 0 {
        return Vec::new();
    }
    let mut representatives: Vec<usize> = Vec::new();
    let mut scene_start: usize = 0;
    let mut i: usize = 1;
    while i < n
        invariant
            1 <= i <= n,
            n == candidates@.len(),
            n <= 0x1_0000_0000,
            scene_start < i,
            forall|k: int|
                0 <= k < n ==> 8 * (#[trigger] candidates@[k]).hash.bytes@.len() <= u32::MAX,
            representatives@.len() == spec_count_changes(candidates@, i as int),
            forall|j: int|
                0 <= j < representatives@.len() ==> (#[trigger] representatives@[j]) < n,
            scene_start == spec_seg_start(candidates@, representatives@.len() as int),
            forall|p: int| scene_start < p < i ==> !(#[trigger] candidates@[p]).is_scene_change,
            forall|j: int|
                0 <= j < representatives@.len() ==> spec_seg_start(candidates@, j) <= (
                #[trigger] representatives@[j]) < spec_seg_end(
                    candidates@,
                    spec_seg_start(candidates@, j),
                ),
            forall|j: int, q: int|
                0 <= j < representatives@.len() && spec_seg_start(candidates@, j) <= q
                    < spec_seg_end(candidates@, spec_seg_start(candidates@, j))
                    ==> spec_distance_sum_range(
                    candidates@,
                    spec_seg_start(candidates@, j),
                    representatives@[j] as int,
                    spec_seg_end(candidates@, spec_seg_start(candidates@, j)),
                ) <= #[trigger] spec_distance_sum_range(
                    candidates@,
                    spec_seg_start(candidates@, j),
                    q,
                    spec_seg_end(candidates@, spec_seg_start(candidates@, j)),
                ),
        decreases n - i,
    {
        if candidates[i].is_scene_change {
            proof {
                lemma_seg_end_of_run(candidates@, scene_start as int, i as int);
            }
            let mut scene: Vec<FrameCandidate> = Vec::new();
            let mut c: usize = scene_start;
            while c < i
                invariant
                    scene_start <= c <= i,
                    i <= n,
                    n == candidates@.len(),
                    forall|k: int|
                        0 <= k < n ==> 8 * (#[trigger] candidates@[k]).hash.bytes@.len()
                            <= u32::MAX,
                    scene@.len() == c - scene_start,
                    forall|k: int|
                        0 <= k < scene@.len() ==> (#[trigger] scene@[k]).hash.bytes@
                            == candidates@[scene_start + k].hash.bytes@,
                    forall|k: int|
                        0 <= k < scene@.len() ==> 8 * (#[trigger] scene@[k]).hash.bytes@.len()
                            <= u32::MAX,
                decreases i - c,
            {
                scene.push(
                    FrameCandidate {
                        frame_number: candidates[c].frame_number,
                        hash: PerceptualHash {
                            bytes: copy_bytes(&candidates[c].hash.bytes),
                            hex: candidates[c].hash.hex.clone(),
                        },
                        is_scene_change: candidates[c].is_scene_change,
                        is_duplicate: candidates[c].is_duplicate,
                        distance_from_previous: candidates[c].distance_from_previous,
                    },
                );
                c = c + 1;
            }
            let ghost reps_before = representatives@;
            match find_scene_representative(&scene) {
                Some(rep) => {
                    proof {
                        assert forall|q: int|
                            0 <= q < scene@.len() implies spec_distance_sum_range(
                            candidates@,
                            scene_start as int,
                            scene_start + rep,
                            i as int,
                        ) <= #[trigger] spec_distance_sum_range(
                            candidates@,
                            scene_start as int,
                            scene_start + q,
                            i as int,
                        ) by {
                            lemma_distance_sum_congruent(
                                scene@,
                                candidates@,
                                scene_start as int,
                                rep as int,
                                scene@.len() as int,
                            );
                            lemma_distance_sum_congruent(
                                scene@,
                                candidates@,
                                scene_start as int,
                                q,
                                scene@.len() as int,
                            );
                        }
                    }
                    representatives.push(scene_start + rep);
                    proof {
                        let jf = reps_before.len() as int;
                        assert(representatives@[jf] == scene_start + rep);
                        assert(spec_seg_start(candidates@, jf) == scene_start as int);
                        assert(spec_seg_end(candidates@, scene_start as int) == i as int);
                        assert forall|j: int|
                            0 <= j < representatives@.len() implies spec_seg_start(
                            candidates@,
                            j,
                        ) <= (#[trigger] representatives@[j]) < spec_seg_end(
                            candidates@,
                            spec_seg_start(candidates@, j),
                        ) by {
                            if j < jf {
                                assert(representatives@[j] == reps_before[j]);
                            }
                        }
                        assert forall|j: int, q: int|
                            0 <= j < representatives@.len() && spec_seg_start(candidates@, j) <= q
                                < spec_seg_end(candidates@, spec_seg_start(candidates@, j))
                                implies spec_distance_sum_range(
                                candidates@,
                                spec_seg_start(candidates@, j),
                                representatives@[j] as int,
                                spec_seg_end(candidates@, spec_seg_start(candidates@, j)),
                            ) <= #[trigger] spec_distance_sum_range(
                                candidates@,
                                spec_seg_start(candidates@, j),
                                q,
                                spec_seg_end(candidates@, spec_seg_start(candidates@, j)),
                            ) by {
                            if j < jf {
                                assert(representatives@[j] == reps_before[j]);
                            } else {
                                assert(representatives@[j] == scene_start + rep);
                                let qr = q - scene_start;
                                assert(0 <= qr < scene@.len());
                                assert(spec_distance_sum_range(
                                    candidates@,
                                    scene_start as int,
                                    scene_start + rep,
                                    i as int,
                                ) <= spec_distance_sum_range(
                                    candidates@,
                                    scene_start as int,
                                    scene_start + qr,
                                    i as int,
                                ));
                            }
                        }
                    }
                },
                None => {},
            }
            scene_start = i;
        }
        i = i + 1;
    }
    proof {
        lemma_seg_end_of_run(candidates@, scene_start as int, n as int);
    }
    let mut last_scene: Vec<FrameCandidate> = Vec::new();
    let mut c: usize = scene_start;
    while c < n
        invariant
            scene_start <= c <= n,
            n == candidates@.len(),
            scene_start < n,
            forall|k: int|
                0 <= k < n ==> 8 * (#[trigger] candidates@[k]).hash.bytes@.len() <= u32::MAX,
            last_scene@.len() == c - scene_start,
            forall|k: int|
                0 <= k < last_scene@.len() ==> (#[trigger] last_scene@[k]).hash.bytes@
                    == candidates@[scene_start + k].hash.bytes@,
            forall|k: int|
                0 <= k < last_scene@.len() ==> 8 * (#[trigger] last_scene@[k]).hash.bytes@.len()
                    <= u32::MAX,
        decreases n - c,
    {
        last_scene.push(
            FrameCandidate {
                frame_number: candidates[c].frame_number,
                hash: PerceptualHash {
                    bytes: copy_bytes(&candidates[c].hash.bytes),
                    hex: candidates[c].hash.hex.clone(),
                },
                is_scene_change: candidates[c].is_scene_change,
                is_duplicate: candidates[c].is_duplicate,
                distance_from_previous: candidates[c].distance_from_previous,
            },
        );
        c = c + 1;
    }
    match find_scene_representative(&last_scene) {
        Some(rep) => {
            proof {
                assert forall|q: int|
                    0 <= q < last_scene@.len() implies spec_distance_sum_range(
                    candidates@,
                    scene_start as int,
                    scene_start + rep,
                    n as int,
                ) <= #[trigger] spec_distance_sum_range(
                    candidates@,
                    scene_start as int,
                    scene_start + q,
                    n as int,
                ) by {
                    lemma_distance_sum_congruent(
                        last_scene@,
                        candidates@,
                        scene_start as int,
                        rep as int,
                        last_scene@.len() as int,
                    );
                    lemma_distance_sum_congruent(
                        last_scene@,
                        candidates@,
                        scene_start as int,
                        q,
                        last_scene@.len() as int,
                    );
                }
            }
            let ghost reps_final_before = representatives@;
            representatives.push(scene_start + rep);
            proof {
                let jf = reps_final_before.len() as int;
                assert(representatives@[jf] == scene_start + rep);
                assert(spec_seg_start(candidates@, jf) == scene_start as int);
                assert(spec_seg_end(candidates@, scene_start as int) == n as int);
                assert forall|j: int|
                    0 <= j < representatives@.len() implies spec_seg_start(candidates@, j) <= (
                #[trigger] representatives@[j]) < spec_seg_end(
                    candidates@,
                    spec_seg_start(candidates@, j),
                ) by {
                    if j < jf {
                        assert(representatives@[j] == reps_final_before[j]);
                    }
                }
                assert forall|j: int, q: int|
                    0 <= j < representatives@.len() && spec_seg_start(candidates@, j) <= q
                        < spec_seg_end(candidates@, spec_seg_start(candidates@, j))
                        implies spec_distance_sum_range(
                        candidates@,
                        spec_seg_start(candidates@, j),
                        representatives@[j] as int,
                        spec_seg_end(candidates@, spec_seg_start(candidates@, j)),
                    ) <= #[trigger] spec_distance_sum_range(
                        candidates@,
                        spec_seg_start(candidates@, j),
                        q,
                        spec_seg_end(candidates@, spec_seg_start(candidates@, j)),
                    ) by {
                    if j < jf {
                        assert(representatives@[j] == reps_final_before[j]);
                    } else {
                        assert(representatives@[j] == scene_start + rep);
                        let qr = q - scene_start;
                        assert(0 <= qr < last_scene@.len());
                        assert(spec_distance_sum_range(
                            candidates@,
                            scene_start as int,
                            scene_start + rep,
                            n as int,
                        ) <= spec_distance_sum_range(
                            candidates@,
                            scene_start as int,
                            scene_start + qr,
                            n as int,
                        ));
                    }
                }
            }
        },
        None => {},
    }
    representatives
}

} // verus!
