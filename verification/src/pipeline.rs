//! The integer side of the render pipeline: how many output frames a clip
//! gets, which pair of telemetry samples each frame shows, which samples feed
//! the G-force trail, and how the output is delivered.
//!
//! Sync model: each telemetry sample covers one second of video.  Output
//! frame `n` sits at telemetry time `n / fps + offset`, clamped to the clip;
//! the whole seconds of that time pick the pair `(a, a + 1)` of samples.
use vstd::prelude::*;
use crate::text::same_text;

verus! {

/// The number of output frames: one second of video per pair of adjacent
/// telemetry samples, `(n_tele - 1) * fps`, whatever the sync offset.
pub fn frame_count(n_tele: usize, fps: u32) -> (total: usize)
    requires
        n_tele >= 1,
        (n_tele - 1) * fps <= usize::MAX,
    ensures
        total == (n_tele - 1) * fps,
{
    (n_tele - 1) * fps as usize
}

/// The telemetry samples that one output frame interpolates between.
#[derive(Debug, Clone, Copy, PartialEq, Eq, Structural)]
pub struct JobSlot {
    /// Output frame index (0, 1, 2, …).
    pub global: usize,
    /// Index of the earlier telemetry sample.
    pub tele_a: usize,
    /// Index of the later telemetry sample.
    pub tele_b: usize,
    /// Which G-force history entry to use (always `tele_a`).
    pub g_hist_idx: usize,
}

/// The pair of samples for a position `whole` whole seconds into the
/// telemetry: `whole`, held to the last pair.
pub open spec fn spec_pair_start(whole: int, n_tele: int) -> int {
    if whole < n_tele - 2 {
        whole
    } else {
        n_tele - 2
    }
}

/// The slot of output frame `global`, whose telemetry position has `whole`
/// whole seconds (after clamping to the clip).
pub fn job_slot(global: usize, whole: usize, n_tele: usize) -> (s: JobSlot)
    requires
        n_tele >= 2,
    ensures
        s.global == global,
        s.tele_a == spec_pair_start(whole as int, n_tele as int),
        s.tele_b == s.tele_a + 1,
        s.g_hist_idx == s.tele_a,
{
    let max_a = n_tele - 2;
    let a = if whole < max_a {
        whole
    } else {
        max_a
    };
    JobSlot { global, tele_a: a, tele_b: a + 1, g_hist_idx: a }
}

/// Every slot stays inside the telemetry: `tele_a < n_tele - 1` and
/// `tele_b < n_tele`; a later position never picks an earlier pair; a
/// position past the end picks the last pair, and position 0 the first.
pub proof fn law_slots_in_bounds_and_ordered(w1: int, w2: int, n_tele: int)
    requires
        n_tele >= 2,
        0 <= w1 <= w2,
    ensures
        0 <= spec_pair_start(w1, n_tele) < n_tele - 1,
        spec_pair_start(w1, n_tele) + 1 < n_tele,
        spec_pair_start(w1, n_tele) <= spec_pair_start(w2, n_tele),
        w1 >= n_tele - 2 ==> spec_pair_start(w1, n_tele) == n_tele - 2,
        spec_pair_start(0, n_tele) == 0,
{
}

/// The samples whose accelerometer readings make up the G-force trail shown
/// with sample `i`: those of the last 40 samples up to `i` that have a
/// reading, oldest first.
pub open spec fn in_history(has_accel: Seq<bool>, i: int, j: int) -> bool {
    i - 40 < j <= i && 0 <= j && has_accel[j]
}

/// The trail indices for sample `i`, oldest first.
pub fn history_window(has_accel: &[bool], i: usize) -> (w: Vec<usize>)
    requires
        i < has_accel.len(),
    ensures
        forall|k: int| 0 <= k < w@.len() ==> in_history(has_accel@, i as int, #[trigger] w@[k] as int),
        forall|k1: int, k2: int| 0 <= k1 < k2 < w@.len() ==> #[trigger] w@[k1] < #[trigger] w@[k2],
        forall|j: int| in_history(has_accel@, i as int, j) ==> #[trigger] w@.contains(j as usize),
        w@.len() <= 40,
{
    let start = if i >= 39 {
        i - 39
    } else {
        0
    };
    let mut w: Vec<usize> = Vec::new();
    let mut j = start;
    while j <= i
        invariant
            start <= j <= i + 1,
            i < has_accel.len(),
            start == (if i >= 39 { i - 39 } else { 0 }),
            w@.len() <= j - start,
            forall|k: int| 0 <= k < w@.len() ==> in_history(has_accel@, i as int, #[trigger] w@[k] as int),
            forall|k: int| 0 <= k < w@.len() ==> #[trigger] w@[k] < j,
            forall|k1: int, k2: int| 0 <= k1 < k2 < w@.len() ==> #[trigger] w@[k1] < #[trigger] w@[k2],
            forall|m: int| start <= m < j && has_accel@[m] ==> #[trigger] w@.contains(m as usize),
        decreases i + 1 - j,
    {
        if has_accel[j] {
            let ghost before = w@;
            w.push(j);
            proof {
                assert forall|m: int| start <= m < j + 1 && has_accel@[m] implies #[trigger] w@.contains(
                    m as usize,
                ) by {
                    if m < j {
                        assert(before.contains(m as usize));
                        let k = choose|k: int| 0 <= k < before.len() && before[k] == m as usize;
                        assert(w@[k] == before[k]);
                    } else {
                        assert(w@[w@.len() - 1] == j);
                    }
                }
            }
        }
        j = j + 1;
    }
    w
}

/// The last telemetry sample that the mini-map may show with pair `tele_a`:
/// the pair's later sample, held to the last sample.
pub fn last_visible_frame(tele_a: usize, n_frames: usize) -> (last: usize)
    requires
        n_frames >= 1,
        tele_a < usize::MAX,
    ensures
        last == if tele_a + 1 < n_frames - 1 {
            tele_a + 1
        } else {
            n_frames - 1
        },
{
    if tele_a + 1 < n_frames - 1 {
        tele_a + 1
    } else {
        n_frames - 1
    }
}

/// The number of render threads: the requested number, or with 0 requested,
/// the parallelism the machine reports, or 4 where it reports none.
pub fn thread_count(requested: usize, available: Option<usize>) -> (n: usize)
    ensures
        n == if requested == 0 {
            match available {
                Some(a) => a,
                None => 4,
            }
        } else {
            requested
        },
{
    if requested == 0 {
        match available {
            Some(a) => a,
            None => 4,
        }
    } else {
        requested
    }
}

/// How `render` delivers its frames.
#[derive(Debug, Clone, Copy, PartialEq, Eq, Structural)]
pub enum OutputKind {
    /// PNG frames in a directory.
    Frames,
    /// Raw frames piped into ffmpeg, writing one video file.
    Pipe,
    /// Both a video file and PNG frames.
    Both,
}

/// Whether a (lower-case) file extension names a video container.
pub open spec fn is_video_ext(ext: Seq<char>) -> bool {
    ext == "mp4"@ || ext == "mov"@ || ext == "mkv"@ || ext == "webm"@
}

/// The output of `render`: a video file when the output's (lower-case)
/// extension is mp4, mov, mkv or webm, together with PNG frames if asked
/// for; otherwise a directory of PNG frames.
pub fn output_kind(ext: &str, save_frames: bool) -> (k: OutputKind)
    ensures
        k == if is_video_ext(ext@) && save_frames {
            OutputKind::Both
        } else if is_video_ext(ext@) {
            OutputKind::Pipe
        } else {
            OutputKind::Frames
        },
{
    let is_video = same_text(ext, "mp4") || same_text(ext, "mov") || same_text(ext, "mkv") || same_text(
        ext,
        "webm",
    );
    if is_video && save_frames {
        OutputKind::Both
    } else if is_video {
        OutputKind::Pipe
    } else {
        OutputKind::Frames
    }
}

} // verus!
