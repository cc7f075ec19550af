//! Synchronized lookup: map a playback time onto the prescan frame whose
//! window has started, with a cursor for monotone scans and backward
//! correction after seeks.

use vstd::prelude::*;
use crate::prescan::{frames_sorted, AnalysisStatistics, FileInfo, PrescanData, PrescanFrame};

verus! {

/// Number of frames whose timestamp lies at or before `t`.
pub open spec fn count_at_or_before(frames: Seq<PrescanFrame>, t: u64) -> int
    decreases frames.len(),
{
    if frames.len() == 0 {
        0
    } else {
        count_at_or_before(frames.drop_last(), t) + (if frames.last().timestamp <= t {
            1int
        } else {
            0int
        })
    }
}

/// The frame index a playback time selects: the last frame whose window has
/// started by `t`, or the first frame when `t` lies before all of them.
pub open spec fn lookup_index(frames: Seq<PrescanFrame>, t: u64) -> int {
    if count_at_or_before(frames, t) == 0 {
        0
    } else {
        count_at_or_before(frames, t) - 1
    }
}

/// Counting within a sorted sequence: if everything before `k` has started
/// by `t` and everything from `k` on has not, the count is `k`.
proof fn lemma_count_boundary(frames: Seq<PrescanFrame>, t: u64, k: int)
    requires
        0 <= k <= frames.len(),
        forall|j: int| 0 <= j < k ==> (#[trigger] frames[j]).timestamp <= t,
        forall|j: int| k <= j < frames.len() ==> (#[trigger] frames[j]).timestamp > t,
    ensures
        count_at_or_before(frames, t) == k,
    decreases frames.len(),
{
    if frames.len() > 0 {
        if frames.last().timestamp <= t {
            assert(k == frames.len());
            lemma_count_boundary(frames.drop_last(), t, k - 1);
        } else {
            assert(k <= frames.len() - 1);
            lemma_count_boundary(frames.drop_last(), t, k);
        }
    }
}

/// Law (lookup window): in a strictly time-ordered frame sequence, a time
/// within frame `i`'s window (at or past its start, before the next start)
/// selects exactly index `i`; a time before the first start selects index 0;
/// a time at or past the last start selects the last index.
pub proof fn lemma_lookup_index_window(frames: Seq<PrescanFrame>, t: u64, i: int)
    requires
        frames_sorted(frames),
        0 <= i < frames.len(),
        frames[i].timestamp <= t,
        i + 1 < frames.len() ==> t < frames[i + 1].timestamp,
    ensures
        lookup_index(frames, t) == i,
{
    assert forall|j: int| 0 <= j < i + 1 implies (#[trigger] frames[j]).timestamp <= t by {
        if j < i {
            assert(frames[j].timestamp < frames[i].timestamp);
        }
    }
    assert forall|j: int| i + 1 <= j < frames.len() implies (#[trigger] frames[j]).timestamp
        > t by {
        if j > i + 1 {
            assert(frames[i + 1].timestamp < frames[j].timestamp);
        }
    }
    lemma_count_boundary(frames, t, i + 1);
}

/// Law (lookup before the start): in a strictly time-ordered, non-empty
/// frame sequence, a time before the first frame's start selects index 0.
pub proof fn lemma_lookup_index_before_start(frames: Seq<PrescanFrame>, t: u64)
    requires
        frames_sorted(frames),
        frames.len() > 0,
        t < frames[0].timestamp,
    ensures
        lookup_index(frames, t) == 0,
{
    assert forall|j: int| 0 <= j < frames.len() implies (#[trigger] frames[j]).timestamp > t by {
        if j > 0 {
            assert(frames[0].timestamp < frames[j].timestamp);
        }
    }
    lemma_count_boundary(frames, t, 0);
}

/// Real-time synchronized playback over pre-scanned data, with a cursor
/// index that advances monotonically and walks back after a seek.
#[derive(Clone, Debug)]
pub struct SynchronizedPlayback {
    /// The pre-scanned data driven by playback time.
    pub prescan_data: PrescanData,
    /// Playback time of the most recent query, in microseconds.
    pub current_time: u64,
    /// Cursor: index of the most recently returned frame.
    pub frame_index: usize,
}

impl SynchronizedPlayback {
    /// The cursor stays inside the frame sequence and the frames are
    /// strictly time-ordered.
    pub open spec fn wf(self) -> bool {
        &&& frames_sorted(self.prescan_data.frames@)
        &&& self.prescan_data.frames@.len() > 0 ==> self.frame_index
            < self.prescan_data.frames@.len()
        &&& self.prescan_data.frames@.len() == 0 ==> self.frame_index == 0
    }

    /// Playback over the given pre-scanned data, starting at its beginning.
    pub fn new(prescan_data: PrescanData) -> (r: Self)
        requires
            frames_sorted(prescan_data.frames@),
        ensures
            r.wf(),
            r.prescan_data == prescan_data,
            r.current_time == 0,
            r.frame_index == 0,
    {
        SynchronizedPlayback { prescan_data, current_time: 0, frame_index: 0 }
    }

    /// The frame for the given playback time: the last frame whose window
    /// has started by `t` (the first frame if none has), and `None` only on
    /// an empty frame sequence. The answer does not depend on where the
    /// cursor was left by earlier queries.
    pub fn get_synchronized_frame(&mut self, playback_time_us: u64) -> (r: Option<PrescanFrame>)
        requires
            old(self).wf(),
        ensures
            final(self).wf(),
            final(self).prescan_data == old(self).prescan_data,
            final(self).current_time == playback_time_us,
            old(self).prescan_data.frames@.len() == 0 <==> r is None,
            r matches Some(f) ==> f == old(self).prescan_data.frames@[lookup_index(
                old(self).prescan_data.frames@,
                playback_time_us,
            )] && final(self).frame_index == lookup_index(
                old(self).prescan_data.frames@,
                playback_time_us,
            ),
    {
        self.current_time = playback_time_us;

        let n = self.prescan_data.frames.len();
        if n == 0 {
            return None;
        }
        let ghost frames = self.prescan_data.frames@;

        while self.frame_index + 1 < n && self.prescan_data.frames[self.frame_index
            + 1].timestamp <= playback_time_us
            invariant
                frames == self.prescan_data.frames@,
                frames_sorted(frames),
                n == frames.len(),
                0 < n,
                self.frame_index < n,
                self.prescan_data == old(self).prescan_data,
                self.current_time == playback_time_us,
            decreases n - self.frame_index,
        {
            self.frame_index = self.frame_index + 1;
        }

        while self.frame_index > 0 && self.prescan_data.frames[self.frame_index].timestamp
            > playback_time_us
            invariant
                frames == self.prescan_data.frames@,
                frames_sorted(frames),
                n == frames.len(),
                0 < n,
                self.frame_index < n,
                self.prescan_data == old(self).prescan_data,
                self.current_time == playback_time_us,
                self.frame_index + 1 < n ==> frames[self.frame_index + 1].timestamp
                    > playback_time_us,
            decreases self.frame_index,
        {
            self.frame_index = self.frame_index - 1;
        }

        proof {
            let i = self.frame_index as int;
            if frames[i].timestamp <= playback_time_us {
                if i + 1 < n {
                    assert(frames[i + 1].timestamp > playback_time_us);
                }
                lemma_lookup_index_window(frames, playback_time_us, i);
            } else {
                assert(i == 0);
                lemma_lookup_index_before_start(frames, playback_time_us);
            }
        }
        Some(self.prescan_data.frames[self.frame_index])
    }

    /// The file-level statistics of the pre-scanned data.
    pub fn get_statistics(&self) -> (r: &AnalysisStatistics)
        ensures
            *r == self.prescan_data.statistics,
    {
        &self.prescan_data.statistics
    }

    /// The file metadata of the pre-scanned data.
    pub fn get_file_info(&self) -> (r: &FileInfo)
        ensures
            *r == self.prescan_data.file_info,
    {
        &self.prescan_data.file_info
    }
}

} // verus!
