//! Tempo estimation from inter-beat intervals.

use vstd::prelude::*;
use crate::seqsum::{lemma_sum64_bounded, lemma_sum64_step, mean_of, sum64};

verus! {

/// Shortest plausible inter-beat interval (0.3 s, i.e. 200 BPM), exclusive.
pub const MIN_INTERVAL_US: u64 = 300_000;

/// Longest plausible inter-beat interval (2.0 s, i.e. 30 BPM), exclusive.
pub const MAX_INTERVAL_US: u64 = 2_000_000;

/// Number of most recent intervals retained.
pub const MAX_INTERVALS: usize = 8;

/// Tempo reported before any valid interval has been recorded (120 BPM, in
/// micro-BPM).
pub const DEFAULT_BPM: u64 = 120_000_000;

/// One minute in (micro-BPM x microseconds): dividing it by a mean interval
/// in microseconds yields a tempo in micro-BPM.
pub const MINUTE_US_MICRO: u64 = 60_000_000_000_000;

/// The retained intervals after recording one more: appended, with the oldest
/// evicted once more than `MAX_INTERVALS` are held.
pub open spec fn slide_intervals(s: Seq<u64>, x: u64) -> Seq<u64> {
    let p = s.push(x);
    if p.len() > MAX_INTERVALS {
        p.subrange(1, p.len() as int)
    } else {
        p
    }
}

/// The tempo that a non-empty interval window estimates: 60 seconds divided
/// by the mean interval, in micro-BPM.
pub open spec fn bpm_of_intervals(s: Seq<u64>) -> int {
    (MINUTE_US_MICRO as int) / mean_of(s)
}

/// Tracks inter-beat intervals inside the plausible range and estimates the
/// current tempo from their sliding mean.
#[derive(Clone, Debug)]
pub struct TempoDetector {
    /// Most recent plausible intervals, oldest first, in microseconds.
    pub beat_intervals: Vec<u64>,
    /// Time of the last detected beat, in microseconds (0 before any beat).
    pub last_beat_time: u64,
    /// Elapsed time, in microseconds.
    pub current_time: u64,
    /// Current tempo estimate, in micro-BPM.
    pub estimated_bpm: u64,
}

impl TempoDetector {
    /// At most `MAX_INTERVALS` retained intervals, each strictly inside the
    /// plausible range; time moves forward past the last beat.
    pub open spec fn wf(self) -> bool {
        &&& self.beat_intervals@.len() <= MAX_INTERVALS
        &&& forall|i: int|
            0 <= i < self.beat_intervals@.len() ==> MIN_INTERVAL_US < #[trigger] self.beat_intervals@[i] < MAX_INTERVAL_US
        &&& self.last_beat_time <= self.current_time
        &&& 1 <= self.estimated_bpm <= 200_000_000
    }

    /// A fresh estimator at the default tempo with no recorded beats.
    pub fn new() -> (r: Self)
        ensures
            r.wf(),
            r.beat_intervals@ == Seq::<u64>::empty(),
            r.last_beat_time == 0,
            r.current_time == 0,
            r.estimated_bpm == DEFAULT_BPM,
    {
        TempoDetector {
            beat_intervals: Vec::new(),
            last_beat_time: 0,
            current_time: 0,
            estimated_bpm: DEFAULT_BPM,
        }
    }

    /// Advance time; on a detected beat, record the interval since the
    /// previous beat if it is plausible and re-estimate the tempo from the
    /// retained intervals. Without a beat (or with an implausible or first
    /// interval) the estimate stands.
    pub fn update(&mut self, beat_detected: bool, time_delta_us: u64)
        requires
            old(self).wf(),
            old(self).current_time + time_delta_us <= u64::MAX,
        ensures
            final(self).wf(),
            final(self).current_time == old(self).current_time + time_delta_us,
            !beat_detected ==> {
                &&& final(self).beat_intervals@ == old(self).beat_intervals@
                &&& final(self).last_beat_time == old(self).last_beat_time
                &&& final(self).estimated_bpm == old(self).estimated_bpm
            },
            beat_detected ==> final(self).last_beat_time == final(self).current_time,
            beat_detected ==> {
                let interval = final(self).current_time - old(self).last_beat_time;
                if old(self).last_beat_time > 0 && MIN_INTERVAL_US < interval < MAX_INTERVAL_US {
                    &&& final(self).beat_intervals@ == slide_intervals(
                        old(self).beat_intervals@,
                        interval as u64,
                    )
                    &&& final(self).estimated_bpm == bpm_of_intervals(final(self).beat_intervals@)
                } else {
                    &&& final(self).beat_intervals@ == old(self).beat_intervals@
                    &&& final(self).estimated_bpm == old(self).estimated_bpm
                }
            },
    {
        self.current_time = self.current_time + time_delta_us;

        if beat_detected {
            if self.last_beat_time > 0 {
                let interval: u64 = self.current_time - self.last_beat_time;
                if interval > MIN_INTERVAL_US && interval < MAX_INTERVAL_US {
                    self.beat_intervals.push(interval);
                    if self.beat_intervals.len() > MAX_INTERVALS {
                        self.beat_intervals.remove(0);
                        proof {
                            assert(self.beat_intervals@ =~= slide_intervals(
                                old(self).beat_intervals@,
                                interval,
                            ));
                        }
                    }
                    self.estimated_bpm = intervals_to_bpm(&self.beat_intervals);
                }
            }
            self.last_beat_time = self.current_time;
        }
    }
}

/// The tempo a non-empty window of plausible intervals estimates.
fn intervals_to_bpm(v: &Vec<u64>) -> (r: u64)
    requires
        1 <= v@.len() <= MAX_INTERVALS,
        forall|i: int| 0 <= i < v@.len() ==> MIN_INTERVAL_US < #[trigger] v@[i] < MAX_INTERVAL_US,
    ensures
        r == bpm_of_intervals(v@),
        1 <= r <= 200_000_000,
{
    let mut total: u64 = 0;
    let mut i: usize = 0;
    proof {
        lemma_sum64_bounded(v@, MAX_INTERVAL_US as int);
    }
    while i < v.len()
        invariant
            i <= v@.len(),
            v@.len() <= MAX_INTERVALS,
            forall|j: int| 0 <= j < v@.len() ==> MIN_INTERVAL_US < #[trigger] v@[j] < MAX_INTERVAL_US,
            total == sum64(v@.subrange(0, i as int)),
            total <= i * (MAX_INTERVAL_US as int),
        decreases v@.len() - i,
    {
        proof {
            lemma_sum64_step(v@, i as int);
        }
        total = total + v[i];
        i = i + 1;
    }
    proof {
        assert(v@.subrange(0, v@.len() as int) =~= v@);
    }
    let m: u64 = total / (v.len() as u64);
    proof {
        let len = v@.len() as int;
        lemma_sum64_lower(v@, MIN_INTERVAL_US as int + 1);
        lemma_sum64_bounded(v@, MAX_INTERVAL_US as int - 1);
        assert(sum64(v@) < len * (MAX_INTERVAL_US as int)) by (nonlinear_arith)
            requires
                sum64(v@) <= len * (MAX_INTERVAL_US as int - 1),
                len >= 1,
        ;
        vstd::arithmetic::div_mod::lemma_multiply_divide_lt(sum64(v@), len, MAX_INTERVAL_US as int);
        vstd::arithmetic::div_mod::lemma_div_is_ordered(
            len * (MIN_INTERVAL_US as int + 1),
            sum64(v@),
            len,
        );
        vstd::arithmetic::div_mod::lemma_div_multiples_vanish(MIN_INTERVAL_US as int + 1, len);
        assert(MIN_INTERVAL_US < mean_of(v@) < MAX_INTERVAL_US);
        vstd::arithmetic::div_mod::lemma_div_is_ordered_by_denominator(
            MINUTE_US_MICRO as int,
            MIN_INTERVAL_US as int + 1,
            m as int,
        );
        vstd::arithmetic::div_mod::lemma_div_is_ordered_by_denominator(
            MINUTE_US_MICRO as int,
            m as int,
            MAX_INTERVAL_US as int,
        );
    }
    MINUTE_US_MICRO / m
}

/// A sum of values at least `b` is at least `len * b`.
proof fn lemma_sum64_lower(s: Seq<u64>, b: int)
    requires
        forall|i: int| 0 <= i < s.len() ==> s[i] >= b,
    ensures
        sum64(s) >= s.len() * b,
    decreases s.len(),
{
    if s.len() > 0 {
        lemma_sum64_lower(s.drop_last(), b);
        assert((s.len() - 1) * b + b == s.len() * b) by (nonlinear_arith);
    }
}

} // verus!
