//! Adaptive-threshold onset detection over rolling band-energy histories,
//! with refractory gating.

use vstd::prelude::*;
use vstd::arithmetic::div_mod::lemma_div_is_ordered_by_denominator;
use crate::fixed::{isqrt, sqrt_floor};
use crate::seqsum::{
    lemma_sq_dev_sum64_bounded, lemma_sq_dev_sum64_step, lemma_sum64_bounded, mean_of, sum64,
    vec_sum64,
};

verus! {

/// Refractory period: a beat cannot be reported again until this many
/// microseconds have passed since the last reported beat (0.3 s).
pub const MIN_BEAT_INTERVAL_US: u64 = 300_000;

/// Startup grace: no beat is ever reported with fewer history entries.
pub const MIN_HISTORY: usize = 10;

/// Largest band energy the detector accepts, in pico-units (10.0); far above
/// anything a magnitude spectrum of `[-1, 1]` samples can produce.
pub const ENERGY_CAP: u64 = 10_000_000_000_000;

/// Largest energy a history entry can hold (kick weighting of two capped
/// bands stays below 3x the cap).
pub const HISTORY_ENERGY_CAP: u64 = 30_000_000_000_000;

/// Absolute floor the plain bass energy must clear (0.01), rejecting
/// near-silence false positives.
pub const BASS_ENERGY_FLOOR: u64 = 10_000_000_000;

/// Absolute floor the kick-weighted energy must clear (0.015).
pub const KICK_ENERGY_FLOOR: u64 = 15_000_000_000;

/// Reported beat strength is clamped to `[0, 5]` in micro-units.
pub const MAX_BEAT_STRENGTH: u32 = 5_000_000;

/// Denominator floor (0.001 in pico-units) when rating an energy against its
/// running average.
pub const AVG_DENOMINATOR_FLOOR: u64 = 1_000_000_000;

/// Plain bass energy of a window: bass plus sub-bass.
pub open spec fn bass_energy_of(bass: u64, sub_bass: u64) -> int {
    bass + sub_bass
}

/// Kick-weighted energy of a window: `1.5 * bass + 0.8 * sub_bass`.
pub open spec fn kick_energy_of(bass: u64, sub_bass: u64) -> int {
    (15 * bass + 8 * sub_bass) / 10
}

/// A history after one step: the new energy appended, the oldest entry
/// evicted once the capacity is exceeded.
pub open spec fn slide(h: Seq<u64>, x: u64, cap: int) -> Seq<u64> {
    let p = h.push(x);
    if p.len() > cap {
        p.subrange(1, p.len() as int)
    } else {
        p
    }
}

/// Sample variance of a history around its mean (0 with fewer than two
/// entries), matching `variance_exec`.
pub open spec fn variance_of(h: Seq<u64>) -> int {
    if h.len() < 2 {
        0
    } else {
        crate::seqsum::sq_dev_sum64(h, mean_of(h)) / (h.len() - 1)
    }
}

/// Adaptive threshold for the plain bass energy: mean plus 1.5 standard
/// deviations.
pub open spec fn bass_threshold(h: Seq<u64>) -> int {
    mean_of(h) + sqrt_floor(variance_of(h)) * 3 / 2
}

/// Adaptive threshold for the kick-weighted energy: mean plus 2 standard
/// deviations.
pub open spec fn kick_threshold(h: Seq<u64>) -> int {
    mean_of(h) + sqrt_floor(variance_of(h)) * 2
}

/// The bass energy clears both its adaptive threshold and its absolute floor.
pub open spec fn bass_fires(h: Seq<u64>, e: int) -> bool {
    e > bass_threshold(h) && e > BASS_ENERGY_FLOOR
}

/// The kick energy clears both its adaptive threshold and its absolute floor.
pub open spec fn kick_fires(h: Seq<u64>, e: int) -> bool {
    e > kick_threshold(h) && e > KICK_ENERGY_FLOOR
}

/// A beat is reported exactly when the history has grown past the startup
/// grace, the refractory period has elapsed, and either energy fires.
/// `hb`/`hk` are the histories after the current energies were appended.
pub open spec fn beat_fired(hb: Seq<u64>, hk: Seq<u64>, eb: int, ek: int, elapsed: int) -> bool {
    &&& hb.len() >= MIN_HISTORY
    &&& elapsed > MIN_BEAT_INTERVAL_US
    &&& (bass_fires(hb, eb) || kick_fires(hk, ek))
}

/// An energy rated against its running average, in micro-units, with the
/// denominator floored away from zero.
pub open spec fn energy_ratio(e: int, avg: int) -> int {
    e * 1_000_000 / (if avg >= AVG_DENOMINATOR_FLOOR {
        avg
    } else {
        AVG_DENOMINATOR_FLOOR as int
    })
}

/// Reported strength of a fired beat: the mean of both energies' ratios to
/// their running averages, clamped to `[0, 5]`.
pub open spec fn beat_strength_of(hb: Seq<u64>, hk: Seq<u64>, eb: int, ek: int) -> int {
    let s = (energy_ratio(eb, mean_of(hb)) + energy_ratio(ek, mean_of(hk))) / 2;
    if s > MAX_BEAT_STRENGTH {
        MAX_BEAT_STRENGTH as int
    } else {
        s
    }
}

/// Adaptive-threshold beat detector over a rolling window history of roughly
/// half a second of analysis windows.
#[derive(Clone, Debug)]
pub struct BeatDetector {
    /// Plain bass energies, oldest first.
    pub bass_history: Vec<u64>,
    /// Kick-weighted energies, oldest first.
    pub kick_history: Vec<u64>,
    /// Time of the last reported beat, in microseconds (0 before any beat).
    pub last_beat_time: u64,
    /// Simulated time elapsed, in microseconds.
    pub time_counter: u64,
    /// Duration of one analysis window, in microseconds.
    pub window_us: u64,
    /// History capacity: about half a second of windows.
    pub history_size: usize,
}

impl BeatDetector {
    /// Histories stay within capacity and energy bounds, and time only moves
    /// forward past the last reported beat.
    pub open spec fn wf(self) -> bool {
        &&& self.bass_history@.len() == self.kick_history@.len()
        &&& self.bass_history@.len() <= self.history_size
        &&& self.history_size <= u32::MAX
        &&& forall|i: int|
            0 <= i < self.bass_history@.len() ==> self.bass_history@[i] <= HISTORY_ENERGY_CAP
        &&& forall|i: int|
            0 <= i < self.kick_history@.len() ==> self.kick_history@[i] <= HISTORY_ENERGY_CAP
        &&& self.window_us >= 1
        &&& self.last_beat_time <= self.time_counter
    }

    /// A detector for windows of `chunk_size` samples at `sample_rate` Hz,
    /// with empty histories and a capacity of about half a second of windows.
    pub fn new(sample_rate: u32, chunk_size: usize) -> (r: Self)
        requires
            1 <= sample_rate,
            1 <= chunk_size <= 1_000_000,
            sample_rate <= chunk_size * 1_000_000,
        ensures
            r.wf(),
            r.bass_history@ == Seq::<u64>::empty(),
            r.kick_history@ == Seq::<u64>::empty(),
            r.last_beat_time == 0,
            r.time_counter == 0,
            r.window_us == chunk_size * 1_000_000 / (sample_rate as int),
            r.history_size == (sample_rate as int) / 2 / (chunk_size as int),
    {
        let window_us: u64 = (chunk_size as u64) * 1_000_000 / (sample_rate as u64);
        let history_size: usize = ((sample_rate / 2) as usize) / chunk_size;
        proof {
            assert(window_us >= 1) by (nonlinear_arith)
                requires
                    window_us == (chunk_size as int) * 1_000_000 / (sample_rate as int),
                    sample_rate >= 1,
                    (chunk_size as int) * 1_000_000 >= sample_rate,
            ;
            assert(history_size <= u32::MAX) by (nonlinear_arith)
                requires
                    history_size == ((sample_rate as int) / 2) / (chunk_size as int),
                    1 <= chunk_size,
                    0 <= sample_rate <= u32::MAX,
            ;
        }
        BeatDetector {
            bass_history: Vec::new(),
            kick_history: Vec::new(),
            last_beat_time: 0,
            time_counter: 0,
            window_us,
            history_size,
        }
    }

    /// Advance simulated time by one window, fold the window's band energies
    /// into the histories, and report whether a beat fires and how strongly.
    ///
    /// A reported beat always lies more than `MIN_BEAT_INTERVAL_US` after the
    /// previously reported one (refractory gating), and nothing is reported
    /// during the startup grace or when both energies stay at or below their
    /// thresholds or floors.
    pub fn detect_beat(&mut self, bass: u64, sub_bass: u64) -> (r: (bool, u32))
        requires
            old(self).wf(),
            bass <= ENERGY_CAP,
            sub_bass <= ENERGY_CAP,
            old(self).time_counter + old(self).window_us <= u64::MAX,
        ensures
            final(self).wf(),
            final(self).window_us == old(self).window_us,
            final(self).history_size == old(self).history_size,
            final(self).time_counter == old(self).time_counter + old(self).window_us,
            final(self).bass_history@ == slide(
                old(self).bass_history@,
                (bass + sub_bass) as u64,
                old(self).history_size as int,
            ),
            final(self).kick_history@ == slide(
                old(self).kick_history@,
                kick_energy_of(bass, sub_bass) as u64,
                old(self).history_size as int,
            ),
            r.0 == beat_fired(
                final(self).bass_history@,
                final(self).kick_history@,
                bass_energy_of(bass, sub_bass),
                kick_energy_of(bass, sub_bass),
                final(self).time_counter - old(self).last_beat_time,
            ),
            r.0 ==> final(self).time_counter - old(self).last_beat_time > MIN_BEAT_INTERVAL_US,
            r.0 ==> final(self).last_beat_time == final(self).time_counter,
            !r.0 ==> final(self).last_beat_time == old(self).last_beat_time,
            r.1 as int == (if r.0 {
                beat_strength_of(
                    final(self).bass_history@,
                    final(self).kick_history@,
                    bass_energy_of(bass, sub_bass),
                    kick_energy_of(bass, sub_bass),
                )
            } else {
                0
            }),
            r.1 <= MAX_BEAT_STRENGTH,
    {
        self.time_counter = self.time_counter + self.window_us;

        let bass_energy: u64 = bass + sub_bass;
        let kick_energy: u64 = (15 * bass + 8 * sub_bass) / 10;

        self.bass_history.push(bass_energy);
        if self.bass_history.len() > self.history_size {
            self.bass_history.remove(0);
            proof {
                assert(self.bass_history@ =~= slide(
                    old(self).bass_history@,
                    bass_energy,
                    self.history_size as int,
                ));
            }
        }
        self.kick_history.push(kick_energy);
        if self.kick_history.len() > self.history_size {
            self.kick_history.remove(0);
            proof {
                assert(self.kick_history@ =~= slide(
                    old(self).kick_history@,
                    kick_energy,
                    self.history_size as int,
                ));
            }
        }

        if self.bass_history.len() < MIN_HISTORY {
            return (false, 0u32);
        }

        let bass_avg = history_mean(&self.bass_history);
        let kick_avg = history_mean(&self.kick_history);

        let bass_variance = history_variance(&self.bass_history, bass_avg);
        let kick_variance = history_variance(&self.kick_history, kick_avg);

        let bass_sd = isqrt(bass_variance);
        let kick_sd = isqrt(kick_variance);
        proof {
            assert((bass_sd as int) <= 2 * HISTORY_ENERGY_CAP) by (nonlinear_arith)
                requires
                    bass_sd * bass_sd <= 2 * ((HISTORY_ENERGY_CAP as int) * (HISTORY_ENERGY_CAP
                        as int)),
                    bass_sd >= 0,
            ;
            assert((kick_sd as int) <= 2 * HISTORY_ENERGY_CAP) by (nonlinear_arith)
                requires
                    kick_sd * kick_sd <= 2 * ((HISTORY_ENERGY_CAP as int) * (HISTORY_ENERGY_CAP
                        as int)),
                    kick_sd >= 0,
            ;
        }

        let bass_thr: u64 = bass_avg + bass_sd * 3 / 2;
        let kick_thr: u64 = kick_avg + kick_sd * 2;

        let elapsed: u64 = self.time_counter - self.last_beat_time;
        let can_beat = elapsed > MIN_BEAT_INTERVAL_US;

        let bass_beat = bass_energy > bass_thr && bass_energy > BASS_ENERGY_FLOOR;
        let kick_beat = kick_energy > kick_thr && kick_energy > KICK_ENERGY_FLOOR;
        let detected = can_beat && (bass_beat || kick_beat);

        let strength: u32 = if detected {
            let rb = rate_energy(bass_energy, bass_avg);
            let rk = rate_energy(kick_energy, kick_avg);
            let s = (rb + rk) / 2;
            if s > MAX_BEAT_STRENGTH as u64 {
                MAX_BEAT_STRENGTH
            } else {
                s as u32
            }
        } else {
            0u32
        };

        if detected {
            self.last_beat_time = self.time_counter;
        }

        (detected, strength)
    }
}

/// Mean of a non-empty energy history.
fn history_mean(v: &Vec<u64>) -> (r: u64)
    requires
        v@.len() >= 1,
        v@.len() <= u32::MAX,
        forall|i: int| 0 <= i < v@.len() ==> v@[i] <= HISTORY_ENERGY_CAP,
    ensures
        r == mean_of(v@),
        r <= HISTORY_ENERGY_CAP,
{
    proof {
        lemma_sum64_bounded(v@, HISTORY_ENERGY_CAP as int);
        assert(v@.len() * (HISTORY_ENERGY_CAP as int) <= u128::MAX) by (nonlinear_arith)
            requires
                v@.len() <= u32::MAX,
        ;
    }
    let total = vec_sum64(v);
    let len = v.len() as u128;
    let m = total / len;
    proof {
        assert(sum64(v@) / v@.len() as int <= HISTORY_ENERGY_CAP) by (nonlinear_arith)
            requires
                0 <= sum64(v@) <= v@.len() * (HISTORY_ENERGY_CAP as int),
                v@.len() >= 1,
        ;
    }
    m as u64
}

/// Sample variance of an energy history around its mean (0 with fewer than
/// two entries).
fn history_variance(v: &Vec<u64>, m: u64) -> (r: u128)
    requires
        v@.len() <= u32::MAX,
        forall|i: int| 0 <= i < v@.len() ==> v@[i] <= HISTORY_ENERGY_CAP,
        m == mean_of(v@),
        m <= HISTORY_ENERGY_CAP,
    ensures
        r == variance_of(v@),
        r <= 2 * ((HISTORY_ENERGY_CAP as int) * (HISTORY_ENERGY_CAP as int)),
{
    if v.len() < 2 {
        return 0;
    }
    let mut acc: u128 = 0;
    let mut i: usize = 0;
    proof {
        lemma_sq_dev_sum64_bounded(v@, m as int, HISTORY_ENERGY_CAP as int);
    }
    while i < v.len()
        invariant
            i <= v@.len(),
            v@.len() <= u32::MAX,
            m <= HISTORY_ENERGY_CAP,
            forall|j: int| 0 <= j < v@.len() ==> v@[j] <= HISTORY_ENERGY_CAP,
            acc as int == crate::seqsum::sq_dev_sum64(v@.subrange(0, i as int), m as int),
            acc <= i * ((HISTORY_ENERGY_CAP as int) * (HISTORY_ENERGY_CAP as int)),
        decreases v@.len() - i,
    {
        let x = v[i];
        let d: u64 = if x >= m {
            x - m
        } else {
            m - x
        };
        proof {
            lemma_sq_dev_sum64_step(v@, m as int, i as int);
            assert((d as int) * (d as int) == (v@[i as int] - m) * (v@[i as int] - m))
                by (nonlinear_arith)
                requires
                    d == (if v@[i as int] >= m {
                        v@[i as int] - m
                    } else {
                        m - v@[i as int]
                    }),
            ;
            assert((d as int) * (d as int) <= (HISTORY_ENERGY_CAP as int) * (HISTORY_ENERGY_CAP
                as int)) by (nonlinear_arith)
                requires
                    0 <= d <= HISTORY_ENERGY_CAP,
            ;
            assert((i + 1) * ((HISTORY_ENERGY_CAP as int) * (HISTORY_ENERGY_CAP as int)) == i * (
            (HISTORY_ENERGY_CAP as int) * (HISTORY_ENERGY_CAP as int)) + (HISTORY_ENERGY_CAP as int)
                * (HISTORY_ENERGY_CAP as int)) by (nonlinear_arith);
            assert(u32::MAX * ((HISTORY_ENERGY_CAP as int) * (HISTORY_ENERGY_CAP as int))
                <= u128::MAX) by (nonlinear_arith);
            assert(i * ((HISTORY_ENERGY_CAP as int) * (HISTORY_ENERGY_CAP as int)) <= u32::MAX * (
            (HISTORY_ENERGY_CAP as int) * (HISTORY_ENERGY_CAP as int))) by (nonlinear_arith)
                requires
                    0 <= i <= u32::MAX,
            ;
        }
        acc = acc + (d as u128) * (d as u128);
        i = i + 1;
    }
    proof {
        assert(v@.subrange(0, v@.len() as int) =~= v@);
    }
    let den = (v.len() - 1) as u128;
    let r = acc / den;
    proof {
        let cap2 = (HISTORY_ENERGY_CAP as int) * (HISTORY_ENERGY_CAP as int);
        assert(acc as int <= 2 * (v@.len() - 1) * cap2) by (nonlinear_arith)
            requires
                acc as int <= v@.len() * cap2,
                v@.len() >= 2,
                cap2 >= 0,
        ;
        vstd::arithmetic::div_mod::lemma_div_is_ordered(
            acc as int,
            2 * (v@.len() - 1) * cap2,
            v@.len() - 1,
        );
        assert(2 * (v@.len() - 1) * cap2 / (v@.len() - 1) == 2 * cap2) by (nonlinear_arith)
            requires
                v@.len() >= 2,
        ;
    }
    r
}

/// Rate an energy against its running average, in micro-units.
fn rate_energy(e: u64, avg: u64) -> (r: u64)
    requires
        e <= HISTORY_ENERGY_CAP,
    ensures
        r == energy_ratio(e as int, avg as int),
        r <= 30_000_000_000,
{
    let den: u64 = if avg >= AVG_DENOMINATOR_FLOOR {
        avg
    } else {
        AVG_DENOMINATOR_FLOOR
    };
    let wide: u128 = (e as u128) * 1_000_000 / (den as u128);
    proof {
        lemma_div_is_ordered_by_denominator(
            (e as int) * 1_000_000,
            AVG_DENOMINATOR_FLOOR as int,
            den as int,
        );
        assert((e as int) * 1_000_000 / (AVG_DENOMINATOR_FLOOR as int) <= 30_000_000_000)
            by (nonlinear_arith)
            requires
                0 <= e <= HISTORY_ENERGY_CAP,
        ;
    }
    wide as u64
}

} // verus!
