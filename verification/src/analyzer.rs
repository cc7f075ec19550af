//! The CPU analysis backend: raw feature extraction from a window's samples
//! and magnitude spectrum, with per-window state (previous spectrum, volume
//! history) and integrated beat and tempo tracking.
//!
//! The windowed forward transform itself runs outside the crate; this module
//! receives the magnitude spectrum as fixed-point pico-unit values.

use vstd::prelude::*;
use vstd::arithmetic::div_mod::{
    lemma_div_is_ordered, lemma_div_is_ordered_by_denominator, lemma_multiply_divide_le,
};
use crate::beat::{slide, BeatDetector};
use crate::features::RawAudioFeatures;
use crate::fixed::sqrt_floor;
use crate::seqsum::{
    abs_diff_sum64, lemma_abs_diff_sum64_bounded, lemma_abs_diff_sum64_step,
    lemma_max_min_of_bounded, lemma_max_of_step, lemma_min_of_step, lemma_sq_sum64_bounded,
    lemma_sq_sum64_step, lemma_sq_sum_i64_bounded, lemma_sq_sum_i64_step, lemma_sum64_bounded,
    lemma_sum64_step, lemma_sum64_step_from, lemma_weighted_sum64_bounded,
    lemma_weighted_sum64_step, lemma_zero_crossings_bounded, lemma_zero_crossings_step, max_of,
    min_of, sq_sum64, sq_sum_i64, sum64, weighted_sum64, zero_crossings,
};
use crate::tempo::TempoDetector;

verus! {

/// Largest magnitude accepted in a spectrum, in pico-units (4.0); a windowed
/// transform of `[-1, 1]` samples stays well below this.
pub const MAX_MAGNITUDE: u64 = 4_000_000_000_000;

/// Largest supported analysis window, in samples.
pub const MAX_CHUNK: usize = 65_536;

/// Smallest supported analysis window, in samples.
pub const MIN_CHUNK: usize = 2;

/// Largest supported sample rate, in Hz.
pub const MAX_SAMPLE_RATE: u32 = 1_000_000;

/// One full unit of sample amplitude, in micro-units.
pub const SAMPLE_UNIT: i64 = 1_000_000;

/// Number of recent window volumes retained for dynamic-range estimation.
pub const VOLUME_HISTORY_CAP: usize = 100;

/// Band edges in Hz: sub-bass up to 60, bass to 250, mid to 4000, treble to
/// 12000, presence to 20000.
pub const SUB_BASS_EDGE_HZ: u64 = 60;

pub const BASS_EDGE_HZ: u64 = 250;

pub const MID_EDGE_HZ: u64 = 4_000;

pub const TREBLE_EDGE_HZ: u64 = 12_000;

pub const PRESENCE_EDGE_HZ: u64 = 20_000;

/// End (exclusive) of the bin range whose frequency lies at or below `hz`:
/// bin `i` carries `i * rate / chunk` Hz.
pub open spec fn hz_bin_end(hz: int, rate: int, chunk: int, len: int) -> int {
    let e = hz * chunk / rate + 1;
    if e > len {
        len
    } else {
        e
    }
}

/// Average magnitude over the bin range `[a, b)` (zero if the range is
/// empty).
pub open spec fn band_avg(s: Seq<u64>, a: int, b: int) -> int {
    if a < b {
        sum64(s.subrange(a, b)) / (b - a)
    } else {
        0
    }
}

/// Magnitude-weighted mean bin frequency, in pico-Hz (zero on an all-zero
/// spectrum).
pub open spec fn centroid_pico(s: Seq<u64>, rate: int, chunk: int) -> int {
    if sum64(s) == 0 {
        0
    } else {
        weighted_sum64(s) * 1_000_000_000_000 / (sum64(s) * chunk) * rate
    }
}

/// First bin at which cumulative squared magnitude reaches 85% of the total
/// (the sequence length when never reached).
pub open spec fn rolloff_bin_from(s: Seq<u64>, i: int) -> int
    decreases s.len() - i,
{
    if i < 0 || i >= s.len() {
        s.len() as int
    } else if 100 * sq_sum64(s.subrange(0, i + 1)) >= 85 * sq_sum64(s) {
        i
    } else {
        rolloff_bin_from(s, i + 1)
    }
}

/// Spectral rolloff frequency in pico-Hz: the frequency of the 85%-energy
/// bin, or the Nyquist frequency when never reached.
pub open spec fn rolloff_pico(s: Seq<u64>, rate: int, chunk: int) -> int {
    let b = rolloff_bin_from(s, 0);
    if b < s.len() {
        b * rate * 1_000_000_000_000 / chunk
    } else {
        rate * 1_000_000_000_000 / 2
    }
}

/// Sign-change count over sample count, in pico-units.
pub open spec fn zcr_pico(samples: Seq<i64>) -> int
    recommends
        samples.len() > 0,
{
    zero_crossings(samples) * 1_000_000_000_000 / samples.len() as int
}

/// Mean absolute magnitude difference against the previous spectrum, in
/// pico-units; zero on the first window or a length mismatch.
pub open spec fn flux_pico(s: Seq<u64>, prev: Seq<u64>) -> int {
    if s.len() == prev.len() && s.len() > 0 {
        abs_diff_sum64(s, prev) / s.len() as int
    } else {
        0
    }
}

/// Number of low bins (the lowest fifth, at least one) considered for onset
/// strength.
pub open spec fn onset_bins(len: int) -> int {
    if len / 5 >= 1 {
        len / 5
    } else {
        1
    }
}

/// Positive-only energy delta of the lowest bins versus the previous window,
/// averaged over those bins, in pico-units.
pub open spec fn onset_pico(s: Seq<u64>, prev: Seq<u64>) -> int
    recommends
        s.len() > 0,
{
    let k = onset_bins(s.len() as int);
    let cur = sum64(s.subrange(0, k));
    let pre = if prev.len() == s.len() {
        sum64(prev.subrange(0, k))
    } else {
        0
    };
    if cur > pre {
        (cur - pre) / k
    } else {
        0
    }
}

/// Squared magnitude of a bin rescaled to pico-units of energy.
pub open spec fn bin_energy(m: u64) -> int {
    m * m / 1_000_000_000_000
}

/// Total energy of a spectrum: the sum of its bins' pico-unit energies.
pub open spec fn energy_sum(s: Seq<u64>) -> int
    decreases s.len(),
{
    if s.len() == 0 {
        0
    } else {
        energy_sum(s.drop_last()) + bin_energy(s.last())
    }
}

/// Energy contribution of bin `i` when its second harmonic bin carries more
/// than 30% of its squared magnitude.
pub open spec fn harmonic_contrib(s: Seq<u64>, i: int) -> int
    recommends
        0 <= i < s.len(),
{
    if 2 * i < s.len() && 10 * (s[2 * i] * s[2 * i]) > 3 * (s[i] * s[i]) {
        bin_energy(s[i])
    } else {
        0
    }
}

/// Harmonic energy gathered over bins `[1, i)`.
pub open spec fn harmonic_prefix(s: Seq<u64>, i: int) -> int
    decreases i,
{
    if i <= 1 {
        0
    } else {
        harmonic_prefix(s, i - 1) + harmonic_contrib(s, i - 1)
    }
}

/// Ratio of harmonic energy (bins below an eighth of the spectrum whose
/// second harmonic is present) to total energy, in pico-units, clamped to
/// one.
pub open spec fn pitch_confidence_pico(s: Seq<u64>) -> int {
    let total = energy_sum(s);
    if total == 0 {
        0
    } else {
        let q = harmonic_prefix(s, s.len() as int / 8) * 1_000_000_000_000 / total;
        if q > 1_000_000_000_000 {
            1_000_000_000_000int
        } else {
            q
        }
    }
}

/// RMS volume of a window, in pico-units.
pub open spec fn volume_pico(samples: Seq<i64>) -> int
    recommends
        samples.len() > 0,
{
    sqrt_floor(sq_sum_i64(samples) / samples.len() as int) * 1_000_000
}

/// Spread between the loudest and quietest recent window (zero until two
/// windows have been seen), in pico-units.
pub open spec fn dynamic_range_pico(hist: Seq<u64>) -> int {
    if hist.len() < 2 {
        0
    } else {
        max_of(hist) - min_of(hist)
    }
}

/// Raw beat-strength energy of a window: bass plus half the sub-bass.
pub open spec fn raw_beat_strength(bass: int, sub_bass: int) -> int {
    bass + sub_bass / 2
}

/// Every magnitude lies at or below the accepted cap.
pub open spec fn spectrum_ok(s: Seq<u64>) -> bool {
    forall|i: int| 0 <= i < s.len() ==> #[trigger] s[i] <= MAX_MAGNITUDE
}

/// Every sample lies within one full unit of amplitude.
pub open spec fn samples_ok(s: Seq<i64>) -> bool {
    forall|i: int| 0 <= i < s.len() ==> -SAMPLE_UNIT <= #[trigger] s[i] <= SAMPLE_UNIT
}

/// The window padded with trailing zero samples up to the analysis length.
pub open spec fn zero_pad(s: Seq<i64>, n: int) -> Seq<i64> {
    if s.len() >= n {
        s
    } else {
        s + Seq::new((n - s.len()) as nat, |i: int| 0i64)
    }
}

/// Sum of the magnitudes in the bin range `[a, b)`.
fn sum_range(v: &Vec<u64>, a: usize, b: usize) -> (r: u128)
    requires
        a <= b <= v@.len(),
        v@.len() <= MAX_CHUNK,
        spectrum_ok(v@),
    ensures
        r == sum64(v@.subrange(a as int, b as int)),
        r <= (b - a) * (MAX_MAGNITUDE as int),
{
    let mut acc: u128 = 0;
    let mut j: usize = a;
    proof {
        assert(v@.subrange(a as int, a as int) =~= Seq::<u64>::empty());
    }
    while j < b
        invariant
            a <= j <= b <= v@.len(),
            spectrum_ok(v@),
            acc == sum64(v@.subrange(a as int, j as int)),
            acc <= (j - a) * (MAX_MAGNITUDE as int),
        decreases b - j,
    {
        proof {
            lemma_sum64_step_from(v@, a as int, j as int);
            assert((j - a) * (MAX_MAGNITUDE as int) + MAX_MAGNITUDE == (j + 1 - a) * (MAX_MAGNITUDE
                as int)) by (nonlinear_arith);
        }
        acc = acc + (v[j] as u128);
        j = j + 1;
    }
    acc
}

/// Average magnitude over the bin range `[a, b)` (zero if empty).
fn band_avg_exec(v: &Vec<u64>, a: usize, b: usize) -> (r: u64)
    requires
        a <= b <= v@.len(),
        v@.len() <= MAX_CHUNK,
        spectrum_ok(v@),
    ensures
        r == band_avg(v@, a as int, b as int),
        r <= MAX_MAGNITUDE,
{
    if a >= b {
        return 0;
    }
    let total = sum_range(v, a, b);
    let count = (b - a) as u128;
    proof {
        lemma_multiply_divide_le(total as int, (b - a) as int, MAX_MAGNITUDE as int);
        assert((b - a) * (MAX_MAGNITUDE as int) == (MAX_MAGNITUDE as int) * ((b - a) as int))
            by (nonlinear_arith);
    }
    (total / count) as u64
}

/// Index-weighted magnitude sum of the whole spectrum.
fn weighted_sum_exec(v: &Vec<u64>) -> (r: u128)
    requires
        v@.len() <= MAX_CHUNK,
        spectrum_ok(v@),
    ensures
        r == weighted_sum64(v@),
        r <= v@.len() * sum64(v@),
{
    let mut acc: u128 = 0;
    let mut j: usize = 0;
    proof {
        assert(v@.subrange(0, 0) =~= Seq::<u64>::empty());
        lemma_weighted_sum64_bounded(v@);
        lemma_sum64_bounded(v@, MAX_MAGNITUDE as int);
    }
    while j < v.len()
        invariant
            j <= v@.len(),
            v@.len() <= MAX_CHUNK,
            spectrum_ok(v@),
            acc == weighted_sum64(v@.subrange(0, j as int)),
            acc <= j * ((MAX_CHUNK as int) * (MAX_MAGNITUDE as int)),
        decreases v@.len() - j,
    {
        proof {
            lemma_weighted_sum64_step(v@, j as int);
            assert((j as int) * (v@[j as int] as int) <= (MAX_CHUNK as int) * (MAX_MAGNITUDE
                as int)) by (nonlinear_arith)
                requires
                    0 <= j <= MAX_CHUNK,
                    0 <= v@[j as int] <= MAX_MAGNITUDE,
            ;
            assert(j * ((MAX_CHUNK as int) * (MAX_MAGNITUDE as int)) + (MAX_CHUNK as int) * (
            MAX_MAGNITUDE as int) == (j + 1) * ((MAX_CHUNK as int) * (MAX_MAGNITUDE as int)))
                by (nonlinear_arith);
            assert((MAX_CHUNK as int) * ((MAX_CHUNK as int) * (MAX_MAGNITUDE as int))
                <= u128::MAX - 1) by (nonlinear_arith);
            assert(j * ((MAX_CHUNK as int) * (MAX_MAGNITUDE as int)) <= (MAX_CHUNK as int) * ((
            MAX_CHUNK as int) * (MAX_MAGNITUDE as int))) by (nonlinear_arith)
                requires
                    0 <= j <= MAX_CHUNK,
            ;
        }
        acc = acc + (j as u128) * (v[j] as u128);
        j = j + 1;
    }
    proof {
        assert(v@.subrange(0, v@.len() as int) =~= v@);
    }
    acc
}

/// Sum of squared magnitudes of the whole spectrum.
fn sq_sum_exec(v: &Vec<u64>) -> (r: u128)
    requires
        v@.len() <= MAX_CHUNK,
        spectrum_ok(v@),
    ensures
        r == sq_sum64(v@),
        r <= v@.len() * ((MAX_MAGNITUDE as int) * (MAX_MAGNITUDE as int)),
{
    let mut acc: u128 = 0;
    let mut j: usize = 0;
    proof {
        assert(v@.subrange(0, 0) =~= Seq::<u64>::empty());
    }
    while j < v.len()
        invariant
            j <= v@.len(),
            v@.len() <= MAX_CHUNK,
            spectrum_ok(v@),
            acc == sq_sum64(v@.subrange(0, j as int)),
            acc <= j * ((MAX_MAGNITUDE as int) * (MAX_MAGNITUDE as int)),
        decreases v@.len() - j,
    {
        proof {
            lemma_sq_sum64_step(v@, j as int);
            assert((v@[j as int] as int) * (v@[j as int] as int) <= (MAX_MAGNITUDE as int) * (
            MAX_MAGNITUDE as int)) by (nonlinear_arith)
                requires
                    0 <= v@[j as int] <= MAX_MAGNITUDE,
            ;
            assert(j * ((MAX_MAGNITUDE as int) * (MAX_MAGNITUDE as int)) + (MAX_MAGNITUDE as int)
                * (MAX_MAGNITUDE as int) == (j + 1) * ((MAX_MAGNITUDE as int) * (MAX_MAGNITUDE
                as int))) by (nonlinear_arith);
            assert((MAX_CHUNK as int) * ((MAX_MAGNITUDE as int) * (MAX_MAGNITUDE as int))
                <= u128::MAX - 1) by (nonlinear_arith);
            assert(j * ((MAX_MAGNITUDE as int) * (MAX_MAGNITUDE as int)) <= (MAX_CHUNK as int) * ((
            MAX_MAGNITUDE as int) * (MAX_MAGNITUDE as int))) by (nonlinear_arith)
                requires
                    0 <= j <= MAX_CHUNK,
            ;
        }
        acc = acc + (v[j] as u128) * (v[j] as u128);
        j = j + 1;
    }
    proof {
        assert(v@.subrange(0, v@.len() as int) =~= v@);
    }
    acc
}

/// First bin reaching 85% of the spectrum's squared-magnitude energy, or the
/// length when never reached.
fn rolloff_bin_exec(v: &Vec<u64>) -> (r: usize)
    requires
        v@.len() <= MAX_CHUNK,
        spectrum_ok(v@),
    ensures
        r == rolloff_bin_from(v@, 0),
        r <= v@.len(),
{
    let total = sq_sum_exec(v);
    let mut cum: u128 = 0;
    let mut i: usize = 0;
    proof {
        assert(v@.subrange(0, 0) =~= Seq::<u64>::empty());
    }
    while i < v.len()
        invariant
            i <= v@.len(),
            v@.len() <= MAX_CHUNK,
            spectrum_ok(v@),
            total == sq_sum64(v@),
            total <= v@.len() * ((MAX_MAGNITUDE as int) * (MAX_MAGNITUDE as int)),
            cum == sq_sum64(v@.subrange(0, i as int)),
            cum <= total,
            rolloff_bin_from(v@, 0) == rolloff_bin_from(v@, i as int),
        decreases v@.len() - i,
    {
        proof {
            lemma_sq_sum64_step(v@, i as int);
            assert((v@[i as int] as int) * (v@[i as int] as int) <= (MAX_MAGNITUDE as int) * (
            MAX_MAGNITUDE as int)) by (nonlinear_arith)
                requires
                    0 <= v@[i as int] <= MAX_MAGNITUDE,
            ;
            lemma_sq_sum_prefix_le(v@, i as int + 1);
        }
        cum = cum + (v[i] as u128) * (v[i] as u128);
        proof {
            assert(100 * ((MAX_CHUNK as int) * ((MAX_MAGNITUDE as int) * (MAX_MAGNITUDE as int)))
                <= u128::MAX) by (nonlinear_arith);
            assert(total as int <= (MAX_CHUNK as int) * ((MAX_MAGNITUDE as int) * (MAX_MAGNITUDE
                as int))) by (nonlinear_arith)
                requires
                    total as int <= v@.len() * ((MAX_MAGNITUDE as int) * (MAX_MAGNITUDE as int)),
                    v@.len() <= MAX_CHUNK,
            ;
        }
        if 100 * cum >= 85 * total {
            return i;
        }
        i = i + 1;
    }
    i
}

/// A prefix of the squared-magnitude sum never exceeds the whole.
proof fn lemma_sq_sum_prefix_le(s: Seq<u64>, i: int)
    requires
        0 <= i <= s.len(),
    ensures
        sq_sum64(s.subrange(0, i)) <= sq_sum64(s),
    decreases s.len() - i,
{
    if i == s.len() {
        assert(s.subrange(0, i) =~= s);
    } else {
        lemma_sq_sum_prefix_le(s, i + 1);
        lemma_sq_sum64_step(s, i);
        assert(s[i] * s[i] >= 0) by (nonlinear_arith);
    }
}

/// Sign-change ratio of a window, in pico-units.
fn zcr_exec(samples: &Vec<i64>) -> (r: u64)
    requires
        1 <= samples@.len() <= MAX_CHUNK,
    ensures
        r == zcr_pico(samples@),
        r <= 1_000_000_000_000,
{
    let mut crossings: u64 = 0;
    let mut i: usize = 1;
    proof {
        lemma_zero_crossings_bounded(samples@);
        if samples@.len() >= 1 {
            assert(zero_crossings(samples@.subrange(0, 1)) == 0);
        }
    }
    while i < samples.len()
        invariant
            1 <= i <= samples@.len() || (samples@.len() <= 1 && i == 1),
            samples@.len() <= MAX_CHUNK,
            i <= samples@.len() ==> crossings == zero_crossings(samples@.subrange(0, i as int)),
            crossings <= i,
        decreases samples@.len() - i,
    {
        proof {
            lemma_zero_crossings_step(samples@, i as int);
        }
        if (samples[i] >= 0) != (samples[i - 1] >= 0) {
            crossings = crossings + 1;
        }
        i = i + 1;
    }
    proof {
        if samples@.len() >= 1 {
            assert(samples@.subrange(0, samples@.len() as int) =~= samples@);
        }
        lemma_multiply_divide_le(
            zero_crossings(samples@) * 1_000_000_000_000,
            samples@.len() as int,
            1_000_000_000_000,
        );
        assert(zero_crossings(samples@) * 1_000_000_000_000 <= samples@.len() as int
            * 1_000_000_000_000) by (nonlinear_arith)
            requires
                0 <= zero_crossings(samples@) <= samples@.len(),
        ;
    }
    let wide: u128 = (crossings as u128) * 1_000_000_000_000 / (samples.len() as u128);
    wide as u64
}

/// Mean absolute difference against the previous spectrum, in pico-units
/// (zero on a length mismatch).
fn flux_exec(cur: &Vec<u64>, prev: &Vec<u64>) -> (r: u64)
    requires
        cur@.len() <= MAX_CHUNK,
        spectrum_ok(cur@),
        spectrum_ok(prev@),
    ensures
        r == flux_pico(cur@, prev@),
        r <= MAX_MAGNITUDE,
{
    if cur.len() != prev.len() || cur.len() == 0 {
        return 0;
    }
    let mut acc: u128 = 0;
    let mut i: usize = 0;
    proof {
        assert(cur@.subrange(0, 0) =~= Seq::<u64>::empty());
        assert(prev@.subrange(0, 0) =~= Seq::<u64>::empty());
    }
    while i < cur.len()
        invariant
            i <= cur@.len(),
            cur@.len() == prev@.len(),
            cur@.len() <= MAX_CHUNK,
            spectrum_ok(cur@),
            spectrum_ok(prev@),
            acc == abs_diff_sum64(cur@.subrange(0, i as int), prev@.subrange(0, i as int)),
            acc <= i * (MAX_MAGNITUDE as int),
        decreases cur@.len() - i,
    {
        proof {
            lemma_abs_diff_sum64_step(cur@, prev@, i as int);
            assert(i * (MAX_MAGNITUDE as int) + MAX_MAGNITUDE == (i + 1) * (MAX_MAGNITUDE as int))
                by (nonlinear_arith);
        }
        let a = cur[i];
        let b = prev[i];
        let d: u64 = if a >= b {
            a - b
        } else {
            b - a
        };
        acc = acc + (d as u128);
        i = i + 1;
    }
    proof {
        assert(cur@.subrange(0, cur@.len() as int) =~= cur@);
        assert(prev@.subrange(0, prev@.len() as int) =~= prev@);
        lemma_multiply_divide_le(abs_diff_sum64(cur@, prev@), cur@.len() as int, MAX_MAGNITUDE
            as int);
        assert(cur@.len() * (MAX_MAGNITUDE as int) == (cur@.len() as int) * (MAX_MAGNITUDE as int));
    }
    (acc / (cur.len() as u128)) as u64
}

/// Positive-only low-bin energy delta versus the previous window, averaged
/// over the lowest fifth of the bins, in pico-units.
fn onset_exec(cur: &Vec<u64>, prev: &Vec<u64>) -> (r: u64)
    requires
        1 <= cur@.len() <= MAX_CHUNK,
        spectrum_ok(cur@),
        spectrum_ok(prev@),
    ensures
        r == onset_pico(cur@, prev@),
        r <= MAX_MAGNITUDE,
{
    let len = cur.len();
    let mut k: usize = len / 5;
    if k == 0 {
        k = 1;
    }
    let cur_sum = sum_range(cur, 0, k);
    let pre_sum: u128 = if prev.len() == cur.len() {
        sum_range(prev, 0, k)
    } else {
        0
    };
    if cur_sum > pre_sum {
        let delta = cur_sum - pre_sum;
        proof {
            lemma_multiply_divide_le(
                sum64(cur@.subrange(0, k as int)) - (if prev@.len() == cur@.len() {
                    sum64(prev@.subrange(0, k as int))
                } else {
                    0int
                }),
                k as int,
                MAX_MAGNITUDE as int,
            );
            assert(k * (MAX_MAGNITUDE as int) == (k as int) * (MAX_MAGNITUDE as int));
            crate::seqsum::lemma_sum64_nonneg(prev@.subrange(0, k as int));
        }
        (delta / (k as u128)) as u64
    } else {
        0
    }
}

/// Harmonic-presence confidence of a spectrum, in pico-units.
fn pitch_exec(v: &Vec<u64>) -> (r: u64)
    requires
        v@.len() <= MAX_CHUNK,
        spectrum_ok(v@),
    ensures
        r == pitch_confidence_pico(v@),
        r <= 1_000_000_000_000,
{
    let total = energy_sum_exec(v);
    if total == 0 {
        return 0;
    }
    let k8 = v.len() / 8;
    let mut acc: u64 = 0;
    let mut i: usize = 1;
    while i < k8
        invariant
            1 <= i,
            k8 == v@.len() as int / 8,
            i <= k8 || (k8 <= 1 && i == 1),
            v@.len() <= MAX_CHUNK,
            spectrum_ok(v@),
            total == energy_sum(v@),
            acc == harmonic_prefix(v@, i as int),
            acc <= i * (MAX_BIN_ENERGY as int),
        decreases k8 - i,
    {
        let mi = v[i];
        proof {
            assert(0 <= (mi as int) * (mi as int) <= (MAX_MAGNITUDE as int) * (MAX_MAGNITUDE
                as int)) by (nonlinear_arith)
                requires
                    0 <= mi <= MAX_MAGNITUDE,
            ;
            assert(10 * ((MAX_MAGNITUDE as int) * (MAX_MAGNITUDE as int)) <= u128::MAX)
                by (nonlinear_arith);
        }
        let sq_mi: u128 = (mi as u128) * (mi as u128);
        let hterm: u64 = if 2 * i < v.len() {
            let mh = v[2 * i];
            proof {
                assert(0 <= (mh as int) * (mh as int) <= (MAX_MAGNITUDE as int) * (MAX_MAGNITUDE
                    as int)) by (nonlinear_arith)
                    requires
                        0 <= mh <= MAX_MAGNITUDE,
                ;
            }
            let sq_mh: u128 = (mh as u128) * (mh as u128);
            if 10 * sq_mh > 3 * sq_mi {
                (sq_mi / 1_000_000_000_000) as u64
            } else {
                0
            }
        } else {
            0
        };
        proof {
            assert(hterm == harmonic_contrib(v@, i as int));
            assert(hterm <= MAX_BIN_ENERGY) by (nonlinear_arith)
                requires
                    hterm == harmonic_contrib(v@, i as int),
                    harmonic_contrib(v@, i as int) == 0 || harmonic_contrib(v@, i as int) == (v@[i
                        as int] as int) * (v@[i as int] as int) / 1_000_000_000_000,
                    0 <= v@[i as int] <= MAX_MAGNITUDE,
            ;
            assert(i * (MAX_BIN_ENERGY as int) + MAX_BIN_ENERGY == (i + 1) * (MAX_BIN_ENERGY
                as int)) by (nonlinear_arith);
            assert((MAX_CHUNK as int) * (MAX_BIN_ENERGY as int) < u64::MAX) by (nonlinear_arith);
            assert(i * (MAX_BIN_ENERGY as int) <= (MAX_CHUNK as int) * (MAX_BIN_ENERGY as int))
                by (nonlinear_arith)
                requires
                    0 <= i <= MAX_CHUNK,
            ;
        }
        acc = acc + hterm;
        i = i + 1;
    }
    let q: u128 = (acc as u128) * 1_000_000_000_000 / (total as u128);
    proof {
        lemma_harmonic_prefix_nonneg(v@, v@.len() as int / 8);
    }
    if q > 1_000_000_000_000 {
        1_000_000_000_000u64
    } else {
        q as u64
    }
}

/// Largest pico-unit energy a single capped bin can carry.
pub const MAX_BIN_ENERGY: u64 = 16_000_000_000_000;

/// Total pico-unit energy of a spectrum.
fn energy_sum_exec(v: &Vec<u64>) -> (r: u64)
    requires
        v@.len() <= MAX_CHUNK,
        spectrum_ok(v@),
    ensures
        r == energy_sum(v@),
        r <= v@.len() * (MAX_BIN_ENERGY as int),
{
    let mut acc: u64 = 0;
    let mut j: usize = 0;
    proof {
        assert(v@.subrange(0, 0) =~= Seq::<u64>::empty());
    }
    while j < v.len()
        invariant
            j <= v@.len(),
            v@.len() <= MAX_CHUNK,
            spectrum_ok(v@),
            acc == energy_sum(v@.subrange(0, j as int)),
            acc <= j * (MAX_BIN_ENERGY as int),
        decreases v@.len() - j,
    {
        let m = v[j];
        proof {
            assert(0 <= (m as int) * (m as int) <= (MAX_MAGNITUDE as int) * (MAX_MAGNITUDE as int))
                by (nonlinear_arith)
                requires
                    0 <= m <= MAX_MAGNITUDE,
            ;
        }
        let e: u64 = ((m as u128) * (m as u128) / 1_000_000_000_000) as u64;
        proof {
            lemma_energy_sum_step(v@, j as int);
            assert(e == bin_energy(v@[j as int]) && e <= MAX_BIN_ENERGY) by (nonlinear_arith)
                requires
                    e == (v@[j as int] as int) * (v@[j as int] as int) / 1_000_000_000_000,
                    0 <= (v@[j as int] as int) * (v@[j as int] as int) <= (MAX_MAGNITUDE as int) * (
                    MAX_MAGNITUDE as int),
                    bin_energy(v@[j as int]) == (v@[j as int] as int) * (v@[j as int] as int)
                        / 1_000_000_000_000,
            ;
            assert(j * (MAX_BIN_ENERGY as int) + MAX_BIN_ENERGY == (j + 1) * (MAX_BIN_ENERGY
                as int)) by (nonlinear_arith);
            assert((MAX_CHUNK as int) * (MAX_BIN_ENERGY as int) < u64::MAX) by (nonlinear_arith);
            assert(j * (MAX_BIN_ENERGY as int) <= (MAX_CHUNK as int) * (MAX_BIN_ENERGY as int))
                by (nonlinear_arith)
                requires
                    0 <= j <= MAX_CHUNK,
            ;
        }
        acc = acc + e;
        j = j + 1;
    }
    proof {
        assert(v@.subrange(0, v@.len() as int) =~= v@);
    }
    acc
}

/// Extending a prefix energy sum by one bin.
proof fn lemma_energy_sum_step(s: Seq<u64>, i: int)
    requires
        0 <= i < s.len(),
    ensures
        energy_sum(s.subrange(0, i + 1)) == energy_sum(s.subrange(0, i)) + bin_energy(s[i]),
{
    assert(s.subrange(0, i + 1).drop_last() =~= s.subrange(0, i));
}

/// Harmonic energy is never negative.
proof fn lemma_harmonic_prefix_nonneg(s: Seq<u64>, i: int)
    ensures
        harmonic_prefix(s, i) >= 0,
    decreases i,
{
    if i > 1 {
        lemma_harmonic_prefix_nonneg(s, i - 1);
        assert(harmonic_contrib(s, i - 1) >= 0) by {
            if 2 * (i - 1) < s.len() && 10 * (s[2 * (i - 1)] * s[2 * (i - 1)]) > 3 * (s[i - 1] * s[i
                - 1]) {
                assert(bin_energy(s[i - 1]) >= 0) by (nonlinear_arith);
            }
        }
    }
}

/// RMS volume of a window, in pico-units.
fn volume_exec(samples: &Vec<i64>) -> (r: u64)
    requires
        1 <= samples@.len() <= MAX_CHUNK,
        samples_ok(samples@),
    ensures
        r == volume_pico(samples@),
        r <= 1_000_000_000_000,
{
    let mut acc: u64 = 0;
    let mut i: usize = 0;
    proof {
        assert(samples@.subrange(0, 0) =~= Seq::<i64>::empty());
        lemma_sq_sum_i64_bounded(samples@, SAMPLE_UNIT as int);
    }
    while i < samples.len()
        invariant
            i <= samples@.len(),
            samples@.len() <= MAX_CHUNK,
            samples_ok(samples@),
            acc == sq_sum_i64(samples@.subrange(0, i as int)),
            acc <= i * ((SAMPLE_UNIT as int) * (SAMPLE_UNIT as int)),
        decreases samples@.len() - i,
    {
        let x = samples[i];
        let ax: i64 = if x >= 0 {
            x
        } else {
            -x
        };
        proof {
            lemma_sq_sum_i64_step(samples@, i as int);
            assert((ax as int) * (ax as int) == (samples@[i as int] as int) * (samples@[i as int]
                as int)) by (nonlinear_arith)
                requires
                    ax == (if samples@[i as int] >= 0 {
                        samples@[i as int] as int
                    } else {
                        -(samples@[i as int] as int)
                    }),
            ;
            assert(0 <= (ax as int) * (ax as int) <= (SAMPLE_UNIT as int) * (SAMPLE_UNIT as int))
                by (nonlinear_arith)
                requires
                    0 <= ax <= SAMPLE_UNIT,
            ;
            assert(i * ((SAMPLE_UNIT as int) * (SAMPLE_UNIT as int)) + (SAMPLE_UNIT as int) * (
            SAMPLE_UNIT as int) == (i + 1) * ((SAMPLE_UNIT as int) * (SAMPLE_UNIT as int)))
                by (nonlinear_arith);
            assert((MAX_CHUNK as int) * ((SAMPLE_UNIT as int) * (SAMPLE_UNIT as int)) < u64::MAX)
                by (nonlinear_arith);
            assert(i * ((SAMPLE_UNIT as int) * (SAMPLE_UNIT as int)) <= (MAX_CHUNK as int) * ((
            SAMPLE_UNIT as int) * (SAMPLE_UNIT as int))) by (nonlinear_arith)
                requires
                    0 <= i <= MAX_CHUNK,
            ;
        }
        acc = acc + (ax as u64) * (ax as u64);
        i = i + 1;
    }
    proof {
        assert(samples@.subrange(0, samples@.len() as int) =~= samples@);
        lemma_multiply_divide_le(
            sq_sum_i64(samples@),
            samples@.len() as int,
            (SAMPLE_UNIT as int) * (SAMPLE_UNIT as int),
        );
        assert(samples@.len() * ((SAMPLE_UNIT as int) * (SAMPLE_UNIT as int)) == (samples@.len()
            as int) * ((SAMPLE_UNIT as int) * (SAMPLE_UNIT as int)));
    }
    let mean: u64 = acc / (samples.len() as u64);
    let root = crate::fixed::isqrt(mean as u128);
    proof {
        assert(root <= 1_000_000) by (nonlinear_arith)
            requires
                root * root <= (1_000_000_000_000u64 as int),
                root >= 0,
        ;
    }
    root * 1_000_000
}

/// Normalized band spec values of a spectrum under a rate and chunk size:
/// average magnitude of the bins at or below 60 Hz.
pub open spec fn sub_bass_of(s: Seq<u64>, rate: int, chunk: int) -> int {
    band_avg(s, 0, hz_bin_end(SUB_BASS_EDGE_HZ as int, rate, chunk, s.len() as int))
}

/// Average magnitude of the bins in (60, 250] Hz.
pub open spec fn bass_of(s: Seq<u64>, rate: int, chunk: int) -> int {
    band_avg(
        s,
        hz_bin_end(SUB_BASS_EDGE_HZ as int, rate, chunk, s.len() as int),
        hz_bin_end(BASS_EDGE_HZ as int, rate, chunk, s.len() as int),
    )
}

/// Average magnitude of the bins in (250, 4000] Hz.
pub open spec fn mid_of(s: Seq<u64>, rate: int, chunk: int) -> int {
    band_avg(
        s,
        hz_bin_end(BASS_EDGE_HZ as int, rate, chunk, s.len() as int),
        hz_bin_end(MID_EDGE_HZ as int, rate, chunk, s.len() as int),
    )
}

/// Average magnitude of the bins in (4000, 12000] Hz.
pub open spec fn treble_of(s: Seq<u64>, rate: int, chunk: int) -> int {
    band_avg(
        s,
        hz_bin_end(MID_EDGE_HZ as int, rate, chunk, s.len() as int),
        hz_bin_end(TREBLE_EDGE_HZ as int, rate, chunk, s.len() as int),
    )
}

/// Average magnitude of the bins in (12000, 20000] Hz.
pub open spec fn presence_of(s: Seq<u64>, rate: int, chunk: int) -> int {
    band_avg(
        s,
        hz_bin_end(TREBLE_EDGE_HZ as int, rate, chunk, s.len() as int),
        hz_bin_end(PRESENCE_EDGE_HZ as int, rate, chunk, s.len() as int),
    )
}

/// A band with a higher edge starts no earlier.
proof fn lemma_bin_end_monotone(h1: int, h2: int, rate: int, chunk: int, len: int)
    requires
        0 <= h1 <= h2,
        1 <= rate,
        0 <= chunk,
    ensures
        hz_bin_end(h1, rate, chunk, len) <= hz_bin_end(h2, rate, chunk, len),
{
    assert(h1 * chunk <= h2 * chunk) by (nonlinear_arith)
        requires
            h1 <= h2,
            0 <= chunk,
    ;
    lemma_div_is_ordered(h1 * chunk, h2 * chunk, rate);
}

/// End (exclusive) of the bin range at or below `hz` Hz.
fn bin_end_exec(hz: u64, rate: u32, chunk: usize, len: usize) -> (r: usize)
    requires
        1 <= rate,
        hz <= 20_000,
        chunk <= MAX_CHUNK,
    ensures
        r == hz_bin_end(hz as int, rate as int, chunk as int, len as int),
        r <= len,
{
    proof {
        assert(0 <= (hz as int) * (chunk as int) <= 20_000 * (MAX_CHUNK as int))
            by (nonlinear_arith)
            requires
                0 <= hz <= 20_000,
                0 <= chunk <= MAX_CHUNK,
        ;
    }
    let e: u64 = hz * (chunk as u64) / (rate as u64) + 1;
    if e > len as u64 {
        len
    } else {
        e as usize
    }
}

/// Spread between the loudest and quietest retained window volume.
fn dynamic_range_exec(hist: &Vec<u64>) -> (r: u64)
    requires
        hist@.len() <= VOLUME_HISTORY_CAP,
        forall|i: int| 0 <= i < hist@.len() ==> #[trigger] hist@[i] <= 1_000_000_000_000,
    ensures
        r == dynamic_range_pico(hist@),
        r <= 1_000_000_000_000,
{
    if hist.len() < 2 {
        return 0;
    }
    let mut mx: u64 = hist[0];
    let mut mn: u64 = hist[0];
    let mut i: usize = 1;
    proof {
        assert(hist@.subrange(0, 1) =~= seq![hist@[0]]);
        lemma_max_min_of_bounded(hist@, 1_000_000_000_000);
    }
    while i < hist.len()
        invariant
            1 <= i <= hist@.len(),
            hist@.len() <= VOLUME_HISTORY_CAP,
            forall|j: int| 0 <= j < hist@.len() ==> #[trigger] hist@[j] <= 1_000_000_000_000,
            mx == max_of(hist@.subrange(0, i as int)),
            mn == min_of(hist@.subrange(0, i as int)),
            mn <= mx,
        decreases hist@.len() - i,
    {
        proof {
            lemma_max_of_step(hist@, i as int);
            lemma_min_of_step(hist@, i as int);
        }
        let x = hist[i];
        if x > mx {
            mx = x;
        }
        if x < mn {
            mn = x;
        }
        i = i + 1;
    }
    proof {
        assert(hist@.subrange(0, hist@.len() as int) =~= hist@);
    }
    mx - mn
}

/// All volumes retained for dynamic-range estimation are valid RMS values.
pub open spec fn volumes_ok(s: Seq<u64>) -> bool {
    forall|i: int| 0 <= i < s.len() ==> #[trigger] s[i] <= 1_000_000_000_000
}

/// The CPU analysis backend: extracts one raw feature record per window from
/// the window's samples and magnitude spectrum, carrying the previous
/// spectrum (for flux and onset), a bounded volume history (for dynamic
/// range), and beat and tempo trackers across windows.
#[derive(Clone, Debug)]
pub struct CpuAudioAnalyzer {
    /// Sample rate in Hz.
    pub sample_rate: u32,
    /// Analysis window length in samples.
    pub chunk_size: usize,
    /// Magnitude spectrum of the previous window (empty before the first).
    pub previous_spectrum: Vec<u64>,
    /// RMS volumes of recent windows, oldest first.
    pub volume_history: Vec<u64>,
    /// Onset detector over the band energies.
    pub beat_detector: BeatDetector,
    /// Tempo estimator fed by the onset detector.
    pub tempo_detector: TempoDetector,
}

impl CpuAudioAnalyzer {
    /// Configuration is in range and all carried state is well-formed.
    pub open spec fn wf(self) -> bool {
        &&& 1 <= self.sample_rate <= MAX_SAMPLE_RATE
        &&& MIN_CHUNK <= self.chunk_size <= MAX_CHUNK
        &&& (self.previous_spectrum@.len() == 0 || self.previous_spectrum@.len() == self.chunk_size
            / 2)
        &&& spectrum_ok(self.previous_spectrum@)
        &&& self.volume_history@.len() <= VOLUME_HISTORY_CAP
        &&& volumes_ok(self.volume_history@)
        &&& self.beat_detector.wf()
        &&& self.tempo_detector.wf()
    }

    /// A fresh analyzer for windows of `chunk_size` samples at `sample_rate`
    /// Hz, with no history.
    pub fn new(sample_rate: u32, chunk_size: usize) -> (r: Self)
        requires
            1 <= sample_rate <= MAX_SAMPLE_RATE,
            MIN_CHUNK <= chunk_size <= MAX_CHUNK,
        ensures
            r.wf(),
            r.sample_rate == sample_rate,
            r.chunk_size == chunk_size,
            r.previous_spectrum@ == Seq::<u64>::empty(),
            r.volume_history@ == Seq::<u64>::empty(),
            r.beat_detector.time_counter == 0,
            r.beat_detector.last_beat_time == 0,
            r.beat_detector.window_us == chunk_size * 1_000_000 / (sample_rate as int),
            r.tempo_detector.current_time == 0,
            r.tempo_detector.estimated_bpm == crate::tempo::DEFAULT_BPM,
    {
        proof {
            assert(sample_rate <= chunk_size * 1_000_000) by (nonlinear_arith)
                requires
                    sample_rate <= MAX_SAMPLE_RATE,
                    chunk_size >= 1,
            ;
        }
        CpuAudioAnalyzer {
            sample_rate,
            chunk_size,
            previous_spectrum: Vec::new(),
            volume_history: Vec::new(),
            beat_detector: BeatDetector::new(sample_rate, chunk_size),
            tempo_detector: TempoDetector::new(),
        }
    }

    /// Analyze one window: the samples (at most one window, amplitudes
    /// within one unit; a shorter trailing window is zero-padded to the
    /// analysis length) and its magnitude spectrum (half a window of bins,
    /// within the magnitude cap) yield the window's raw feature record, each
    /// field pinned to its defining formula over the padded window; the
    /// previous-window spectrum, the volume history and the beat and tempo
    /// trackers advance by one step: each clock moves by exactly one window
    /// duration.
    ///
    /// A window whose sub-bass and bass bands are silent never moves the
    /// tempo estimate.
    pub fn analyze_chunk(&mut self, samples: &Vec<i64>, spectrum: &Vec<u64>) -> (r: RawAudioFeatures)
        requires
            old(self).wf(),
            samples@.len() <= old(self).chunk_size,
            samples_ok(samples@),
            spectrum@.len() == old(self).chunk_size / 2,
            spectrum_ok(spectrum@),
            old(self).beat_detector.time_counter + old(self).beat_detector.window_us <= u64::MAX,
            old(self).tempo_detector.current_time + old(self).beat_detector.window_us <= u64::MAX,
        ensures
            final(self).wf(),
            final(self).sample_rate == old(self).sample_rate,
            final(self).chunk_size == old(self).chunk_size,
            final(self).beat_detector.window_us == old(self).beat_detector.window_us,
            final(self).beat_detector.time_counter == old(self).beat_detector.time_counter + old(
                self,
            ).beat_detector.window_us,
            final(self).tempo_detector.current_time == old(self).tempo_detector.current_time + old(
                self,
            ).beat_detector.window_us,
            final(self).previous_spectrum@ == spectrum@,
            final(self).volume_history@ == slide(
                old(self).volume_history@,
                (volume_pico(zero_pad(samples@, old(self).chunk_size as int))) as u64,
                VOLUME_HISTORY_CAP as int,
            ),
            r.sub_bass == sub_bass_of(spectrum@, old(self).sample_rate as int, old(self).chunk_size as int),
            r.bass == bass_of(spectrum@, old(self).sample_rate as int, old(self).chunk_size as int),
            r.mid == mid_of(spectrum@, old(self).sample_rate as int, old(self).chunk_size as int),
            r.treble == treble_of(spectrum@, old(self).sample_rate as int, old(self).chunk_size as int),
            r.presence == presence_of(spectrum@, old(self).sample_rate as int, old(self).chunk_size as int),
            r.sub_bass <= MAX_MAGNITUDE && r.bass <= MAX_MAGNITUDE && r.mid <= MAX_MAGNITUDE
                && r.treble <= MAX_MAGNITUDE && r.presence <= MAX_MAGNITUDE,
            r.spectral_centroid == centroid_pico(
                spectrum@,
                old(self).sample_rate as int,
                old(self).chunk_size as int,
            ),
            r.spectral_rolloff == rolloff_pico(
                spectrum@,
                old(self).sample_rate as int,
                old(self).chunk_size as int,
            ),
            r.zero_crossing_rate == zcr_pico(zero_pad(samples@, old(self).chunk_size as int)),
            r.spectral_flux == flux_pico(spectrum@, old(self).previous_spectrum@),
            r.onset_strength == onset_pico(spectrum@, old(self).previous_spectrum@),
            r.pitch_confidence == pitch_confidence_pico(spectrum@),
            r.volume == volume_pico(zero_pad(samples@, old(self).chunk_size as int)),
            r.dynamic_range == dynamic_range_pico(final(self).volume_history@),
            r.beat_strength == raw_beat_strength(
                bass_of(spectrum@, old(self).sample_rate as int, old(self).chunk_size as int),
                sub_bass_of(spectrum@, old(self).sample_rate as int, old(self).chunk_size as int),
            ),
            r.estimated_bpm == final(self).tempo_detector.estimated_bpm,
            sub_bass_of(spectrum@, old(self).sample_rate as int, old(self).chunk_size as int) == 0
                && bass_of(spectrum@, old(self).sample_rate as int, old(self).chunk_size as int)
                == 0 ==> final(self).tempo_detector.estimated_bpm == old(
                self,
            ).tempo_detector.estimated_bpm,
    {
        let rate = self.sample_rate;
        let chunk = self.chunk_size;
        let len = spectrum.len();

        let mut window_buf: Vec<i64> = Vec::new();
        let mut wi: usize = 0;
        while wi < samples.len()
            invariant
                wi <= samples@.len(),
                window_buf@ == samples@.subrange(0, wi as int),
            decreases samples@.len() - wi,
        {
            window_buf.push(samples[wi]);
            wi = wi + 1;
        }
        proof {
            assert(window_buf@ =~= samples@);
        }
        while window_buf.len() < chunk
            invariant
                samples@.len() <= window_buf@.len() <= chunk,
                window_buf@ == zero_pad(samples@, window_buf@.len() as int),
            decreases chunk - window_buf@.len(),
        {
            window_buf.push(0);
            proof {
                assert(window_buf@ =~= zero_pad(samples@, window_buf@.len() as int));
            }
        }
        let ghost padded = zero_pad(samples@, chunk as int);
        proof {
            assert(window_buf@ == padded);
            assert forall|j: int|
                0 <= j < window_buf@.len() implies -SAMPLE_UNIT <= #[trigger] window_buf@[j]
                <= SAMPLE_UNIT by {
                if j < samples@.len() {
                    assert(window_buf@[j] == samples@[j]);
                }
            }
        }

        let e_sub = bin_end_exec(SUB_BASS_EDGE_HZ, rate, chunk, len);
        let e_bass = bin_end_exec(BASS_EDGE_HZ, rate, chunk, len);
        let e_mid = bin_end_exec(MID_EDGE_HZ, rate, chunk, len);
        let e_treble = bin_end_exec(TREBLE_EDGE_HZ, rate, chunk, len);
        let e_presence = bin_end_exec(PRESENCE_EDGE_HZ, rate, chunk, len);
        proof {
            lemma_bin_end_monotone(
                SUB_BASS_EDGE_HZ as int,
                BASS_EDGE_HZ as int,
                rate as int,
                chunk as int,
                len as int,
            );
            lemma_bin_end_monotone(
                BASS_EDGE_HZ as int,
                MID_EDGE_HZ as int,
                rate as int,
                chunk as int,
                len as int,
            );
            lemma_bin_end_monotone(
                MID_EDGE_HZ as int,
                TREBLE_EDGE_HZ as int,
                rate as int,
                chunk as int,
                len as int,
            );
            lemma_bin_end_monotone(
                TREBLE_EDGE_HZ as int,
                PRESENCE_EDGE_HZ as int,
                rate as int,
                chunk as int,
                len as int,
            );
        }

        let sub_bass = band_avg_exec(spectrum, 0, e_sub);
        let bass = band_avg_exec(spectrum, e_sub, e_bass);
        let mid = band_avg_exec(spectrum, e_bass, e_mid);
        let treble = band_avg_exec(spectrum, e_mid, e_treble);
        let presence = band_avg_exec(spectrum, e_treble, e_presence);

        let total = sum_range(spectrum, 0, len);
        proof {
            assert(spectrum@.subrange(0, len as int) =~= spectrum@);
        }
        let spectral_centroid: u64 = if total == 0 {
            0
        } else {
            let wsum = weighted_sum_exec(spectrum);
            proof {
                assert((total as int) * (chunk as int) <= u128::MAX) by (nonlinear_arith)
                    requires
                        total as int <= (MAX_CHUNK as int) * (MAX_MAGNITUDE as int),
                        chunk <= MAX_CHUNK,
                        total as int <= (len as int) * (MAX_MAGNITUDE as int),
                        len <= MAX_CHUNK,
                ;
                assert(1 <= (total as int) * (chunk as int)) by (nonlinear_arith)
                    requires
                        total >= 1,
                        chunk >= 2,
                ;
            }
            let denom: u128 = total * (chunk as u128);
            proof {
                assert(wsum as int * 1_000_000_000_000 <= u128::MAX) by (nonlinear_arith)
                    requires
                        0 <= wsum as int <= (len as int) * (total as int),
                        len <= MAX_CHUNK,
                        total as int <= (MAX_CHUNK as int) * (MAX_MAGNITUDE as int),
                ;
                assert(wsum as int * 1_000_000_000_000 <= (denom as int) * 1_000_000_000_000)
                    by (nonlinear_arith)
                    requires
                        0 <= wsum as int <= (len as int) * (total as int),
                        len <= chunk,
                        denom == (total as int) * (chunk as int),
                        total >= 1,
                ;
                lemma_multiply_divide_le(
                    wsum as int * 1_000_000_000_000,
                    denom as int,
                    1_000_000_000_000,
                );
            }
            let q: u128 = wsum * 1_000_000_000_000 / denom;
            proof {
                assert((q as int) * (rate as int) <= 1_000_000_000_000_000_000) by (nonlinear_arith)
                    requires
                        0 <= q <= 1_000_000_000_000,
                        0 <= rate <= MAX_SAMPLE_RATE,
                ;
            }
            (q as u64) * (rate as u64)
        };

        let rb = rolloff_bin_exec(spectrum);
        let spectral_rolloff: u64 = if rb < len {
            proof {
                assert((rb as int) * (rate as int) * 1_000_000_000_000 <= u128::MAX)
                    by (nonlinear_arith)
                    requires
                        rb <= MAX_CHUNK,
                        rate <= MAX_SAMPLE_RATE,
                ;
                assert((rb as int) * (rate as int) * 1_000_000_000_000 <= (chunk as int) * ((rate
                    as int) * 1_000_000_000_000)) by (nonlinear_arith)
                    requires
                        0 <= rb <= len,
                        len <= chunk,
                        0 <= rate,
                ;
                lemma_multiply_divide_le(
                    (rb as int) * (rate as int) * 1_000_000_000_000,
                    chunk as int,
                    (rate as int) * 1_000_000_000_000,
                );
                assert((rate as int) * 1_000_000_000_000 <= 1_000_000_000_000_000_000)
                    by (nonlinear_arith)
                    requires
                        rate <= MAX_SAMPLE_RATE,
                ;
            }
            ((rb as u128) * (rate as u128) * 1_000_000_000_000 / (chunk as u128)) as u64
        } else {
            (rate as u64) * 1_000_000_000_000 / 2
        };

        let zero_crossing_rate = zcr_exec(&window_buf);
        let spectral_flux = flux_exec(spectrum, &self.previous_spectrum);
        let onset_strength = onset_exec(spectrum, &self.previous_spectrum);
        let pitch_confidence = pitch_exec(spectrum);
        let volume = volume_exec(&window_buf);

        self.volume_history.push(volume);
        if self.volume_history.len() > VOLUME_HISTORY_CAP {
            self.volume_history.remove(0);
            proof {
                assert(self.volume_history@ =~= slide(
                    old(self).volume_history@,
                    volume,
                    VOLUME_HISTORY_CAP as int,
                ));
            }
        }
        let dynamic_range = dynamic_range_exec(&self.volume_history);

        let (beat_detected, _window_strength) = self.beat_detector.detect_beat(bass, sub_bass);
        let window_us = self.beat_detector.window_us;
        self.tempo_detector.update(beat_detected, window_us);

        self.previous_spectrum = spectrum.clone();

        RawAudioFeatures {
            sub_bass,
            bass,
            mid,
            treble,
            presence,
            spectral_centroid,
            spectral_rolloff,
            spectral_flux,
            zero_crossing_rate,
            onset_strength,
            beat_strength: bass + sub_bass / 2,
            estimated_bpm: self.tempo_detector.estimated_bpm,
            volume,
            dynamic_range,
            pitch_confidence,
        }
    }
}

} // verus!
