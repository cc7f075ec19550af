//! Offline pre-analysis: accumulating per-window normalized features into a
//! frame sequence with file-level statistics and content classification.

use vstd::prelude::*;
use vstd::arithmetic::div_mod::lemma_multiply_divide_le;
use crate::analyzer::CpuAudioAnalyzer;
use crate::features::{FrequencyBands, NormalizedAudioFeatures, RawAudioFeatures};
use crate::normalizer::{spec_normalize, FeatureNormalizer, NormalizationParameters};
use crate::seqsum::{
    lemma_sq_dev_sum32_bounded, lemma_sq_dev_sum32_step, lemma_sum32_bounded, lemma_sum32_step,
    sq_dev_sum32, sum32,
};

verus! {

/// A frame's beat flag is set when its normalized beat strength exceeds this
/// (30% of the bound, in micro-units).
pub const FRAME_BEAT_THRESHOLD: u32 = 300_000;

/// Plausible tempo window for file-level aggregation, in micro-BPM
/// (exclusive bounds).
pub const PLAUSIBLE_BPM_MIN: u32 = 60_000_000;

pub const PLAUSIBLE_BPM_MAX: u32 = 200_000_000;

/// File metadata written once at prescan start.
#[derive(Clone, Debug, PartialEq)]
pub struct FileInfo {
    /// Name of the scanned file, as bytes.
    pub filename: Vec<u8>,
    /// Duration in microseconds.
    pub duration_us: u64,
    /// Sample rate in Hz.
    pub sample_rate: u32,
    /// Total number of decoded mono samples.
    pub total_samples: u64,
    /// Analysis frame rate in micro-Hz.
    pub frame_rate_uhz: u64,
    /// Analysis window length in samples.
    pub chunk_size: u64,
}

/// The two metadata records carry the same values (filenames compared as
/// byte strings).
pub open spec fn file_info_like(a: FileInfo, b: FileInfo) -> bool {
    &&& a.filename@ == b.filename@
    &&& a.duration_us == b.duration_us
    &&& a.sample_rate == b.sample_rate
    &&& a.total_samples == b.total_samples
    &&& a.frame_rate_uhz == b.frame_rate_uhz
    &&& a.chunk_size == b.chunk_size
}

impl FileInfo {
    /// Rates and window sizes are in the supported ranges.
    pub open spec fn wf(self) -> bool {
        &&& 1 <= self.sample_rate <= crate::analyzer::MAX_SAMPLE_RATE
        &&& crate::analyzer::MIN_CHUNK <= self.chunk_size <= crate::analyzer::MAX_CHUNK
    }

    /// Duration of one analysis window in microseconds.
    pub open spec fn window_us(self) -> int {
        self.chunk_size * 1_000_000 / (self.sample_rate as int)
    }
}

/// One prescan frame: a normalized feature record with an explicit timestamp.
#[derive(Clone, Copy, Debug, PartialEq, Eq, Structural)]
pub struct PrescanFrame {
    /// Microseconds from file start (window index times window duration).
    pub timestamp: u64,
    /// Normalized band energies.
    pub frequency_bands: FrequencyBands,
    pub beat_detected: bool,
    /// Normalized beat strength, in micro-units.
    pub beat_strength: u32,
    /// Tempo in micro-BPM.
    pub estimated_bpm: u32,
    pub spectral_centroid: u32,
    pub spectral_rolloff: u32,
    pub pitch_confidence: u32,
    pub zero_crossing_rate: u32,
    pub spectral_flux: u32,
    pub onset_strength: u32,
    pub dynamic_range: u32,
    pub volume: u32,
}

impl PrescanFrame {
    /// Every continuous field lies in `[0, MICRO]` micro-units.
    pub open spec fn bounded(self) -> bool {
        &&& self.frequency_bands.bounded()
        &&& self.beat_strength <= 1_000_000
        &&& self.spectral_centroid <= 1_000_000
        &&& self.spectral_rolloff <= 1_000_000
        &&& self.pitch_confidence <= 1_000_000
        &&& self.zero_crossing_rate <= 1_000_000
        &&& self.spectral_flux <= 1_000_000
        &&& self.onset_strength <= 1_000_000
        &&& self.dynamic_range <= 1_000_000
        &&& self.volume <= 1_000_000
    }
}

/// Dominant-frequency-range classification of a whole file.
#[derive(Clone, Copy, Debug, PartialEq, Eq, Structural)]
pub enum DominantRange {
    Unknown,
    BassHeavy,
    TrebleFocused,
    Balanced,
}

/// Energy-profile classification of a whole file.
#[derive(Clone, Copy, Debug, PartialEq, Eq, Structural)]
pub enum EnergyProfile {
    Unknown,
    Low,
    Medium,
    High,
    Dynamic,
}

/// File-level statistics computed incrementally during a scan and finalized
/// once at its end.
#[derive(Clone, Copy, Debug, PartialEq)]
pub struct AnalysisStatistics {
    /// Peak normalized values observed across the file, in micro-units.
    pub peak_bass: u32,
    pub peak_mid: u32,
    pub peak_treble: u32,
    pub peak_presence: u32,
    pub peak_volume: u32,
    pub peak_spectral_flux: u32,
    pub peak_onset: u32,
    /// Number of frames whose beat flag was set.
    pub total_beats: u32,
    /// Mean of the plausible per-frame tempos, in micro-BPM.
    pub average_bpm: u64,
    /// Smallest and largest plausible per-frame tempo, in micro-BPM.
    pub bpm_range: (u64, u64),
    pub dominant_frequency_range: DominantRange,
    pub energy_profile: EnergyProfile,
    /// Combined spectral/harmonic/dynamic complexity, in micro-units.
    pub complexity_score: u32,
}

impl AnalysisStatistics {
    /// The statistics before any frame has been seen: zero peaks, the
    /// default tempo aggregate, unclassified content.
    pub open spec fn spec_default() -> Self {
        AnalysisStatistics {
            peak_bass: 0,
            peak_mid: 0,
            peak_treble: 0,
            peak_presence: 0,
            peak_volume: 0,
            peak_spectral_flux: 0,
            peak_onset: 0,
            total_beats: 0,
            average_bpm: 120_000_000,
            bpm_range: (60_000_000, 180_000_000),
            dominant_frequency_range: DominantRange::Unknown,
            energy_profile: EnergyProfile::Unknown,
            complexity_score: 500_000,
        }
    }
}

impl Default for AnalysisStatistics {
    fn default() -> (r: Self)
        ensures
            r == Self::spec_default(),
    {
        AnalysisStatistics {
            peak_bass: 0,
            peak_mid: 0,
            peak_treble: 0,
            peak_presence: 0,
            peak_volume: 0,
            peak_spectral_flux: 0,
            peak_onset: 0,
            total_beats: 0,
            average_bpm: 120_000_000,
            bpm_range: (60_000_000, 180_000_000),
            dominant_frequency_range: DominantRange::Unknown,
            energy_profile: EnergyProfile::Unknown,
            complexity_score: 500_000,
        }
    }
}

/// The persisted unit: file metadata, the ordered frame sequence, and the
/// file-level statistics.
#[derive(Clone, Debug, PartialEq)]
pub struct PrescanData {
    pub file_info: FileInfo,
    pub frames: Vec<PrescanFrame>,
    pub statistics: AnalysisStatistics,
}

impl PrescanData {
    /// Frames form a uniform-rate time series (index times window duration),
    /// every field is bounded, and the frame count fits the artifact's
    /// 32-bit count.
    pub open spec fn wf(self) -> bool {
        &&& self.file_info.wf()
        &&& self.frames@.len() <= u32::MAX
        &&& forall|i: int|
            0 <= i < self.frames@.len() ==> (#[trigger] self.frames@[i]).timestamp == i
                * self.file_info.window_us()
        &&& forall|i: int| 0 <= i < self.frames@.len() ==> (#[trigger] self.frames@[i]).bounded()
    }
}

/// Timestamps strictly increase along the frame sequence.
pub open spec fn frames_sorted(frames: Seq<PrescanFrame>) -> bool {
    forall|i: int, j: int|
        0 <= i < j < frames.len() ==> (#[trigger] frames[i]).timestamp < (
        #[trigger] frames[j]).timestamp
}

/// Frames on a uniform-rate series under in-range metadata (as the scan and
/// the artifact loader both produce) are strictly ordered in time.
pub proof fn lemma_wf_frames_sorted(d: PrescanData)
    requires
        d.file_info.wf(),
        forall|i: int|
            0 <= i < d.frames@.len() ==> (#[trigger] d.frames@[i]).timestamp == i
                * d.file_info.window_us(),
    ensures
        frames_sorted(d.frames@),
{
    assert forall|i: int, j: int| 0 <= i < j < d.frames@.len() implies (
    #[trigger] d.frames@[i]).timestamp < (#[trigger] d.frames@[j]).timestamp by {
        assert(d.file_info.window_us() >= 1) by (nonlinear_arith)
            requires
                d.file_info.window_us() == d.file_info.chunk_size * 1_000_000 / (
                d.file_info.sample_rate as int),
                d.file_info.chunk_size >= 1,
                1 <= d.file_info.sample_rate <= 1_000_000,
        ;
        assert(i * d.file_info.window_us() < j * d.file_info.window_us()) by (nonlinear_arith)
            requires
                0 <= i < j,
                d.file_info.window_us() >= 1,
        ;
    }
}

/// Mean of a mapped micro-unit field over the frames (zero when empty).
pub open spec fn mean32(s: Seq<u32>) -> int {
    if s.len() == 0 {
        0
    } else {
        sum32(s) / s.len() as int
    }
}

/// The per-frame low-end energies: bass plus sub-bass, in micro-units.
pub open spec fn low_seq(frames: Seq<PrescanFrame>) -> Seq<u32> {
    frames.map_values(
        |f: PrescanFrame| (f.frequency_bands.bass + f.frequency_bands.sub_bass) as u32,
    )
}

/// The per-frame normalized mid values.
pub open spec fn mid_seq(frames: Seq<PrescanFrame>) -> Seq<u32> {
    frames.map_values(|f: PrescanFrame| f.frequency_bands.mid)
}

/// The per-frame high-end energies: treble plus presence, in micro-units.
pub open spec fn high_seq(frames: Seq<PrescanFrame>) -> Seq<u32> {
    frames.map_values(
        |f: PrescanFrame| (f.frequency_bands.treble + f.frequency_bands.presence) as u32,
    )
}

/// The per-frame normalized volumes.
pub open spec fn volume_seq(frames: Seq<PrescanFrame>) -> Seq<u32> {
    frames.map_values(|f: PrescanFrame| f.volume)
}

/// The per-frame normalized spectral flux values.
pub open spec fn flux_seq(frames: Seq<PrescanFrame>) -> Seq<u32> {
    frames.map_values(|f: PrescanFrame| f.spectral_flux)
}

/// The per-frame pitch confidences.
pub open spec fn pitch_seq(frames: Seq<PrescanFrame>) -> Seq<u32> {
    frames.map_values(|f: PrescanFrame| f.pitch_confidence)
}

/// Dominant range dictated by the mean band-group energies: bass-heavy when
/// the mean bass-plus-sub-bass energy beats both the mean mid energy and the
/// mean treble-plus-presence energy, treble-focused when the high group
/// beats both, else balanced.
pub open spec fn dominant_of(frames: Seq<PrescanFrame>) -> DominantRange {
    let ab = mean32(low_seq(frames));
    let am = mean32(mid_seq(frames));
    let at = mean32(high_seq(frames));
    if ab > am && ab > at {
        DominantRange::BassHeavy
    } else if at > ab && at > am {
        DominantRange::TrebleFocused
    } else {
        DominantRange::Balanced
    }
}

/// Population variance of the normalized volume, in micro-units squared.
pub open spec fn volume_variance_of(frames: Seq<PrescanFrame>) -> int {
    if frames.len() == 0 {
        0
    } else {
        sq_dev_sum32(volume_seq(frames), mean32(volume_seq(frames))) / frames.len() as int
    }
}

/// Energy profile dictated by volume variance and mean: dynamic above the
/// variance threshold (0.1), else high/medium/low by mean volume (0.3, 0.1).
pub open spec fn energy_profile_of(frames: Seq<PrescanFrame>) -> EnergyProfile {
    let var = volume_variance_of(frames);
    let avg = mean32(volume_seq(frames));
    if var > 100_000_000_000 {
        EnergyProfile::Dynamic
    } else if avg > 300_000 {
        EnergyProfile::High
    } else if avg > 100_000 {
        EnergyProfile::Medium
    } else {
        EnergyProfile::Low
    }
}

/// Complexity score: mean flux plus mean pitch confidence plus volume
/// variance (rescaled to micro-units), capped at one.
pub open spec fn complexity_of(frames: Seq<PrescanFrame>) -> int {
    let c = mean32(flux_seq(frames)) + mean32(pitch_seq(frames)) + volume_variance_of(frames)
        / 1_000_000;
    if c > 1_000_000 {
        1_000_000int
    } else {
        c
    }
}

/// Classify a scanned file's content from its frames: the dominant frequency
/// range, the energy profile and the complexity score are rewritten from the
/// frame sequence; all other statistics stand.
pub fn classify_unified_content(stats: &mut AnalysisStatistics, frames: &Vec<PrescanFrame>)
    requires
        frames@.len() <= u32::MAX,
        forall|i: int| 0 <= i < frames@.len() ==> (#[trigger] frames@[i]).bounded(),
    ensures
        final(stats).dominant_frequency_range == dominant_of(frames@),
        final(stats).energy_profile == energy_profile_of(frames@),
        final(stats).complexity_score == complexity_of(frames@),
        final(stats).peak_bass == old(stats).peak_bass,
        final(stats).peak_mid == old(stats).peak_mid,
        final(stats).peak_treble == old(stats).peak_treble,
        final(stats).peak_presence == old(stats).peak_presence,
        final(stats).peak_volume == old(stats).peak_volume,
        final(stats).peak_spectral_flux == old(stats).peak_spectral_flux,
        final(stats).peak_onset == old(stats).peak_onset,
        final(stats).total_beats == old(stats).total_beats,
        final(stats).average_bpm == old(stats).average_bpm,
        final(stats).bpm_range == old(stats).bpm_range,
{
    let avg_low = mean_low(frames);
    let avg_mid = mean_mid(frames);
    let avg_high = mean_high(frames);

    stats.dominant_frequency_range = if avg_low > avg_mid && avg_low > avg_high {
        DominantRange::BassHeavy
    } else if avg_high > avg_low && avg_high > avg_mid {
        DominantRange::TrebleFocused
    } else {
        DominantRange::Balanced
    };

    let avg_volume = mean_volume(frames);
    let variance = volume_variance(frames, avg_volume);

    stats.energy_profile = if variance > 100_000_000_000 {
        EnergyProfile::Dynamic
    } else if avg_volume > 300_000 {
        EnergyProfile::High
    } else if avg_volume > 100_000 {
        EnergyProfile::Medium
    } else {
        EnergyProfile::Low
    };

    let avg_flux = mean_flux(frames);
    let avg_pitch = mean_pitch(frames);
    let c: u64 = (avg_flux as u64) + (avg_pitch as u64) + variance / 1_000_000;
    stats.complexity_score = if c > 1_000_000 {
        1_000_000u32
    } else {
        c as u32
    };
}

/// Mean low-end (bass plus sub-bass) energy over the frames.
fn mean_low(frames: &Vec<PrescanFrame>) -> (r: u32)
    requires
        frames@.len() <= u32::MAX,
        forall|i: int| 0 <= i < frames@.len() ==> (#[trigger] frames@[i]).bounded(),
    ensures
        r == mean32(low_seq(frames@)),
        r <= 2_000_000,
{
    if frames.len() == 0 {
        return 0;
    }
    let ghost s = low_seq(frames@);
    let mut acc: u64 = 0;
    let mut i: usize = 0;
    proof {
        assert(s.subrange(0, 0) =~= Seq::<u32>::empty());
        lemma_sum32_bounded(s, 2_000_000);
    }
    while i < frames.len()
        invariant
            i <= frames@.len() <= u32::MAX,
            s == low_seq(frames@),
            forall|j: int| 0 <= j < frames@.len() ==> (#[trigger] frames@[j]).bounded(),
            acc == sum32(s.subrange(0, i as int)),
            acc <= i * 2_000_000,
        decreases frames@.len() - i,
    {
        proof {
            lemma_sum32_step(s, i as int);
        }
        acc = acc + (frames[i].frequency_bands.bass as u64)
            + (frames[i].frequency_bands.sub_bass as u64);
        i = i + 1;
    }
    proof {
        assert(s.subrange(0, s.len() as int) =~= s);
        lemma_multiply_divide_le(sum32(s), s.len() as int, 2_000_000);
        assert(s.len() * 2_000_000 == (s.len() as int) * 2_000_000);
    }
    (acc / (frames.len() as u64)) as u32
}

/// Mean normalized mid over the frames.
fn mean_mid(frames: &Vec<PrescanFrame>) -> (r: u32)
    requires
        frames@.len() <= u32::MAX,
        forall|i: int| 0 <= i < frames@.len() ==> (#[trigger] frames@[i]).bounded(),
    ensures
        r == mean32(mid_seq(frames@)),
        r <= 1_000_000,
{
    if frames.len() == 0 {
        return 0;
    }
    let ghost s = mid_seq(frames@);
    let mut acc: u64 = 0;
    let mut i: usize = 0;
    proof {
        assert(s.subrange(0, 0) =~= Seq::<u32>::empty());
        lemma_sum32_bounded(s, 1_000_000);
    }
    while i < frames.len()
        invariant
            i <= frames@.len() <= u32::MAX,
            s == mid_seq(frames@),
            forall|j: int| 0 <= j < frames@.len() ==> (#[trigger] frames@[j]).bounded(),
            acc == sum32(s.subrange(0, i as int)),
            acc <= i * 1_000_000,
        decreases frames@.len() - i,
    {
        proof {
            lemma_sum32_step(s, i as int);
        }
        acc = acc + (frames[i].frequency_bands.mid as u64);
        i = i + 1;
    }
    proof {
        assert(s.subrange(0, s.len() as int) =~= s);
        lemma_multiply_divide_le(sum32(s), s.len() as int, 1_000_000);
        assert(s.len() * 1_000_000 == (s.len() as int) * 1_000_000);
    }
    (acc / (frames.len() as u64)) as u32
}

/// Mean high-end (treble plus presence) energy over the frames.
fn mean_high(frames: &Vec<PrescanFrame>) -> (r: u32)
    requires
        frames@.len() <= u32::MAX,
        forall|i: int| 0 <= i < frames@.len() ==> (#[trigger] frames@[i]).bounded(),
    ensures
        r == mean32(high_seq(frames@)),
        r <= 2_000_000,
{
    if frames.len() == 0 {
        return 0;
    }
    let ghost s = high_seq(frames@);
    let mut acc: u64 = 0;
    let mut i: usize = 0;
    proof {
        assert(s.subrange(0, 0) =~= Seq::<u32>::empty());
        lemma_sum32_bounded(s, 2_000_000);
    }
    while i < frames.len()
        invariant
            i <= frames@.len() <= u32::MAX,
            s == high_seq(frames@),
            forall|j: int| 0 <= j < frames@.len() ==> (#[trigger] frames@[j]).bounded(),
            acc == sum32(s.subrange(0, i as int)),
            acc <= i * 2_000_000,
        decreases frames@.len() - i,
    {
        proof {
            lemma_sum32_step(s, i as int);
        }
        acc = acc + (frames[i].frequency_bands.treble as u64)
            + (frames[i].frequency_bands.presence as u64);
        i = i + 1;
    }
    proof {
        assert(s.subrange(0, s.len() as int) =~= s);
        lemma_multiply_divide_le(sum32(s), s.len() as int, 2_000_000);
        assert(s.len() * 2_000_000 == (s.len() as int) * 2_000_000);
    }
    (acc / (frames.len() as u64)) as u32
}

/// Mean normalized volume over the frames.
fn mean_volume(frames: &Vec<PrescanFrame>) -> (r: u32)
    requires
        frames@.len() <= u32::MAX,
        forall|i: int| 0 <= i < frames@.len() ==> (#[trigger] frames@[i]).bounded(),
    ensures
        r == mean32(volume_seq(frames@)),
        r <= 1_000_000,
{
    if frames.len() == 0 {
        return 0;
    }
    let ghost s = volume_seq(frames@);
    let mut acc: u64 = 0;
    let mut i: usize = 0;
    proof {
        assert(s.subrange(0, 0) =~= Seq::<u32>::empty());
        lemma_sum32_bounded(s, 1_000_000);
    }
    while i < frames.len()
        invariant
            i <= frames@.len() <= u32::MAX,
            s == volume_seq(frames@),
            forall|j: int| 0 <= j < frames@.len() ==> (#[trigger] frames@[j]).bounded(),
            acc == sum32(s.subrange(0, i as int)),
            acc <= i * 1_000_000,
        decreases frames@.len() - i,
    {
        proof {
            lemma_sum32_step(s, i as int);
        }
        acc = acc + (frames[i].volume as u64);
        i = i + 1;
    }
    proof {
        assert(s.subrange(0, s.len() as int) =~= s);
        lemma_multiply_divide_le(sum32(s), s.len() as int, 1_000_000);
        assert(s.len() * 1_000_000 == (s.len() as int) * 1_000_000);
    }
    (acc / (frames.len() as u64)) as u32
}

/// Mean normalized spectral flux over the frames.
fn mean_flux(frames: &Vec<PrescanFrame>) -> (r: u32)
    requires
        frames@.len() <= u32::MAX,
        forall|i: int| 0 <= i < frames@.len() ==> (#[trigger] frames@[i]).bounded(),
    ensures
        r == mean32(flux_seq(frames@)),
        r <= 1_000_000,
{
    if frames.len() == 0 {
        return 0;
    }
    let ghost s = flux_seq(frames@);
    let mut acc: u64 = 0;
    let mut i: usize = 0;
    proof {
        assert(s.subrange(0, 0) =~= Seq::<u32>::empty());
        lemma_sum32_bounded(s, 1_000_000);
    }
    while i < frames.len()
        invariant
            i <= frames@.len() <= u32::MAX,
            s == flux_seq(frames@),
            forall|j: int| 0 <= j < frames@.len() ==> (#[trigger] frames@[j]).bounded(),
            acc == sum32(s.subrange(0, i as int)),
            acc <= i * 1_000_000,
        decreases frames@.len() - i,
    {
        proof {
            lemma_sum32_step(s, i as int);
        }
        acc = acc + (frames[i].spectral_flux as u64);
        i = i + 1;
    }
    proof {
        assert(s.subrange(0, s.len() as int) =~= s);
        lemma_multiply_divide_le(sum32(s), s.len() as int, 1_000_000);
        assert(s.len() * 1_000_000 == (s.len() as int) * 1_000_000);
    }
    (acc / (frames.len() as u64)) as u32
}

/// Mean pitch confidence over the frames.
fn mean_pitch(frames: &Vec<PrescanFrame>) -> (r: u32)
    requires
        frames@.len() <= u32::MAX,
        forall|i: int| 0 <= i < frames@.len() ==> (#[trigger] frames@[i]).bounded(),
    ensures
        r == mean32(pitch_seq(frames@)),
        r <= 1_000_000,
{
    if frames.len() == 0 {
        return 0;
    }
    let ghost s = pitch_seq(frames@);
    let mut acc: u64 = 0;
    let mut i: usize = 0;
    proof {
        assert(s.subrange(0, 0) =~= Seq::<u32>::empty());
        lemma_sum32_bounded(s, 1_000_000);
    }
    while i < frames.len()
        invariant
            i <= frames@.len() <= u32::MAX,
            s == pitch_seq(frames@),
            forall|j: int| 0 <= j < frames@.len() ==> (#[trigger] frames@[j]).bounded(),
            acc == sum32(s.subrange(0, i as int)),
            acc <= i * 1_000_000,
        decreases frames@.len() - i,
    {
        proof {
            lemma_sum32_step(s, i as int);
        }
        acc = acc + (frames[i].pitch_confidence as u64);
        i = i + 1;
    }
    proof {
        assert(s.subrange(0, s.len() as int) =~= s);
        lemma_multiply_divide_le(sum32(s), s.len() as int, 1_000_000);
        assert(s.len() * 1_000_000 == (s.len() as int) * 1_000_000);
    }
    (acc / (frames.len() as u64)) as u32
}

/// Population variance of the normalized volume around `avg`.
fn volume_variance(frames: &Vec<PrescanFrame>, avg: u32) -> (r: u64)
    requires
        frames@.len() <= u32::MAX,
        forall|i: int| 0 <= i < frames@.len() ==> (#[trigger] frames@[i]).bounded(),
        avg == mean32(volume_seq(frames@)),
        avg <= 1_000_000,
    ensures
        r == volume_variance_of(frames@),
        r <= 1_000_000_000_000,
{
    if frames.len() == 0 {
        return 0;
    }
    let ghost s = volume_seq(frames@);
    let mut acc: u128 = 0;
    let mut i: usize = 0;
    proof {
        assert(s.subrange(0, 0) =~= Seq::<u32>::empty());
        lemma_sq_dev_sum32_bounded(s, avg as int, 1_000_000);
    }
    while i < frames.len()
        invariant
            i <= frames@.len() <= u32::MAX,
            s == volume_seq(frames@),
            avg <= 1_000_000,
            forall|j: int| 0 <= j < frames@.len() ==> (#[trigger] frames@[j]).bounded(),
            acc == sq_dev_sum32(s.subrange(0, i as int), avg as int),
            acc <= i * 1_000_000_000_000,
        decreases frames@.len() - i,
    {
        let x = frames[i].volume;
        let d: u32 = if x >= avg {
            x - avg
        } else {
            avg - x
        };
        proof {
            lemma_sq_dev_sum32_step(s, avg as int, i as int);
            assert((d as int) * (d as int) == (s[i as int] - avg) * (s[i as int] - avg))
                by (nonlinear_arith)
                requires
                    d == (if s[i as int] >= avg {
                        s[i as int] - avg
                    } else {
                        avg - s[i as int]
                    }),
            ;
            assert(0 <= (d as int) * (d as int) <= 1_000_000_000_000) by (nonlinear_arith)
                requires
                    0 <= d <= 1_000_000,
            ;
            assert(i * 1_000_000_000_000 + 1_000_000_000_000 == (i + 1) * 1_000_000_000_000)
                by (nonlinear_arith);
            assert(i * 1_000_000_000_000 <= 0x1_0000_0000 * 1_000_000_000_000i128)
                by (nonlinear_arith)
                requires
                    0 <= i <= 0x1_0000_0000,
            ;
        }
        acc = acc + (d as u128) * (d as u128);
        i = i + 1;
    }
    proof {
        assert(s.subrange(0, s.len() as int) =~= s);
        lemma_multiply_divide_le(sq_dev_sum32(s, avg as int), s.len() as int, 1_000_000_000_000);
        assert(s.len() * 1_000_000_000_000 == (s.len() as int) * 1_000_000_000_000);
    }
    (acc / (frames.len() as u128)) as u64
}

/// The larger of two normalized values.
pub open spec fn pmax(a: u32, b: u32) -> u32 {
    if a >= b {
        a
    } else {
        b
    }
}

fn max_u32(a: u32, b: u32) -> (r: u32)
    ensures
        r == pmax(a, b),
{
    if a >= b {
        a
    } else {
        b
    }
}

/// The prescan frame that a normalized record and a timestamp make: the beat
/// flag is set when the normalized beat strength exceeds its threshold.
pub open spec fn frame_from(n: NormalizedAudioFeatures, ts: u64) -> PrescanFrame {
    PrescanFrame {
        timestamp: ts,
        frequency_bands: FrequencyBands {
            bass: n.bass,
            mid: n.mid,
            treble: n.treble,
            sub_bass: n.sub_bass,
            presence: n.presence,
        },
        beat_detected: n.beat_strength > FRAME_BEAT_THRESHOLD,
        beat_strength: n.beat_strength,
        estimated_bpm: n.estimated_bpm,
        spectral_centroid: n.spectral_centroid,
        spectral_rolloff: n.spectral_rolloff,
        pitch_confidence: n.pitch_confidence,
        zero_crossing_rate: n.zero_crossing_rate,
        spectral_flux: n.spectral_flux,
        onset_strength: n.onset_strength,
        dynamic_range: n.dynamic_range,
        volume: n.volume,
    }
}

/// Drives one backend serially across a file, window by window, feeding each
/// window's raw features through the normalizer and accumulating frames,
/// peaks, beat counts and plausible tempos.
#[derive(Clone, Debug)]
pub struct PrescanProcessor {
    /// Analysis window length in samples.
    pub chunk_size: usize,
    /// Sample rate in Hz.
    pub sample_rate: u32,
    /// The CPU analysis backend (used when windows are processed in-crate).
    pub analyzer: CpuAudioAnalyzer,
    /// Fixed-default normalizer: the single source of truth for scaling.
    pub normalizer: FeatureNormalizer,
    /// Accumulated frames, one per processed window.
    pub frames: Vec<PrescanFrame>,
    /// Number of frames whose beat flag fired.
    pub beat_count: u32,
    /// Plausible per-frame tempos, in micro-BPM.
    pub bpm_values: Vec<u32>,
    /// Running peak normalized values, in micro-units.
    pub peak_bass: u32,
    pub peak_mid: u32,
    pub peak_treble: u32,
    pub peak_presence: u32,
    pub peak_volume: u32,
    pub peak_spectral_flux: u32,
    pub peak_onset: u32,
}

impl PrescanProcessor {
    /// Duration of one analysis window in microseconds.
    pub open spec fn window_us_spec(self) -> int {
        self.chunk_size * 1_000_000 / (self.sample_rate as int)
    }

    /// Configuration in range, backend and normalizer well-formed (the
    /// normalizer fixed at the compiled-in defaults), frames a bounded
    /// uniform-rate series, and aggregates within their counts.
    pub open spec fn wf(self) -> bool {
        &&& 1 <= self.sample_rate <= crate::analyzer::MAX_SAMPLE_RATE
        &&& crate::analyzer::MIN_CHUNK <= self.chunk_size <= crate::analyzer::MAX_CHUNK
        &&& self.analyzer.wf()
        &&& self.analyzer.sample_rate == self.sample_rate
        &&& self.analyzer.chunk_size == self.chunk_size
        &&& self.normalizer.wf()
        &&& !self.normalizer.adaptive
        &&& self.normalizer.parameters == NormalizationParameters::spec_default()
        &&& self.frames@.len() <= u32::MAX
        &&& forall|i: int|
            0 <= i < self.frames@.len() ==> (#[trigger] self.frames@[i]).timestamp == i
                * self.window_us_spec()
        &&& forall|i: int| 0 <= i < self.frames@.len() ==> (#[trigger] self.frames@[i]).bounded()
        &&& self.beat_count <= self.frames@.len()
        &&& self.bpm_values@.len() <= self.frames@.len()
        &&& forall|i: int|
            0 <= i < self.bpm_values@.len() ==> PLAUSIBLE_BPM_MIN < #[trigger] self.bpm_values@[i]
                < PLAUSIBLE_BPM_MAX
    }

    /// A fresh prescan for windows of `chunk_size` samples at `sample_rate`
    /// Hz.
    pub fn new(sample_rate: u32, chunk_size: usize) -> (r: Self)
        requires
            1 <= sample_rate <= crate::analyzer::MAX_SAMPLE_RATE,
            crate::analyzer::MIN_CHUNK <= chunk_size <= crate::analyzer::MAX_CHUNK,
        ensures
            r.wf(),
            r.sample_rate == sample_rate,
            r.chunk_size == chunk_size,
            r.frames@ == Seq::<PrescanFrame>::empty(),
            r.beat_count == 0,
            r.bpm_values@ == Seq::<u32>::empty(),
            r.peak_bass == 0 && r.peak_mid == 0 && r.peak_treble == 0 && r.peak_presence == 0
                && r.peak_volume == 0 && r.peak_spectral_flux == 0 && r.peak_onset == 0,
            r.analyzer.previous_spectrum@ == Seq::<u64>::empty(),
            r.analyzer.tempo_detector.estimated_bpm == crate::tempo::DEFAULT_BPM,
    {
        PrescanProcessor {
            chunk_size,
            sample_rate,
            analyzer: CpuAudioAnalyzer::new(sample_rate, chunk_size),
            normalizer: FeatureNormalizer::new(),
            frames: Vec::new(),
            beat_count: 0,
            bpm_values: Vec::new(),
            peak_bass: 0,
            peak_mid: 0,
            peak_treble: 0,
            peak_presence: 0,
            peak_volume: 0,
            peak_spectral_flux: 0,
            peak_onset: 0,
        }
    }

    /// Fold one window's raw features (from either backend) into the scan:
    /// normalize them, record the frame at the next uniform timestamp, and
    /// update peaks, the beat count and the plausible-tempo collection.
    pub fn process_features(&mut self, raw: &RawAudioFeatures)
        requires
            old(self).wf(),
            old(self).frames@.len() < u32::MAX,
            old(self).frames@.len() * old(self).window_us_spec() <= u64::MAX,
        ensures
            final(self).wf(),
            final(self).chunk_size == old(self).chunk_size,
            final(self).sample_rate == old(self).sample_rate,
            final(self).analyzer == old(self).analyzer,
            final(self).normalizer == old(self).normalizer,
            final(self).frames@.len() == old(self).frames@.len() + 1,
            ({
                let n = spec_normalize(NormalizationParameters::spec_default(), *raw);
                let ts = old(self).frames@.len() * old(self).window_us_spec();
                &&& final(self).frames@ == old(self).frames@.push(frame_from(n, ts as u64))
                &&& final(self).beat_count == old(self).beat_count + (if n.beat_strength
                    > FRAME_BEAT_THRESHOLD {
                    1int
                } else {
                    0int
                })
                &&& final(self).bpm_values@ == (if n.beat_strength > FRAME_BEAT_THRESHOLD
                    && PLAUSIBLE_BPM_MIN < n.estimated_bpm < PLAUSIBLE_BPM_MAX {
                    old(self).bpm_values@.push(n.estimated_bpm)
                } else {
                    old(self).bpm_values@
                })
                &&& final(self).peak_bass == pmax(old(self).peak_bass, n.bass)
                &&& final(self).peak_mid == pmax(old(self).peak_mid, n.mid)
                &&& final(self).peak_treble == pmax(old(self).peak_treble, n.treble)
                &&& final(self).peak_presence == pmax(old(self).peak_presence, n.presence)
                &&& final(self).peak_volume == pmax(old(self).peak_volume, n.volume)
                &&& final(self).peak_spectral_flux == pmax(old(self).peak_spectral_flux, n.spectral_flux)
                &&& final(self).peak_onset == pmax(old(self).peak_onset, n.onset_strength)
            }),
    {
        let n = self.normalizer.normalize(raw);
        let window: u64 = (self.chunk_size as u64) * 1_000_000 / (self.sample_rate as u64);
        let ts: u64 = (self.frames.len() as u64) * window;

        let frame = PrescanFrame {
            timestamp: ts,
            frequency_bands: FrequencyBands {
                bass: n.bass,
                mid: n.mid,
                treble: n.treble,
                sub_bass: n.sub_bass,
                presence: n.presence,
            },
            beat_detected: n.beat_strength > FRAME_BEAT_THRESHOLD,
            beat_strength: n.beat_strength,
            estimated_bpm: n.estimated_bpm,
            spectral_centroid: n.spectral_centroid,
            spectral_rolloff: n.spectral_rolloff,
            pitch_confidence: n.pitch_confidence,
            zero_crossing_rate: n.zero_crossing_rate,
            spectral_flux: n.spectral_flux,
            onset_strength: n.onset_strength,
            dynamic_range: n.dynamic_range,
            volume: n.volume,
        };

        if frame.beat_detected {
            self.beat_count = self.beat_count + 1;
            if n.estimated_bpm > PLAUSIBLE_BPM_MIN && n.estimated_bpm < PLAUSIBLE_BPM_MAX {
                self.bpm_values.push(n.estimated_bpm);
            }
        }

        self.peak_bass = max_u32(self.peak_bass, n.bass);
        self.peak_mid = max_u32(self.peak_mid, n.mid);
        self.peak_treble = max_u32(self.peak_treble, n.treble);
        self.peak_presence = max_u32(self.peak_presence, n.presence);
        self.peak_volume = max_u32(self.peak_volume, n.volume);
        self.peak_spectral_flux = max_u32(self.peak_spectral_flux, n.spectral_flux);
        self.peak_onset = max_u32(self.peak_onset, n.onset_strength);

        self.frames.push(frame);
    }

    /// Analyze one window with the CPU backend and fold the result into the
    /// scan. Each raw feature is pinned to its extraction formula over the
    /// window's samples and spectrum; the rest of the step behaves exactly
    /// as `process_features` on those features.
    pub fn process_window(&mut self, samples: &Vec<i64>, spectrum: &Vec<u64>) -> (raw: RawAudioFeatures)
        requires
            old(self).wf(),
            samples@.len() == old(self).chunk_size,
            crate::analyzer::samples_ok(samples@),
            spectrum@.len() == old(self).chunk_size / 2,
            crate::analyzer::spectrum_ok(spectrum@),
            old(self).frames@.len() < u32::MAX,
            old(self).frames@.len() * old(self).window_us_spec() <= u64::MAX,
            old(self).analyzer.beat_detector.time_counter + old(
                self,
            ).analyzer.beat_detector.window_us <= u64::MAX,
            old(self).analyzer.tempo_detector.current_time + old(
                self,
            ).analyzer.beat_detector.window_us <= u64::MAX,
        ensures
            final(self).wf(),
            final(self).chunk_size == old(self).chunk_size,
            final(self).sample_rate == old(self).sample_rate,
            final(self).normalizer == old(self).normalizer,
            final(self).frames@.len() == old(self).frames@.len() + 1,
            final(self).analyzer.beat_detector.window_us == old(
                self,
            ).analyzer.beat_detector.window_us,
            final(self).analyzer.beat_detector.time_counter == old(
                self,
            ).analyzer.beat_detector.time_counter + old(self).analyzer.beat_detector.window_us,
            final(self).analyzer.tempo_detector.current_time == old(
                self,
            ).analyzer.tempo_detector.current_time + old(self).analyzer.beat_detector.window_us,
            raw.sub_bass == crate::analyzer::sub_bass_of(
                spectrum@,
                old(self).sample_rate as int,
                old(self).chunk_size as int,
            ),
            raw.bass == crate::analyzer::bass_of(
                spectrum@,
                old(self).sample_rate as int,
                old(self).chunk_size as int,
            ),
            raw.mid == crate::analyzer::mid_of(
                spectrum@,
                old(self).sample_rate as int,
                old(self).chunk_size as int,
            ),
            raw.treble == crate::analyzer::treble_of(
                spectrum@,
                old(self).sample_rate as int,
                old(self).chunk_size as int,
            ),
            raw.presence == crate::analyzer::presence_of(
                spectrum@,
                old(self).sample_rate as int,
                old(self).chunk_size as int,
            ),
            raw.spectral_centroid == crate::analyzer::centroid_pico(
                spectrum@,
                old(self).sample_rate as int,
                old(self).chunk_size as int,
            ),
            raw.spectral_rolloff == crate::analyzer::rolloff_pico(
                spectrum@,
                old(self).sample_rate as int,
                old(self).chunk_size as int,
            ),
            raw.zero_crossing_rate == crate::analyzer::zcr_pico(samples@),
            raw.spectral_flux == crate::analyzer::flux_pico(
                spectrum@,
                old(self).analyzer.previous_spectrum@,
            ),
            raw.onset_strength == crate::analyzer::onset_pico(
                spectrum@,
                old(self).analyzer.previous_spectrum@,
            ),
            raw.pitch_confidence == crate::analyzer::pitch_confidence_pico(spectrum@),
            raw.volume == crate::analyzer::volume_pico(samples@),
            raw.beat_strength == crate::analyzer::raw_beat_strength(
                crate::analyzer::bass_of(
                    spectrum@,
                    old(self).sample_rate as int,
                    old(self).chunk_size as int,
                ),
                crate::analyzer::sub_bass_of(
                    spectrum@,
                    old(self).sample_rate as int,
                    old(self).chunk_size as int,
                ),
            ),
            raw.estimated_bpm == final(self).analyzer.tempo_detector.estimated_bpm,
            final(self).analyzer.previous_spectrum@ == spectrum@,
            crate::analyzer::sub_bass_of(
                spectrum@,
                old(self).sample_rate as int,
                old(self).chunk_size as int,
            ) == 0 && crate::analyzer::bass_of(
                spectrum@,
                old(self).sample_rate as int,
                old(self).chunk_size as int,
            ) == 0 ==> final(self).analyzer.tempo_detector.estimated_bpm == old(
                self,
            ).analyzer.tempo_detector.estimated_bpm,
            ({
                let n = spec_normalize(NormalizationParameters::spec_default(), raw);
                let ts = old(self).frames@.len() * old(self).window_us_spec();
                &&& final(self).frames@ == old(self).frames@.push(frame_from(n, ts as u64))
                &&& final(self).beat_count == old(self).beat_count + (if n.beat_strength
                    > FRAME_BEAT_THRESHOLD {
                    1int
                } else {
                    0int
                })
                &&& final(self).bpm_values@ == (if n.beat_strength > FRAME_BEAT_THRESHOLD
                    && PLAUSIBLE_BPM_MIN < n.estimated_bpm < PLAUSIBLE_BPM_MAX {
                    old(self).bpm_values@.push(n.estimated_bpm)
                } else {
                    old(self).bpm_values@
                })
                &&& final(self).peak_bass == pmax(old(self).peak_bass, n.bass)
                &&& final(self).peak_mid == pmax(old(self).peak_mid, n.mid)
                &&& final(self).peak_treble == pmax(old(self).peak_treble, n.treble)
                &&& final(self).peak_presence == pmax(old(self).peak_presence, n.presence)
                &&& final(self).peak_volume == pmax(old(self).peak_volume, n.volume)
                &&& final(self).peak_spectral_flux == pmax(old(self).peak_spectral_flux, n.spectral_flux)
                &&& final(self).peak_onset == pmax(old(self).peak_onset, n.onset_strength)
            }),
    {
        let raw = self.analyzer.analyze_chunk(samples, spectrum);
        self.process_features(&raw);
        raw
    }

    /// Close the scan: aggregate the collected tempos (the defaults stand if
    /// no beats were recorded), classify the content, and assemble the
    /// persisted unit.
    pub fn finalize(self, filename: Vec<u8>, total_samples: u64) -> (d: PrescanData)
        requires
            self.wf(),
            total_samples <= 18_000_000_000_000,
        ensures
            d.wf(),
            d.file_info.filename == filename,
            d.file_info.duration_us == total_samples * 1_000_000 / (self.sample_rate as int),
            d.file_info.sample_rate == self.sample_rate,
            d.file_info.total_samples == total_samples,
            d.file_info.frame_rate_uhz == (self.sample_rate as int) * 1_000_000 / (self.chunk_size
                as int),
            d.file_info.chunk_size == self.chunk_size,
            d.frames@ == self.frames@,
            d.statistics.peak_bass == self.peak_bass,
            d.statistics.peak_mid == self.peak_mid,
            d.statistics.peak_treble == self.peak_treble,
            d.statistics.peak_presence == self.peak_presence,
            d.statistics.peak_volume == self.peak_volume,
            d.statistics.peak_spectral_flux == self.peak_spectral_flux,
            d.statistics.peak_onset == self.peak_onset,
            d.statistics.total_beats == self.beat_count,
            d.statistics.average_bpm == (if self.bpm_values@.len() == 0 {
                120_000_000int
            } else {
                sum32(self.bpm_values@) / self.bpm_values@.len() as int
            }),
            d.statistics.bpm_range == (if self.bpm_values@.len() == 0 {
                (60_000_000u64, 180_000_000u64)
            } else {
                (
                    crate::seqsum::min32_of(self.bpm_values@) as u64,
                    crate::seqsum::max32_of(self.bpm_values@) as u64,
                )
            }),
            d.statistics.dominant_frequency_range == dominant_of(self.frames@),
            d.statistics.energy_profile == energy_profile_of(self.frames@),
            d.statistics.complexity_score == complexity_of(self.frames@),
    {
        let duration_us: u64 = total_samples * 1_000_000 / (self.sample_rate as u64);
        let frame_rate_uhz: u64 = (self.sample_rate as u64) * 1_000_000 / (self.chunk_size as u64);

        let mut stats = AnalysisStatistics::default();
        stats.peak_bass = self.peak_bass;
        stats.peak_mid = self.peak_mid;
        stats.peak_treble = self.peak_treble;
        stats.peak_presence = self.peak_presence;
        stats.peak_volume = self.peak_volume;
        stats.peak_spectral_flux = self.peak_spectral_flux;
        stats.peak_onset = self.peak_onset;
        stats.total_beats = self.beat_count;

        if self.bpm_values.len() > 0 {
            let agg = bpm_aggregate(&self.bpm_values);
            stats.average_bpm = agg.0;
            stats.bpm_range = (agg.1, agg.2);
        }

        classify_unified_content(&mut stats, &self.frames);

        PrescanData {
            file_info: FileInfo {
                filename,
                duration_us,
                sample_rate: self.sample_rate,
                total_samples,
                frame_rate_uhz,
                chunk_size: self.chunk_size as u64,
            },
            frames: self.frames,
            statistics: stats,
        }
    }
}

/// Mean, smallest and largest of a non-empty collection of plausible tempos.
fn bpm_aggregate(v: &Vec<u32>) -> (r: (u64, u64, u64))
    requires
        1 <= v@.len() <= u32::MAX,
        forall|i: int|
            0 <= i < v@.len() ==> PLAUSIBLE_BPM_MIN < #[trigger] v@[i] < PLAUSIBLE_BPM_MAX,
    ensures
        r.0 == sum32(v@) / v@.len() as int,
        r.1 == crate::seqsum::min32_of(v@),
        r.2 == crate::seqsum::max32_of(v@),
{
    let mut total: u64 = 0;
    let mut mn: u32 = v[0];
    let mut mx: u32 = v[0];
    let mut i: usize = 0;
    proof {
        assert(v@.subrange(0, 0) =~= Seq::<u32>::empty());
        assert(v@.subrange(0, 1) =~= seq![v@[0]]);
        lemma_sum32_bounded(v@, PLAUSIBLE_BPM_MAX as int);
    }
    while i < v.len()
        invariant
            i <= v@.len() <= u32::MAX,
            forall|j: int|
                0 <= j < v@.len() ==> PLAUSIBLE_BPM_MIN < #[trigger] v@[j] < PLAUSIBLE_BPM_MAX,
            total == sum32(v@.subrange(0, i as int)),
            total <= i * (PLAUSIBLE_BPM_MAX as int),
            i == 0 ==> mn == v@[0] && mx == v@[0],
            i >= 1 ==> mn == crate::seqsum::min32_of(v@.subrange(0, i as int)),
            i >= 1 ==> mx == crate::seqsum::max32_of(v@.subrange(0, i as int)),
        decreases v@.len() - i,
    {
        proof {
            lemma_sum32_step(v@, i as int);
            if i >= 1 {
                crate::seqsum::lemma_max32_of_step(v@, i as int);
                crate::seqsum::lemma_min32_of_step(v@, i as int);
            }
        }
        let x = v[i];
        total = total + (x as u64);
        if x < mn {
            mn = x;
        }
        if x > mx {
            mx = x;
        }
        i = i + 1;
    }
    proof {
        assert(v@.subrange(0, v@.len() as int) =~= v@);
    }
    (total / (v.len() as u64), mn as u64, mx as u64)
}

} // verus!
