//! The single source of truth for feature normalization: fixed calibrated
//! bounds or adaptive range learning, converting raw backend-native features
//! into `[0, MICRO]` micro-units.

use vstd::prelude::*;
use vstd::arithmetic::div_mod::lemma_div_is_ordered_by_denominator;
use crate::features::{NormalizedAudioFeatures, RawAudioFeatures};
use crate::fixed::{clamp_ratio_unit, ratio_unit};

verus! {

/// Samples an adaptive normalizer must see before its observed ranges take
/// over from the fixed defaults.
pub const WARMUP_SAMPLES: u64 = 100;

/// Per-field upper bounds (and a BPM min/max pair) defining the linear scale
/// `clamp(raw / max, 0, 1)`. Magnitude bounds are in pico-units, the two
/// frequency bounds in pico-Hz, the BPM pair in micro-BPM.
#[derive(Clone, Copy, Debug, PartialEq, Eq, Structural)]
pub struct NormalizationParameters {
    pub sub_bass_max: u64,
    pub bass_max: u64,
    pub mid_max: u64,
    pub treble_max: u64,
    pub presence_max: u64,
    pub spectral_centroid_max: u64,
    pub spectral_rolloff_max: u64,
    pub spectral_flux_max: u64,
    pub zero_crossing_rate_max: u64,
    pub onset_strength_max: u64,
    pub beat_strength_max: u64,
    pub bpm_min: u64,
    pub bpm_max: u64,
    pub volume_max: u64,
    pub dynamic_range_max: u64,
    pub pitch_confidence_max: u64,
}

impl NormalizationParameters {
    /// Every bound is positive and the BPM range is ordered and fits the
    /// normalized record's field.
    pub open spec fn wf(self) -> bool {
        &&& self.sub_bass_max >= 1
        &&& self.bass_max >= 1
        &&& self.mid_max >= 1
        &&& self.treble_max >= 1
        &&& self.presence_max >= 1
        &&& self.spectral_centroid_max >= 1
        &&& self.spectral_rolloff_max >= 1
        &&& self.spectral_flux_max >= 1
        &&& self.zero_crossing_rate_max >= 1
        &&& self.onset_strength_max >= 1
        &&& self.beat_strength_max >= 1
        &&& self.bpm_min <= self.bpm_max
        &&& self.bpm_max <= u32::MAX
        &&& self.volume_max >= 1
        &&& self.dynamic_range_max >= 1
        &&& self.pitch_confidence_max >= 1
    }

    /// Compiled-in default bounds, tuned against reference corpora. The exact
    /// numbers are calibration data carried over verbatim (in pico-units).
    pub open spec fn spec_default() -> Self {
        NormalizationParameters {
            sub_bass_max: 100_000_000,  // 0.0001
            bass_max: 500_000_000,  // 0.0005
            mid_max: 200_000_000,  // 0.0002
            treble_max: 100_000_000,  // 0.0001
            presence_max: 50_000_000,  // 0.00005
            spectral_centroid_max: 8_000_000_000_000_000,  // 8000 Hz
            spectral_rolloff_max: 12_000_000_000_000_000,  // 12000 Hz
            spectral_flux_max: 100_000_000,  // 0.0001
            zero_crossing_rate_max: 500_000_000_000,  // 0.5
            onset_strength_max: 200_000_000,  // 0.0002
            beat_strength_max: 500_000_000,  // 0.0005
            bpm_min: 60_000_000,  // 60 BPM
            bpm_max: 200_000_000,  // 200 BPM
            volume_max: 100_000_000,  // 0.0001
            dynamic_range_max: 200_000_000,  // 0.0002
            pitch_confidence_max: 1_000_000_000_000,  // 1.0
        }
    }
}

impl Default for NormalizationParameters {
    fn default() -> (r: Self)
        ensures
            r == Self::spec_default(),
            r.wf(),
    {
        NormalizationParameters {
            sub_bass_max: 100_000_000,
            bass_max: 500_000_000,
            mid_max: 200_000_000,
            treble_max: 100_000_000,
            presence_max: 50_000_000,
            spectral_centroid_max: 8_000_000_000_000_000,
            spectral_rolloff_max: 12_000_000_000_000_000,
            spectral_flux_max: 100_000_000,
            zero_crossing_rate_max: 500_000_000_000,
            onset_strength_max: 200_000_000,
            beat_strength_max: 500_000_000,
            bpm_min: 60_000_000,
            bpm_max: 200_000_000,
            volume_max: 100_000_000,
            dynamic_range_max: 200_000_000,
            pitch_confidence_max: 1_000_000_000_000,
        }
    }
}

/// Running maxima per raw field plus a sample counter; the adaptive
/// normalizer's private learning state.
#[derive(Clone, Copy, Debug, PartialEq, Eq, Structural)]
pub struct ObservedRanges {
    pub sub_bass_max: u64,
    pub bass_max: u64,
    pub mid_max: u64,
    pub treble_max: u64,
    pub presence_max: u64,
    pub spectral_centroid_max: u64,
    pub spectral_rolloff_max: u64,
    pub spectral_flux_max: u64,
    pub zero_crossing_rate_max: u64,
    pub onset_strength_max: u64,
    pub beat_strength_max: u64,
    pub volume_max: u64,
    pub dynamic_range_max: u64,
    pub pitch_confidence_max: u64,
    pub sample_count: u64,
}

impl ObservedRanges {
    /// Every running maximum is positive, so scaled bounds stay positive.
    pub open spec fn wf(self) -> bool {
        &&& self.sub_bass_max >= 1
        &&& self.bass_max >= 1
        &&& self.mid_max >= 1
        &&& self.treble_max >= 1
        &&& self.presence_max >= 1
        &&& self.spectral_centroid_max >= 1
        &&& self.spectral_rolloff_max >= 1
        &&& self.spectral_flux_max >= 1
        &&& self.zero_crossing_rate_max >= 1
        &&& self.onset_strength_max >= 1
        &&& self.beat_strength_max >= 1
        &&& self.volume_max >= 1
        &&& self.dynamic_range_max >= 1
        &&& self.pitch_confidence_max >= 1
    }

    /// Small positive initialization floors; overtaken quickly by real data.
    pub open spec fn spec_default() -> Self {
        ObservedRanges {
            sub_bass_max: 1_000_000_000,  // 0.001
            bass_max: 1_000_000_000,
            mid_max: 1_000_000_000,
            treble_max: 1_000_000_000,
            presence_max: 1_000_000_000,
            spectral_centroid_max: 1_000_000_000_000,  // 1.0
            spectral_rolloff_max: 1_000_000_000_000,
            spectral_flux_max: 1_000_000_000,
            zero_crossing_rate_max: 1_000_000_000,
            onset_strength_max: 1_000_000_000,
            beat_strength_max: 1_000_000_000,
            volume_max: 1_000_000_000,
            dynamic_range_max: 1_000_000_000,
            pitch_confidence_max: 1_000_000_000,
            sample_count: 0,
        }
    }

    /// One adaptive step: fold a raw sample into the running maxima and count
    /// it (the counter saturates at its machine limit).
    pub open spec fn observe(self, raw: RawAudioFeatures) -> Self {
        ObservedRanges {
            sub_bass_max: smax(self.sub_bass_max, raw.sub_bass),
            bass_max: smax(self.bass_max, raw.bass),
            mid_max: smax(self.mid_max, raw.mid),
            treble_max: smax(self.treble_max, raw.treble),
            presence_max: smax(self.presence_max, raw.presence),
            spectral_centroid_max: smax(self.spectral_centroid_max, raw.spectral_centroid),
            spectral_rolloff_max: smax(self.spectral_rolloff_max, raw.spectral_rolloff),
            spectral_flux_max: smax(self.spectral_flux_max, raw.spectral_flux),
            zero_crossing_rate_max: smax(self.zero_crossing_rate_max, raw.zero_crossing_rate),
            onset_strength_max: smax(self.onset_strength_max, raw.onset_strength),
            beat_strength_max: smax(self.beat_strength_max, raw.beat_strength),
            volume_max: smax(self.volume_max, raw.volume),
            dynamic_range_max: smax(self.dynamic_range_max, raw.dynamic_range),
            pitch_confidence_max: smax(self.pitch_confidence_max, raw.pitch_confidence),
            sample_count: if self.sample_count == u64::MAX {
                u64::MAX
            } else {
                (self.sample_count + 1) as u64
            },
        }
    }
}

impl Default for ObservedRanges {
    fn default() -> (r: Self)
        ensures
            r == Self::spec_default(),
            r.wf(),
    {
        ObservedRanges {
            sub_bass_max: 1_000_000_000,
            bass_max: 1_000_000_000,
            mid_max: 1_000_000_000,
            treble_max: 1_000_000_000,
            presence_max: 1_000_000_000,
            spectral_centroid_max: 1_000_000_000_000,
            spectral_rolloff_max: 1_000_000_000_000,
            spectral_flux_max: 1_000_000_000,
            zero_crossing_rate_max: 1_000_000_000,
            onset_strength_max: 1_000_000_000,
            beat_strength_max: 1_000_000_000,
            volume_max: 1_000_000_000,
            dynamic_range_max: 1_000_000_000,
            pitch_confidence_max: 1_000_000_000,
            sample_count: 0,
        }
    }
}

/// The larger of two observed values.
pub open spec fn smax(a: u64, b: u64) -> u64 {
    if a >= b {
        a
    } else {
        b
    }
}

fn max_u64(a: u64, b: u64) -> (r: u64)
    ensures
        r == smax(a, b),
{
    if a >= b {
        a
    } else {
        b
    }
}

/// An observed maximum widened by 20% headroom, saturating at the machine
/// limit.
pub open spec fn headroom_wide(m: u64) -> u64 {
    if (m as int) * 12 / 10 > u64::MAX as int {
        u64::MAX
    } else {
        ((m as int) * 12 / 10) as u64
    }
}

/// An observed maximum widened by 10% headroom (for fields already close to
/// their natural ceiling), saturating at the machine limit.
pub open spec fn headroom_narrow(m: u64) -> u64 {
    if (m as int) * 11 / 10 > u64::MAX as int {
        u64::MAX
    } else {
        ((m as int) * 11 / 10) as u64
    }
}

fn apply_headroom_wide(m: u64) -> (r: u64)
    ensures
        r == headroom_wide(m),
{
    let wide: u128 = (m as u128) * 12 / 10;
    if wide > u64::MAX as u128 {
        u64::MAX
    } else {
        wide as u64
    }
}

fn apply_headroom_narrow(m: u64) -> (r: u64)
    ensures
        r == headroom_narrow(m),
{
    let wide: u128 = (m as u128) * 11 / 10;
    if wide > u64::MAX as u128 {
        u64::MAX
    } else {
        wide as u64
    }
}

/// A tempo clamped into `[lo, hi]` micro-BPM.
pub open spec fn clamp_bpm(v: u64, lo: u64, hi: u64) -> u64 {
    if v < lo {
        lo
    } else if v > hi {
        hi
    } else {
        v
    }
}

/// The normalized record that the parameters `p` dictate for the raw record
/// `raw`: each continuous field is `clamp(raw / bound, 0, 1)` in micro-units,
/// `beat_detected` holds exactly when the raw beat strength exceeds 30% of its
/// bound, and the tempo is clamped into `[bpm_min, bpm_max]`.
pub open spec fn spec_normalize(p: NormalizationParameters, raw: RawAudioFeatures) -> NormalizedAudioFeatures {
    NormalizedAudioFeatures {
        sub_bass: ratio_unit(raw.sub_bass as int, p.sub_bass_max as int) as u32,
        bass: ratio_unit(raw.bass as int, p.bass_max as int) as u32,
        mid: ratio_unit(raw.mid as int, p.mid_max as int) as u32,
        treble: ratio_unit(raw.treble as int, p.treble_max as int) as u32,
        presence: ratio_unit(raw.presence as int, p.presence_max as int) as u32,
        spectral_centroid: ratio_unit(raw.spectral_centroid as int, p.spectral_centroid_max as int) as u32,
        spectral_rolloff: ratio_unit(raw.spectral_rolloff as int, p.spectral_rolloff_max as int) as u32,
        spectral_flux: ratio_unit(raw.spectral_flux as int, p.spectral_flux_max as int) as u32,
        zero_crossing_rate: ratio_unit(raw.zero_crossing_rate as int, p.zero_crossing_rate_max as int) as u32,
        onset_strength: ratio_unit(raw.onset_strength as int, p.onset_strength_max as int) as u32,
        beat_detected: 10 * (raw.beat_strength as int) > 3 * (p.beat_strength_max as int),
        beat_strength: ratio_unit(raw.beat_strength as int, p.beat_strength_max as int) as u32,
        estimated_bpm: clamp_bpm(raw.estimated_bpm, p.bpm_min, p.bpm_max) as u32,
        volume: ratio_unit(raw.volume as int, p.volume_max as int) as u32,
        dynamic_range: ratio_unit(raw.dynamic_range as int, p.dynamic_range_max as int) as u32,
        pitch_confidence: ratio_unit(raw.pitch_confidence as int, p.pitch_confidence_max as int) as u32,
    }
}

/// Converts raw features into the bounded normalized form, with fixed
/// calibrated parameters or adaptive range learning.
#[derive(Clone, Copy, Debug)]
pub struct FeatureNormalizer {
    pub parameters: NormalizationParameters,
    pub adaptive: bool,
    pub observed_ranges: Option<ObservedRanges>,
}

impl FeatureNormalizer {
    /// Parameters are positive and adaptive state is present exactly in
    /// adaptive mode.
    pub open spec fn wf(self) -> bool {
        &&& self.parameters.wf()
        &&& self.adaptive <==> self.observed_ranges is Some
        &&& self.observed_ranges matches Some(o) ==> o.wf()
    }

    /// The bounds actually used for normalization: the fixed parameters until
    /// the adaptive state has seen more than `WARMUP_SAMPLES` samples, then
    /// the observed maxima with headroom (20% for most fields, 10% for the
    /// centroid, rolloff and pitch-confidence ceilings).
    pub open spec fn effective_spec(self) -> NormalizationParameters {
        match self.observed_ranges {
            Some(o) => if o.sample_count > WARMUP_SAMPLES {
                self.learned_bounds(o)
            } else {
                self.parameters
            },
            None => self.parameters,
        }
    }

    /// The observed maxima scaled by their headroom factors, keeping the
    /// configured BPM range.
    pub open spec fn learned_bounds(self, o: ObservedRanges) -> NormalizationParameters {
        NormalizationParameters {
                sub_bass_max: headroom_wide(o.sub_bass_max),
                bass_max: headroom_wide(o.bass_max),
                mid_max: headroom_wide(o.mid_max),
                treble_max: headroom_wide(o.treble_max),
                presence_max: headroom_wide(o.presence_max),
                spectral_centroid_max: headroom_narrow(o.spectral_centroid_max),
                spectral_rolloff_max: headroom_narrow(o.spectral_rolloff_max),
                spectral_flux_max: headroom_wide(o.spectral_flux_max),
                zero_crossing_rate_max: headroom_wide(o.zero_crossing_rate_max),
                onset_strength_max: headroom_wide(o.onset_strength_max),
                beat_strength_max: headroom_wide(o.beat_strength_max),
                bpm_min: self.parameters.bpm_min,
                bpm_max: self.parameters.bpm_max,
                volume_max: headroom_wide(o.volume_max),
                dynamic_range_max: headroom_wide(o.dynamic_range_max),
                pitch_confidence_max: headroom_narrow(o.pitch_confidence_max),
            }
    }

    /// A normalizer with the compiled-in default parameters.
    pub fn new() -> (r: Self)
        ensures
            r.wf(),
            !r.adaptive,
            r.parameters == NormalizationParameters::spec_default(),
            r.effective_spec() == NormalizationParameters::spec_default(),
    {
        FeatureNormalizer {
            parameters: NormalizationParameters::default(),
            adaptive: false,
            observed_ranges: None,
        }
    }

    /// An adaptive normalizer that learns its ranges from the data it sees.
    pub fn new_adaptive() -> (r: Self)
        ensures
            r.wf(),
            r.adaptive,
            r.parameters == NormalizationParameters::spec_default(),
            r.observed_ranges == Some(ObservedRanges::spec_default()),
    {
        FeatureNormalizer {
            parameters: NormalizationParameters::default(),
            adaptive: true,
            observed_ranges: Some(ObservedRanges::default()),
        }
    }

    /// A normalizer with explicit custom parameters.
    pub fn with_parameters(parameters: NormalizationParameters) -> (r: Self)
        requires
            parameters.wf(),
        ensures
            r.wf(),
            !r.adaptive,
            r.parameters == parameters,
            r.effective_spec() == parameters,
    {
        FeatureNormalizer {
            parameters,
            adaptive: false,
            observed_ranges: None,
        }
    }

    /// The fixed parameters this normalizer was configured with.
    pub fn get_parameters(&self) -> (r: &NormalizationParameters)
        ensures
            *r == self.parameters,
    {
        &self.parameters
    }

    pub(crate) fn effective_parameters(&self) -> (p: NormalizationParameters)
        requires
            self.wf(),
        ensures
            p == self.effective_spec(),
            p.wf(),
    {
        match &self.observed_ranges {
            Some(o) if o.sample_count > WARMUP_SAMPLES => {
                NormalizationParameters {
                    sub_bass_max: apply_headroom_wide(o.sub_bass_max),
                    bass_max: apply_headroom_wide(o.bass_max),
                    mid_max: apply_headroom_wide(o.mid_max),
                    treble_max: apply_headroom_wide(o.treble_max),
                    presence_max: apply_headroom_wide(o.presence_max),
                    spectral_centroid_max: apply_headroom_narrow(o.spectral_centroid_max),
                    spectral_rolloff_max: apply_headroom_narrow(o.spectral_rolloff_max),
                    spectral_flux_max: apply_headroom_wide(o.spectral_flux_max),
                    zero_crossing_rate_max: apply_headroom_wide(o.zero_crossing_rate_max),
                    onset_strength_max: apply_headroom_wide(o.onset_strength_max),
                    beat_strength_max: apply_headroom_wide(o.beat_strength_max),
                    bpm_min: self.parameters.bpm_min,
                    bpm_max: self.parameters.bpm_max,
                    volume_max: apply_headroom_wide(o.volume_max),
                    dynamic_range_max: apply_headroom_wide(o.dynamic_range_max),
                    pitch_confidence_max: apply_headroom_narrow(o.pitch_confidence_max),
                }
            },
            _ => self.parameters,
        }
    }

    /// Normalize one raw record. In adaptive mode the observed ranges are
    /// folded forward first; the output is exactly what the effective
    /// parameters dictate, and every continuous field is bounded.
    pub fn normalize(&mut self, raw: &RawAudioFeatures) -> (r: NormalizedAudioFeatures)
        requires
            old(self).wf(),
        ensures
            final(self).wf(),
            final(self).parameters == old(self).parameters,
            final(self).adaptive == old(self).adaptive,
            old(self).adaptive ==> final(self).observed_ranges == Some(
                old(self).observed_ranges.unwrap().observe(*raw),
            ),
            !old(self).adaptive ==> *final(self) == *old(self),
            r == spec_normalize(final(self).effective_spec(), *raw),
            r.bounded(),
    {
        if self.adaptive {
            let updated = match &self.observed_ranges {
                Some(o) => Some(observe_ranges(o, raw)),
                None => None,
            };
            self.observed_ranges = updated;
        }
        let p = self.effective_parameters();

        NormalizedAudioFeatures {
            sub_bass: clamp_ratio_unit(raw.sub_bass, p.sub_bass_max),
            bass: clamp_ratio_unit(raw.bass, p.bass_max),
            mid: clamp_ratio_unit(raw.mid, p.mid_max),
            treble: clamp_ratio_unit(raw.treble, p.treble_max),
            presence: clamp_ratio_unit(raw.presence, p.presence_max),
            spectral_centroid: clamp_ratio_unit(raw.spectral_centroid, p.spectral_centroid_max),
            spectral_rolloff: clamp_ratio_unit(raw.spectral_rolloff, p.spectral_rolloff_max),
            spectral_flux: clamp_ratio_unit(raw.spectral_flux, p.spectral_flux_max),
            zero_crossing_rate: clamp_ratio_unit(raw.zero_crossing_rate, p.zero_crossing_rate_max),
            onset_strength: clamp_ratio_unit(raw.onset_strength, p.onset_strength_max),
            beat_detected: is_beat(raw.beat_strength, p.beat_strength_max),
            beat_strength: clamp_ratio_unit(raw.beat_strength, p.beat_strength_max),
            estimated_bpm: clamp_bpm_exec(raw.estimated_bpm, p.bpm_min, p.bpm_max),
            volume: clamp_ratio_unit(raw.volume, p.volume_max),
            dynamic_range: clamp_ratio_unit(raw.dynamic_range, p.dynamic_range_max),
            pitch_confidence: clamp_ratio_unit(raw.pitch_confidence, p.pitch_confidence_max),
        }
    }
}

impl Default for FeatureNormalizer {
    fn default() -> (r: Self)
        ensures
            r.wf(),
            !r.adaptive,
            r.parameters == NormalizationParameters::spec_default(),
    {
        Self::new()
    }
}

fn observe_ranges(o: &ObservedRanges, raw: &RawAudioFeatures) -> (r: ObservedRanges)
    ensures
        r == o.observe(*raw),
        o.wf() ==> r.wf(),
{
    ObservedRanges {
        sub_bass_max: max_u64(o.sub_bass_max, raw.sub_bass),
        bass_max: max_u64(o.bass_max, raw.bass),
        mid_max: max_u64(o.mid_max, raw.mid),
        treble_max: max_u64(o.treble_max, raw.treble),
        presence_max: max_u64(o.presence_max, raw.presence),
        spectral_centroid_max: max_u64(o.spectral_centroid_max, raw.spectral_centroid),
        spectral_rolloff_max: max_u64(o.spectral_rolloff_max, raw.spectral_rolloff),
        spectral_flux_max: max_u64(o.spectral_flux_max, raw.spectral_flux),
        zero_crossing_rate_max: max_u64(o.zero_crossing_rate_max, raw.zero_crossing_rate),
        onset_strength_max: max_u64(o.onset_strength_max, raw.onset_strength),
        beat_strength_max: max_u64(o.beat_strength_max, raw.beat_strength),
        volume_max: max_u64(o.volume_max, raw.volume),
        dynamic_range_max: max_u64(o.dynamic_range_max, raw.dynamic_range),
        pitch_confidence_max: max_u64(o.pitch_confidence_max, raw.pitch_confidence),
        sample_count: if o.sample_count == u64::MAX {
            u64::MAX
        } else {
            o.sample_count + 1
        },
    }
}

/// The raw beat strength exceeds 30% of its bound.
fn is_beat(strength: u64, bound: u64) -> (r: bool)
    ensures
        r == (10 * (strength as int) > 3 * (bound as int)),
{
    let s: u128 = (strength as u128) * 10;
    let b: u128 = (bound as u128) * 3;
    s > b
}

fn clamp_bpm_exec(v: u64, lo: u64, hi: u64) -> (r: u32)
    requires
        lo <= hi,
        hi <= u32::MAX,
    ensures
        r == clamp_bpm(v, lo, hi),
{
    if v < lo {
        lo as u32
    } else if v > hi {
        hi as u32
    } else {
        v as u32
    }
}

/// Law (adaptive warm-up): while an adaptive normalizer has seen at most
/// `WARMUP_SAMPLES` samples, its effective bounds are exactly its fixed
/// parameters, so it normalizes every raw record exactly as a fixed-parameter
/// normalizer with the same parameters does.
pub proof fn lemma_adaptive_warm_up(n: FeatureNormalizer, raw: RawAudioFeatures)
    requires
        n.wf(),
        n.adaptive,
        n.observed_ranges.unwrap().sample_count <= WARMUP_SAMPLES,
    ensures
        n.effective_spec() == n.parameters,
        spec_normalize(n.effective_spec(), raw) == spec_normalize(n.parameters, raw),
{
}

/// Division by a larger positive bound yields a ratio no larger.
pub proof fn lemma_ratio_unit_antitone(v: int, b1: int, b2: int)
    requires
        0 <= v,
        1 <= b1 <= b2,
    ensures
        ratio_unit(v, b2) <= ratio_unit(v, b1),
{
    lemma_div_is_ordered_by_denominator(v * 1_000_000, b1, b2);
}

/// Every per-field bound of `p2` is at least the matching bound of `p1`, with
/// the same BPM range.
pub open spec fn bounds_at_least(p1: NormalizationParameters, p2: NormalizationParameters) -> bool {
    &&& p2.sub_bass_max >= p1.sub_bass_max
    &&& p2.bass_max >= p1.bass_max
    &&& p2.mid_max >= p1.mid_max
    &&& p2.treble_max >= p1.treble_max
    &&& p2.presence_max >= p1.presence_max
    &&& p2.spectral_centroid_max >= p1.spectral_centroid_max
    &&& p2.spectral_rolloff_max >= p1.spectral_rolloff_max
    &&& p2.spectral_flux_max >= p1.spectral_flux_max
    &&& p2.zero_crossing_rate_max >= p1.zero_crossing_rate_max
    &&& p2.onset_strength_max >= p1.onset_strength_max
    &&& p2.beat_strength_max >= p1.beat_strength_max
    &&& p2.bpm_min == p1.bpm_min
    &&& p2.bpm_max == p1.bpm_max
    &&& p2.volume_max >= p1.volume_max
    &&& p2.dynamic_range_max >= p1.dynamic_range_max
    &&& p2.pitch_confidence_max >= p1.pitch_confidence_max
}

/// Law (learning shrinks): once adaptive learning has pushed every effective
/// bound at or above the fixed default (as a large observed outlier does),
/// each normalized field is no larger than what the fixed-default normalizer
/// yields for the same raw record.
pub proof fn lemma_wider_bounds_shrink(p1: NormalizationParameters, p2: NormalizationParameters, raw: RawAudioFeatures)
    requires
        p1.wf(),
        p2.wf(),
        bounds_at_least(p1, p2),
    ensures
        spec_normalize(p2, raw).sub_bass <= spec_normalize(p1, raw).sub_bass,
        spec_normalize(p2, raw).bass <= spec_normalize(p1, raw).bass,
        spec_normalize(p2, raw).mid <= spec_normalize(p1, raw).mid,
        spec_normalize(p2, raw).treble <= spec_normalize(p1, raw).treble,
        spec_normalize(p2, raw).presence <= spec_normalize(p1, raw).presence,
        spec_normalize(p2, raw).spectral_centroid <= spec_normalize(p1, raw).spectral_centroid,
        spec_normalize(p2, raw).spectral_rolloff <= spec_normalize(p1, raw).spectral_rolloff,
        spec_normalize(p2, raw).spectral_flux <= spec_normalize(p1, raw).spectral_flux,
        spec_normalize(p2, raw).zero_crossing_rate <= spec_normalize(p1, raw).zero_crossing_rate,
        spec_normalize(p2, raw).onset_strength <= spec_normalize(p1, raw).onset_strength,
        spec_normalize(p2, raw).beat_strength <= spec_normalize(p1, raw).beat_strength,
        spec_normalize(p2, raw).volume <= spec_normalize(p1, raw).volume,
        spec_normalize(p2, raw).dynamic_range <= spec_normalize(p1, raw).dynamic_range,
        spec_normalize(p2, raw).pitch_confidence <= spec_normalize(p1, raw).pitch_confidence,
        spec_normalize(p2, raw).estimated_bpm == spec_normalize(p1, raw).estimated_bpm,
{
    lemma_ratio_unit_antitone(raw.sub_bass as int, p1.sub_bass_max as int, p2.sub_bass_max as int);
    lemma_ratio_unit_antitone(raw.bass as int, p1.bass_max as int, p2.bass_max as int);
    lemma_ratio_unit_antitone(raw.mid as int, p1.mid_max as int, p2.mid_max as int);
    lemma_ratio_unit_antitone(raw.treble as int, p1.treble_max as int, p2.treble_max as int);
    lemma_ratio_unit_antitone(raw.presence as int, p1.presence_max as int, p2.presence_max as int);
    lemma_ratio_unit_antitone(
        raw.spectral_centroid as int,
        p1.spectral_centroid_max as int,
        p2.spectral_centroid_max as int,
    );
    lemma_ratio_unit_antitone(
        raw.spectral_rolloff as int,
        p1.spectral_rolloff_max as int,
        p2.spectral_rolloff_max as int,
    );
    lemma_ratio_unit_antitone(
        raw.spectral_flux as int,
        p1.spectral_flux_max as int,
        p2.spectral_flux_max as int,
    );
    lemma_ratio_unit_antitone(
        raw.zero_crossing_rate as int,
        p1.zero_crossing_rate_max as int,
        p2.zero_crossing_rate_max as int,
    );
    lemma_ratio_unit_antitone(
        raw.onset_strength as int,
        p1.onset_strength_max as int,
        p2.onset_strength_max as int,
    );
    lemma_ratio_unit_antitone(
        raw.beat_strength as int,
        p1.beat_strength_max as int,
        p2.beat_strength_max as int,
    );
    lemma_ratio_unit_antitone(raw.volume as int, p1.volume_max as int, p2.volume_max as int);
    lemma_ratio_unit_antitone(
        raw.dynamic_range as int,
        p1.dynamic_range_max as int,
        p2.dynamic_range_max as int,
    );
    lemma_ratio_unit_antitone(
        raw.pitch_confidence as int,
        p1.pitch_confidence_max as int,
        p2.pitch_confidence_max as int,
    );
}

} // verus!
