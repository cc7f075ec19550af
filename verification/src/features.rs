//! Feature records: raw (backend-native scale) and normalized (bounded) forms.

use vstd::prelude::*;

verus! {

/// Raw audio features of one analysis window, in backend-native units.
///
/// Magnitude-like fields carry pico-units (`fixed::PICO` per 1.0); the two
/// frequency fields (`spectral_centroid`, `spectral_rolloff`) carry pico-Hz;
/// `estimated_bpm` carries micro-BPM. All fields are non-negative and not
/// inherently bounded; their scales differ by orders of magnitude between
/// backends, which the normalizer exists to erase.
#[derive(Clone, Copy, Debug, PartialEq, Eq, Structural)]
pub struct RawAudioFeatures {
    pub sub_bass: u64,
    pub bass: u64,
    pub mid: u64,
    pub treble: u64,
    pub presence: u64,
    pub spectral_centroid: u64,
    pub spectral_rolloff: u64,
    pub spectral_flux: u64,
    pub zero_crossing_rate: u64,
    pub onset_strength: u64,
    pub beat_strength: u64,
    pub estimated_bpm: u64,
    pub volume: u64,
    pub dynamic_range: u64,
    pub pitch_confidence: u64,
}

/// Normalized audio features: every continuous field lies in `[0, MICRO]`
/// micro-units (0.0 to 1.0), except `estimated_bpm`, which stays a literal
/// tempo in micro-BPM clamped to the configured range.
#[derive(Clone, Copy, Debug, PartialEq, Eq, Structural)]
pub struct NormalizedAudioFeatures {
    pub sub_bass: u32,
    pub bass: u32,
    pub mid: u32,
    pub treble: u32,
    pub presence: u32,
    pub spectral_centroid: u32,
    pub spectral_rolloff: u32,
    pub spectral_flux: u32,
    pub zero_crossing_rate: u32,
    pub onset_strength: u32,
    pub beat_detected: bool,
    pub beat_strength: u32,
    pub estimated_bpm: u32,
    pub volume: u32,
    pub dynamic_range: u32,
    pub pitch_confidence: u32,
}

impl NormalizedAudioFeatures {
    /// Every continuous field lies in `[0, MICRO]` micro-units.
    pub open spec fn bounded(self) -> bool {
        &&& self.sub_bass <= 1_000_000
        &&& self.bass <= 1_000_000
        &&& self.mid <= 1_000_000
        &&& self.treble <= 1_000_000
        &&& self.presence <= 1_000_000
        &&& self.spectral_centroid <= 1_000_000
        &&& self.spectral_rolloff <= 1_000_000
        &&& self.spectral_flux <= 1_000_000
        &&& self.zero_crossing_rate <= 1_000_000
        &&& self.onset_strength <= 1_000_000
        &&& self.beat_strength <= 1_000_000
        &&& self.volume <= 1_000_000
        &&& self.dynamic_range <= 1_000_000
        &&& self.pitch_confidence <= 1_000_000
    }
}

/// Normalized per-band energies of one window, in micro-units.
#[derive(Clone, Copy, Debug, PartialEq, Eq, Structural)]
pub struct FrequencyBands {
    pub bass: u32,
    pub mid: u32,
    pub treble: u32,
    pub sub_bass: u32,
    pub presence: u32,
}

impl FrequencyBands {
    /// Every band lies in `[0, MICRO]` micro-units.
    pub open spec fn bounded(self) -> bool {
        &&& self.bass <= 1_000_000
        &&& self.mid <= 1_000_000
        &&& self.treble <= 1_000_000
        &&& self.sub_bass <= 1_000_000
        &&& self.presence <= 1_000_000
    }
}

} // verus!
