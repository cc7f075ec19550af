use arvee::analyzer::CpuAudioAnalyzer;
use arvee::beat::BeatDetector;
use arvee::features::RawAudioFeatures;
use arvee::fixed::{clamp_ratio_unit, isqrt};
use arvee::normalizer::FeatureNormalizer;
use arvee::tempo::TempoDetector;

fn raw_uniform(v: u64) -> RawAudioFeatures {
    RawAudioFeatures {
        sub_bass: v,
        bass: v,
        mid: v,
        treble: v,
        presence: v,
        spectral_centroid: v,
        spectral_rolloff: v,
        spectral_flux: v,
        zero_crossing_rate: v,
        onset_strength: v,
        beat_strength: v,
        estimated_bpm: 120_000_000,
        volume: v,
        dynamic_range: v,
        pitch_confidence: v,
    }
}

#[test]
fn isqrt_matches_known_roots() {
    assert_eq!(isqrt(0), 0);
    assert_eq!(isqrt(15), 3);
    assert_eq!(isqrt(16), 4);
    assert_eq!(isqrt(1_000_000_000_000), 1_000_000);
    assert_eq!(isqrt(u64::MAX as u128), 4_294_967_295);
}

#[test]
fn ratio_clamps_into_unit_range() {
    assert_eq!(clamp_ratio_unit(500, 1000), 500_000);
    assert_eq!(clamp_ratio_unit(1000, 1000), 1_000_000);
    assert_eq!(clamp_ratio_unit(2000, 1000), 1_000_000);
    assert_eq!(clamp_ratio_unit(0, 1000), 0);
}

#[test]
fn normalizer_output_is_bounded() {
    let mut n = FeatureNormalizer::new();
    // Raw values far beyond every bound still land in [0, 1].
    let out = n.normalize(&raw_uniform(u64::MAX / 2));
    assert_eq!(out.sub_bass, 1_000_000);
    assert_eq!(out.bass, 1_000_000);
    assert_eq!(out.pitch_confidence, 1_000_000);
    assert_eq!(out.volume, 1_000_000);
    assert!(out.estimated_bpm >= 60_000_000 && out.estimated_bpm <= 200_000_000);

    let zero = n.normalize(&raw_uniform(0));
    assert_eq!(zero.bass, 0);
    assert_eq!(zero.volume, 0);
}

#[test]
fn normalizer_scales_linearly_under_the_bound() {
    let mut n = FeatureNormalizer::new();
    // The default bass bound is 0.0005 (500_000_000 pico-units).
    let out = n.normalize(&raw_uniform(250_000_000));
    assert_eq!(out.bass, 500_000);
}

#[test]
fn beat_flag_follows_the_thirty_percent_threshold() {
    let mut n = FeatureNormalizer::new();
    // The default beat-strength bound is 0.0005; 30% of it is 0.00015.
    let mut raw = raw_uniform(0);
    raw.beat_strength = 150_000_001;
    assert!(n.normalize(&raw).beat_detected);
    raw.beat_strength = 150_000_000;
    assert!(!n.normalize(&raw).beat_detected);
}

#[test]
fn bpm_is_clamped_not_scaled() {
    let mut n = FeatureNormalizer::new();
    let mut raw = raw_uniform(0);
    raw.estimated_bpm = 250_000_000;
    assert_eq!(n.normalize(&raw).estimated_bpm, 200_000_000);
    raw.estimated_bpm = 30_000_000;
    assert_eq!(n.normalize(&raw).estimated_bpm, 60_000_000);
    raw.estimated_bpm = 97_000_000;
    assert_eq!(n.normalize(&raw).estimated_bpm, 97_000_000);
}

#[test]
fn adaptive_matches_fixed_during_warm_up() {
    let mut fixed = FeatureNormalizer::new();
    let mut adaptive = FeatureNormalizer::new_adaptive();
    for i in 0..100u64 {
        let raw = raw_uniform(10_000_000 + i * 1_000_000);
        assert_eq!(adaptive.normalize(&raw), fixed.normalize(&raw));
    }
}

#[test]
fn adaptive_outlier_shrinks_later_output() {
    let mut fixed = FeatureNormalizer::new();
    let mut adaptive = FeatureNormalizer::new_adaptive();
    // Feed an outlier far above the default bass bound, then pass warm-up.
    let outlier = raw_uniform(5_000_000_000);
    for _ in 0..120 {
        adaptive.normalize(&outlier);
    }
    let probe = raw_uniform(400_000_000);
    let a = adaptive.normalize(&probe);
    let f = fixed.normalize(&probe);
    assert!(a.bass < f.bass);
    assert!(a.volume < f.volume);
}

#[test]
fn beat_needs_history_before_firing() {
    let mut d = BeatDetector::new(44100, 512);
    // A massive first window cannot fire during the startup grace.
    let (fired, strength) = d.detect_beat(4_000_000_000_000, 4_000_000_000_000);
    assert!(!fired);
    assert_eq!(strength, 0);
}

#[test]
fn beat_refractory_allows_at_most_one_of_two_close_beats() {
    let mut d = BeatDetector::new(44100, 512);
    // Build up a quiet history first (well past the 10-entry grace).
    for _ in 0..40 {
        let _ = d.detect_beat(1_000_000, 900_000);
    }
    // Two loud windows one analysis window (~11.6 ms) apart: far less than
    // the 0.3 s refractory interval.
    let (first, s1) = d.detect_beat(3_000_000_000_000, 3_000_000_000_000);
    let (second, _s2) = d.detect_beat(3_000_000_000_000, 3_000_000_000_000);
    assert!(first);
    assert!(s1 > 0);
    assert!(!(first && second));
}

#[test]
fn silence_never_beats() {
    let mut d = BeatDetector::new(44100, 512);
    for _ in 0..100 {
        let (fired, strength) = d.detect_beat(0, 0);
        assert!(!fired);
        assert_eq!(strength, 0);
    }
}

#[test]
fn tempo_estimates_from_intervals() {
    let mut t = TempoDetector::new();
    assert_eq!(t.estimated_bpm, 120_000_000);
    // Beats half a second apart: 120 BPM.
    t.update(true, 500_000);
    t.update(true, 500_000);
    assert_eq!(t.estimated_bpm, 120_000_000);
    // Implausibly fast beats leave the estimate alone.
    t.update(true, 100_000);
    assert_eq!(t.estimated_bpm, 120_000_000);
}

#[test]
fn tempo_mixes_recent_intervals() {
    let mut t = TempoDetector::new();
    t.update(true, 600_000);
    t.update(true, 600_000);
    assert_eq!(t.estimated_bpm, 100_000_000);
    t.update(true, 400_000);
    // Mean interval (600000 + 400000) / 2 = 500000 us, i.e. 120 BPM.
    assert_eq!(t.estimated_bpm, 120_000_000);
}

#[test]
fn silent_window_analyzes_to_zero_features() {
    let mut a = CpuAudioAnalyzer::new(44100, 512);
    let samples = vec![0i64; 512];
    let spectrum = vec![0u64; 256];
    let raw = a.analyze_chunk(&samples, &spectrum);
    assert_eq!(raw.sub_bass, 0);
    assert_eq!(raw.bass, 0);
    assert_eq!(raw.mid, 0);
    assert_eq!(raw.treble, 0);
    assert_eq!(raw.presence, 0);
    assert_eq!(raw.spectral_centroid, 0);
    assert_eq!(raw.volume, 0);
    assert_eq!(raw.beat_strength, 0);
    assert_eq!(raw.estimated_bpm, 120_000_000);
    assert_eq!(raw.pitch_confidence, 0);
    assert_eq!(raw.zero_crossing_rate, 0);
}

#[test]
fn band_averages_follow_the_fixed_edges() {
    // At 44100 Hz with a 512-sample window, bin i carries i * 86.13 Hz:
    // bin 0 is sub-bass (<= 60 Hz), bins 1..=2 are bass (<= 250 Hz).
    let mut a = CpuAudioAnalyzer::new(44100, 512);
    let samples = vec![0i64; 512];
    let mut spectrum = vec![0u64; 256];
    spectrum[0] = 7_000_000;
    spectrum[1] = 3_000_000;
    spectrum[2] = 1_000_000;
    let raw = a.analyze_chunk(&samples, &spectrum);
    assert_eq!(raw.sub_bass, 7_000_000);
    assert_eq!(raw.bass, 2_000_000);
    // Raw beat strength is bass plus half the sub-bass.
    assert_eq!(raw.beat_strength, 2_000_000 + 3_500_000);
}

#[test]
fn zero_crossings_count_sign_changes() {
    let mut a = CpuAudioAnalyzer::new(1000, 8);
    let samples = vec![1_000_000i64, -1_000_000, 1_000_000, -1_000_000, 1_000_000, -1_000_000, 1_000_000, -1_000_000];
    let spectrum = vec![0u64; 4];
    let raw = a.analyze_chunk(&samples, &spectrum);
    // Seven sign changes over eight samples.
    assert_eq!(raw.zero_crossing_rate, 7 * 1_000_000_000_000u64 / 8);
}

#[test]
fn rms_volume_of_a_constant_signal() {
    let mut a = CpuAudioAnalyzer::new(1000, 8);
    let samples = vec![500_000i64; 8];
    let spectrum = vec![0u64; 4];
    let raw = a.analyze_chunk(&samples, &spectrum);
    // RMS of a constant 0.5 signal is 0.5 (in pico-units).
    assert_eq!(raw.volume, 500_000_000_000);
}

#[test]
fn flux_is_zero_on_the_first_window_then_tracks_change(){
    let mut a = CpuAudioAnalyzer::new(1000, 8);
    let samples = vec![0i64; 8];
    let s1 = vec![5_000_000u64, 0, 0, 0];
    let raw1 = a.analyze_chunk(&samples, &s1);
    assert_eq!(raw1.spectral_flux, 0);
    let s2 = vec![1_000_000u64, 0, 0, 0];
    let raw2 = a.analyze_chunk(&samples, &s2);
    // Mean absolute difference: 4_000_000 over 4 bins.
    assert_eq!(raw2.spectral_flux, 1_000_000);
}

#[test]
fn short_trailing_window_is_zero_padded() {
    // A shorter trailing window analyzes exactly like the same samples
    // padded with zeros to one full window.
    let mut short = CpuAudioAnalyzer::new(44100, 512);
    let mut full = CpuAudioAnalyzer::new(44100, 512);

    let mut samples: Vec<i64> = (0..300).map(|i| if i % 2 == 0 { 400_000 } else { -400_000 }).collect();
    let spectrum = vec![1_000_000_000u64; 256];

    let raw_short = short.analyze_chunk(&samples, &spectrum);
    samples.resize(512, 0);
    let raw_full = full.analyze_chunk(&samples, &spectrum);

    assert_eq!(raw_short, raw_full);
}
