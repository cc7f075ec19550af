use arvee::arv::{ArvError, ArvFormat, PackedFrame};
use arvee::features::RawAudioFeatures;
use arvee::normalizer::FeatureNormalizer;
use arvee::prescan::PrescanProcessor;

fn raw_with(bass: u64, beat_strength: u64, bpm: u64) -> RawAudioFeatures {
    RawAudioFeatures {
        sub_bass: 40_000_000,
        bass,
        mid: 90_000_000,
        treble: 30_000_000,
        presence: 10_000_000,
        spectral_centroid: 2_000_000_000_000_000,
        spectral_rolloff: 6_000_000_000_000_000,
        spectral_flux: 20_000_000,
        zero_crossing_rate: 100_000_000_000,
        onset_strength: 50_000_000,
        beat_strength,
        estimated_bpm: bpm,
        volume: 30_000_000,
        dynamic_range: 40_000_000,
        pitch_confidence: 700_000_000_000,
    }
}

#[test]
fn test_float_packing() {
    // Boundary values over the [0, 1] domain in micro-units.
    assert_eq!(PackedFrame::pack_float(0), 0);
    assert_eq!(PackedFrame::pack_float(1_000_000), 65535);
    assert_eq!(PackedFrame::pack_float(500_000), 32767);

    // Round-trip precision: 0.12345 within ~16-bit resolution (0.0002).
    let original: u32 = 123_450;
    let packed = PackedFrame::pack_float(original);
    let unpacked = PackedFrame::unpack_float(packed);
    assert!(original.abs_diff(unpacked) < 200);
}

#[test]
fn test_beat_strength_packing() {
    assert_eq!(PackedFrame::pack_beat_strength(0), 0);
    assert_eq!(PackedFrame::pack_beat_strength(5_000_000), 255);

    // Round-trip precision: 2.5 within ~8-bit resolution over [0, 5] (0.1).
    let original: u32 = 2_500_000;
    let packed = PackedFrame::pack_beat_strength(original);
    let unpacked = PackedFrame::unpack_beat_strength(packed);
    assert!(original.abs_diff(unpacked) < 100_000);
}

fn sample_prescan() -> arvee::prescan::PrescanData {
    let mut proc = PrescanProcessor::new(44100, 512);
    proc.process_features(&raw_with(120_000_000, 200_000_000, 130_000_000));
    proc.process_features(&raw_with(80_000_000, 10_000_000, 130_000_000));
    proc.process_features(&raw_with(450_000_000, 400_000_000, 150_000_000));
    proc.finalize(b"three_windows.wav".to_vec(), 1536)
}

#[test]
fn arv_round_trip_reproduces_data() {
    let data = sample_prescan();
    let bytes = ArvFormat::save_arv(&data).unwrap();
    let loaded = ArvFormat::load_arv(&bytes).unwrap();

    assert_eq!(loaded.file_info, data.file_info);
    assert_eq!(loaded.statistics, data.statistics);
    assert_eq!(loaded.frames.len(), data.frames.len());
    for (a, b) in data.frames.iter().zip(loaded.frames.iter()) {
        assert_eq!(a.timestamp, b.timestamp);
        assert_eq!(a.beat_detected, b.beat_detected);
        // Persisted fields reproduce within the quantization tolerances.
        assert!(a.frequency_bands.bass.abs_diff(b.frequency_bands.bass) <= 16);
        assert!(a.frequency_bands.mid.abs_diff(b.frequency_bands.mid) <= 16);
        assert!(a.frequency_bands.treble.abs_diff(b.frequency_bands.treble) <= 16);
        assert!(a.frequency_bands.sub_bass.abs_diff(b.frequency_bands.sub_bass) <= 16);
        assert!(a.frequency_bands.presence.abs_diff(b.frequency_bands.presence) <= 16);
        assert!(a.spectral_centroid.abs_diff(b.spectral_centroid) <= 16);
        assert!(a.pitch_confidence.abs_diff(b.pitch_confidence) <= 16);
        assert!(a.onset_strength.abs_diff(b.onset_strength) <= 16);
        assert!(a.beat_strength.abs_diff(b.beat_strength) <= 19609);
        // Fields not persisted come back zero; the tempo comes from the
        // file-level average.
        assert_eq!(b.spectral_rolloff, 0);
        assert_eq!(b.zero_crossing_rate, 0);
        assert_eq!(b.spectral_flux, 0);
        assert_eq!(b.volume, 0);
        assert_eq!(b.dynamic_range, 0);
        assert_eq!(b.estimated_bpm as u64, data.statistics.average_bpm);
    }
}

#[test]
fn bad_magic_is_rejected() {
    let data = sample_prescan();
    let mut bytes = ArvFormat::save_arv(&data).unwrap();
    bytes[0] = 88;
    bytes[1] = 88;
    bytes[2] = 88;
    bytes[3] = 88;
    assert_eq!(ArvFormat::load_arv(&bytes), Err(ArvError::InvalidFormat));
}

#[test]
fn unsupported_version_is_rejected() {
    let data = sample_prescan();
    let mut bytes = ArvFormat::save_arv(&data).unwrap();
    bytes[4] = bytes[4].wrapping_add(1);
    assert_eq!(ArvFormat::load_arv(&bytes), Err(ArvError::UnsupportedVersion));
}

#[test]
fn truncated_artifact_is_an_error() {
    let data = sample_prescan();
    let bytes = ArvFormat::save_arv(&data).unwrap();
    let cut: Vec<u8> = bytes[..bytes.len() - 7].to_vec();
    assert!(ArvFormat::load_arv(&cut).is_err());
    let tiny: Vec<u8> = bytes[..4].to_vec();
    assert_eq!(ArvFormat::load_arv(&tiny), Err(ArvError::Truncated));
}

#[test]
fn prescan_json_round_trips_exactly() {
    let data = sample_prescan();
    let text = PrescanProcessor::save_prescan_data(&data);
    assert_eq!(text[0], b'{');
    assert_eq!(*text.last().unwrap(), b'}');
    let loaded = PrescanProcessor::load_prescan_data(&text).unwrap();
    assert_eq!(loaded, data);

    // The binary artifact is far smaller than the equivalent text.
    let binary = ArvFormat::save_arv(&data).unwrap();
    assert!(binary.len() < text.len());
}

#[test]
fn malformed_prescan_json_is_refused() {
    let data = sample_prescan();
    let mut text = PrescanProcessor::save_prescan_data(&data);
    assert!(PrescanProcessor::load_prescan_data(&b"{}".to_vec()).is_err());
    let cut: Vec<u8> = text[..text.len() - 1].to_vec();
    assert!(PrescanProcessor::load_prescan_data(&cut).is_err());
    let last = text.len() - 1;
    text[last] = b']';
    assert!(PrescanProcessor::load_prescan_data(&text).is_err());
}

#[test]
fn parameter_file_round_trips() {
    let normalizer = FeatureNormalizer::new();
    let saved = normalizer.save_parameters();

    let mut restored = FeatureNormalizer::new_adaptive();
    assert!(restored.load_parameters(&saved).is_ok());
    assert_eq!(*restored.get_parameters(), *normalizer.get_parameters());

    // Identical bounds produce identical normalization behaviour.
    let raw = raw_with(77_000_000, 120_000_000, 95_000_000);
    let mut a = FeatureNormalizer::new();
    let mut b = FeatureNormalizer::with_parameters(*normalizer.get_parameters());
    assert_eq!(a.normalize(&raw), b.normalize(&raw));
}

#[test]
fn malformed_parameter_file_is_refused() {
    let mut normalizer = FeatureNormalizer::new();
    let before = *normalizer.get_parameters();
    let garbage = b"{\"sub_bass_max\":oops".to_vec();
    assert!(normalizer.load_parameters(&garbage).is_err());
    assert_eq!(*normalizer.get_parameters(), before);
}

#[test]
fn compression_ratio_counts_saved_micro_units() {
    // 150 bytes against 1000 bytes of text saves 85% of the textual size.
    assert_eq!(ArvFormat::compression_ratio(150, 1000), 850_000);
    assert_eq!(ArvFormat::compression_ratio(0, 1000), 1_000_000);
    // No saving when the artifact is no smaller, or without a textual size.
    assert_eq!(ArvFormat::compression_ratio(1000, 1000), 0);
    assert_eq!(ArvFormat::compression_ratio(2000, 1000), 0);
    assert_eq!(ArvFormat::compression_ratio(5, 0), 0);

    // The real artifact saves most of the textual encoding's size.
    let data = sample_prescan();
    let binary = ArvFormat::save_arv(&data).unwrap();
    let text = PrescanProcessor::save_prescan_data(&data);
    assert!(ArvFormat::compression_ratio(binary.len() as u64, text.len() as u64) > 500_000);
}
