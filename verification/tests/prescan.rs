use arvee::features::FrequencyBands;
use arvee::lookup::SynchronizedPlayback;
use arvee::prescan::{
    classify_unified_content, AnalysisStatistics, DominantRange, EnergyProfile, PrescanData,
    PrescanFrame, PrescanProcessor,
};

fn frame_at(timestamp: u64, bass: u32, treble: u32, volume: u32) -> PrescanFrame {
    PrescanFrame {
        timestamp,
        frequency_bands: FrequencyBands {
            bass,
            mid: 100_000,
            treble,
            sub_bass: 50_000,
            presence: 20_000,
        },
        beat_detected: false,
        beat_strength: 0,
        estimated_bpm: 120_000_000,
        spectral_centroid: 250_000,
        spectral_rolloff: 400_000,
        pitch_confidence: 300_000,
        zero_crossing_rate: 100_000,
        spectral_flux: 50_000,
        onset_strength: 80_000,
        dynamic_range: 60_000,
        volume,
    }
}

#[test]
fn silent_prescan_matches_the_expected_shape() {
    // A 2-second, 44100 Hz silent input with 512-sample windows.
    let mut proc = PrescanProcessor::new(44100, 512);
    let samples = vec![0i64; 512];
    let spectrum = vec![0u64; 256];
    let windows = (2 * 44100) / 512;
    assert_eq!(windows, 172);
    for _ in 0..windows {
        let raw = proc.process_window(&samples, &spectrum);
        assert_eq!(raw.volume, 0);
    }
    let data = proc.finalize(b"silent.wav".to_vec(), 2 * 44100);

    assert_eq!(data.frames.len(), 172);
    assert_eq!(data.statistics.total_beats, 0);
    assert_eq!(data.statistics.average_bpm, 120_000_000);
    assert_eq!(data.statistics.energy_profile, EnergyProfile::Low);
    assert_eq!(data.file_info.duration_us, 2_000_000);
    assert_eq!(data.file_info.sample_rate, 44100);
    assert_eq!(data.file_info.chunk_size, 512);
    // Timestamps advance by one window duration (11609 us).
    assert_eq!(data.frames[0].timestamp, 0);
    assert_eq!(data.frames[1].timestamp, 512 * 1_000_000 / 44100);
}

#[test]
fn classification_reads_the_frame_averages() {
    let mut stats = AnalysisStatistics::default();

    // Loud, bass-dominated frames.
    let frames: Vec<PrescanFrame> = (0..10).map(|i| frame_at(i * 1000, 900_000, 100_000, 400_000)).collect();
    classify_unified_content(&mut stats, &frames);
    assert_eq!(stats.dominant_frequency_range, DominantRange::BassHeavy);
    assert_eq!(stats.energy_profile, EnergyProfile::High);

    // Quiet, treble-dominated frames.
    let frames: Vec<PrescanFrame> = (0..10).map(|i| frame_at(i * 1000, 10_000, 800_000, 50_000)).collect();
    classify_unified_content(&mut stats, &frames);
    assert_eq!(stats.dominant_frequency_range, DominantRange::TrebleFocused);
    assert_eq!(stats.energy_profile, EnergyProfile::Low);

    // Medium volume, the low group (bass + sub-bass) and the high group
    // (treble + presence) tied, neither strictly above the rest.
    let frames: Vec<PrescanFrame> = (0..10).map(|i| frame_at(i * 1000, 100_000, 130_000, 200_000)).collect();
    classify_unified_content(&mut stats, &frames);
    assert_eq!(stats.dominant_frequency_range, DominantRange::Balanced);
    assert_eq!(stats.energy_profile, EnergyProfile::Medium);
}

#[test]
fn classification_sees_dynamic_volume_swings() {
    let mut stats = AnalysisStatistics::default();
    let frames: Vec<PrescanFrame> = (0..10)
        .map(|i| frame_at(i * 1000, 100_000, 100_000, if i % 2 == 0 { 1_000_000 } else { 0 }))
        .collect();
    classify_unified_content(&mut stats, &frames);
    assert_eq!(stats.energy_profile, EnergyProfile::Dynamic);
    // Mean flux 0.05 plus mean pitch confidence 0.3 plus volume variance
    // 0.25 (a square of a half, in unit terms).
    assert_eq!(stats.complexity_score, 600_000);
}

#[test]
fn peaks_and_beats_accumulate_during_a_scan() {
    let mut proc = PrescanProcessor::new(44100, 512);
    let mut raw = arvee::features::RawAudioFeatures {
        sub_bass: 0,
        bass: 250_000_000,
        mid: 0,
        treble: 0,
        presence: 0,
        spectral_centroid: 0,
        spectral_rolloff: 0,
        spectral_flux: 0,
        zero_crossing_rate: 0,
        onset_strength: 0,
        beat_strength: 400_000_000,
        estimated_bpm: 150_000_000,
        volume: 50_000_000,
        dynamic_range: 0,
        pitch_confidence: 0,
    };
    proc.process_features(&raw);
    raw.bass = 100_000_000;
    raw.beat_strength = 0;
    proc.process_features(&raw);
    let data = proc.finalize(b"two.wav".to_vec(), 1024);

    assert_eq!(data.statistics.total_beats, 1);
    assert_eq!(data.statistics.average_bpm, 150_000_000);
    assert_eq!(data.statistics.bpm_range, (150_000_000, 150_000_000));
    // Peak bass: 0.00025 over the 0.0005 bound is 0.5.
    assert_eq!(data.statistics.peak_bass, 500_000);
    assert_eq!(data.frames.len(), 2);
    assert!(data.frames[0].beat_detected);
    assert!(!data.frames[1].beat_detected);
}

fn lookup_data() -> PrescanData {
    let frames = vec![
        frame_at(100, 10_000, 10_000, 10_000),
        frame_at(200, 20_000, 20_000, 20_000),
        frame_at(300, 30_000, 30_000, 30_000),
    ];
    PrescanData {
        file_info: arvee::prescan::FileInfo {
            filename: b"lookup.wav".to_vec(),
            duration_us: 400,
            sample_rate: 44100,
            total_samples: 0,
            frame_rate_uhz: 0,
            chunk_size: 512,
        },
        frames,
        statistics: AnalysisStatistics::default(),
    }
}

#[test]
fn lookup_selects_the_frame_whose_window_has_started() {
    let mut p = SynchronizedPlayback::new(lookup_data());
    // A time inside frame 1's window.
    assert_eq!(p.get_synchronized_frame(250).unwrap().timestamp, 200);
    // Exactly at a window start.
    assert_eq!(p.get_synchronized_frame(200).unwrap().timestamp, 200);
    // Before the first start: the first frame.
    assert_eq!(p.get_synchronized_frame(50).unwrap().timestamp, 100);
    // At or past the last start: the last frame.
    assert_eq!(p.get_synchronized_frame(300).unwrap().timestamp, 300);
    assert_eq!(p.get_synchronized_frame(10_000).unwrap().timestamp, 300);
}

#[test]
fn lookup_walks_back_after_a_seek() {
    let mut p = SynchronizedPlayback::new(lookup_data());
    assert_eq!(p.get_synchronized_frame(10_000).unwrap().timestamp, 300);
    // Seeking backwards corrects the cursor.
    assert_eq!(p.get_synchronized_frame(150).unwrap().timestamp, 100);
    assert_eq!(p.get_synchronized_frame(250).unwrap().timestamp, 200);
}

#[test]
fn lookup_on_empty_data_returns_nothing() {
    let mut data = lookup_data();
    data.frames.clear();
    let mut p = SynchronizedPlayback::new(data);
    assert!(p.get_synchronized_frame(0).is_none());
    assert_eq!(p.get_file_info().sample_rate, 44100);
    assert_eq!(p.get_statistics().average_bpm, 120_000_000);
}
