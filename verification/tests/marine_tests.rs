use mem8_fs_lite::marine::{analyze_waves, MarineProcessor, PeakInfo, SalienceWeights};
use mem8_fs_lite::wave::encode;

/// Millionths of a decimal value.
fn fx(value: f64) -> i64 {
    (value * 1_000_000.0).round() as i64
}

fn signal(values: &[f64]) -> Vec<i64> {
    values.iter().map(|v| fx(*v)).collect()
}

fn impulses(len: usize, at: &[usize]) -> Vec<i64> {
    let mut samples = vec![0i64; len];
    for i in at {
        samples[*i] = 1_000_000;
    }
    samples
}

fn peak(index: usize, amplitude: i64, salience: i64, has_wonder: bool) -> PeakInfo {
    PeakInfo {
        index,
        amplitude,
        interval: 1,
        timing_jitter: 0,
        amplitude_jitter: 0,
        harmonic_score: 0,
        salience,
        has_wonder,
    }
}

#[test]
fn test_peak_detection() {
    let mut processor = MarineProcessor::new();

    // Create a signal with clear peaks
    let samples = signal(&[
        0.0, 0.5, 1.0, 0.5, 0.0, // Peak at index 2
        0.0, 0.3, 0.7, 0.3, 0.0, // Peak at index 7
        0.0, 0.4, 0.9, 0.4, 0.0, // Peak at index 12
    ]);

    let peaks = processor.process_samples(&samples);
    assert_eq!(peaks.len(), 3);
    assert_eq!(peaks[0].index, 2);
    assert_eq!(peaks[1].index, 7);
    assert_eq!(peaks[2].index, 12);
}

#[test]
fn test_rhythm_detection() {
    let mut processor = MarineProcessor::new();

    // Create a rhythmic signal (regular intervals)
    let mut samples = vec![0i64; 100];
    for i in (10..100).step_by(10) {
        samples[i] = fx(1.0); // Peak every 10 samples
    }

    let peaks = processor.process_samples(&samples);
    let metadata = processor.extract_metadata(&peaks);

    assert!(metadata.has_rhythm);
}

#[test]
fn test_wonder_detection() {
    let mut processor = MarineProcessor::new();
    processor.wonder_threshold = fx(0.5); // Lower threshold for testing

    // Create a signal with high energy peaks
    let samples = signal(&[
        0.0, 0.1, 0.9, 0.1, 0.0, // High energy peak
        0.0, 0.1, 0.2, 0.1, 0.0, // Low energy peak
        0.0, 0.1, 0.8, 0.1, 0.0, // High energy peak
    ]);

    let peaks = processor.process_samples(&samples);
    let wonder_count = peaks.iter().filter(|p| p.has_wonder).count();

    assert!(wonder_count > 0);
}

#[test]
fn known_signal_at_zero_clip_has_three_peaks() {
    let mut processor = MarineProcessor::new();
    processor.clip_threshold = 0;
    let samples = signal(&[
        0.0, 0.5, 1.0, 0.5, 0.0, 0.0, 0.3, 0.7, 0.3, 0.0, 0.0, 0.4, 0.9, 0.4, 0.0,
    ]);
    let peaks = processor.process_samples(&samples);
    let positions: Vec<usize> = peaks.iter().map(|p| p.index).collect();
    assert_eq!(positions, vec![2, 7, 12]);
}

#[test]
fn first_peak_has_exact_scores() {
    let mut processor = MarineProcessor::new();
    let samples = signal(&[
        0.0, 0.5, 1.0, 0.5, 0.0, 0.0, 0.3, 0.7, 0.3, 0.0, 0.0, 0.4, 0.9, 0.4, 0.0,
    ]);
    let peaks = processor.process_samples(&samples);

    assert_eq!(peaks[0].amplitude, 1_000_000);
    assert_eq!(peaks[0].interval, 2);
    // Interval 2 against an average that moved from 0 to 0.25.
    assert_eq!(peaks[0].timing_jitter, 1_750_000);
    // Magnitude 1 against an average that moved from 0 to 0.125.
    assert_eq!(peaks[0].amplitude_jitter, 875_000);
    // 2 / 100 / 2 is 0.01 away from a whole number.
    assert_eq!(peaks[0].harmonic_score, 990_000);
    assert_eq!(peaks[0].salience, 708_344);
    assert!(!peaks[0].has_wonder);
}

#[test]
fn later_peaks_follow_the_running_averages() {
    let mut processor = MarineProcessor::new();
    let samples = signal(&[
        0.0, 0.5, 1.0, 0.5, 0.0, 0.0, 0.3, 0.7, 0.3, 0.0, 0.0, 0.4, 0.9, 0.4, 0.0,
    ]);
    let peaks = processor.process_samples(&samples);

    assert_eq!(peaks[1].interval, 5);
    assert_eq!(peaks[1].timing_jitter, 4_156_250);
    assert_eq!(peaks[1].amplitude_jitter, 503_125);
    assert_eq!(peaks[1].harmonic_score, 975_000);
    assert_eq!(peaks[1].salience, 540_377);

    assert_eq!(peaks[2].interval, 5);
    assert_eq!(peaks[2].timing_jitter, 3_636_719);
    assert_eq!(peaks[2].amplitude_jitter, 615_235);
    assert_eq!(peaks[2].salience, 629_257);
}

#[test]
fn state_carries_over_between_scans() {
    let mut processor = MarineProcessor::new();
    let first = processor.process_samples(&impulses(120, &[10, 26, 52, 94]));
    assert_eq!(first.len(), 4);
    let second = processor.process_samples(&impulses(200, &[100]));
    assert_eq!(second.len(), 1);
    // The interval counts from the start of the new scan, the averages
    // continue from the old one.
    assert_eq!(second[0].interval, 100);
    assert_eq!(second[0].timing_jitter, 78_345_399);
    assert_eq!(second[0].amplitude_jitter, 512_910);
    assert_eq!(second[0].harmonic_score, 1_000_000);
    assert_eq!(second[0].salience, 642_508);
}

#[test]
fn golden_progression_earns_a_bonus() {
    let mut processor = MarineProcessor::new();
    // Intervals 10, 16, 26, 42: each about 1.618 times the one before.
    let peaks = processor.process_samples(&impulses(120, &[10, 26, 52, 94]));
    assert_eq!(peaks[0].salience, 627_646);
    assert_eq!(peaks[1].salience, 611_262);
    assert_eq!(peaks[2].salience, 592_421);
    // Three recent peaks, two golden steps: a third of a unit comes on top
    // of the wonder term.
    assert_eq!(peaks[3].harmonic_score, 790_000);
    assert_eq!(peaks[3].salience, 603_408);
}

#[test]
fn empty_and_short_inputs_give_no_peak() {
    let mut processor = MarineProcessor::new();
    assert!(processor.process_samples(&[]).is_empty());
    assert!(processor.process_samples(&[1_000_000]).is_empty());
    assert!(processor.process_samples(&[0, 1_000_000]).is_empty());
    assert!(processor.process_samples(&[i64::MIN]).is_empty());
    // The detector is untouched: a first peak scores as on a fresh one.
    let peaks = processor.process_samples(&signal(&[0.0, 0.5, 1.0, 0.5, 0.0]));
    assert_eq!(peaks.len(), 1);
    assert_eq!(peaks[0].salience, 708_344);
}

#[test]
fn all_zero_input_gives_no_peak() {
    let mut processor = MarineProcessor::new();
    assert!(processor.process_samples(&vec![0i64; 50]).is_empty());
    let metadata = processor.extract_metadata(&[]);
    assert_eq!(metadata.total_peaks, 0);
    assert_eq!(metadata.wonder_count, 0);
    assert_eq!(metadata.average_salience, 0);
    assert_eq!(metadata.max_salience, 0);
    assert!(!metadata.has_rhythm);
    assert_eq!(metadata.emotional_signature, "🌊 Flowing");
}

#[test]
fn gate_zeroes_samples_under_the_clip_threshold() {
    let mut processor = MarineProcessor::new();
    processor.clip_threshold = fx(0.6);
    let samples = signal(&[
        0.0, 0.5, 1.0, 0.5, 0.0, 0.0, 0.3, 0.55, 0.3, 0.0, -0.7, -0.65, -0.7, 0.0,
    ]);
    let peaks = processor.process_samples(&samples);
    // 0.55 is gated away; -0.65 stands above its neighbours at -0.7.
    assert_eq!(peaks.len(), 2);
    assert_eq!(peaks[0].index, 2);
    assert_eq!(peaks[1].index, 11);
    assert_eq!(peaks[1].amplitude, -650_000);
    assert_eq!(peaks[1].interval, 9);
    assert_eq!(peaks[1].salience, 491_040);
}

#[test]
fn sample_at_the_clip_threshold_stays() {
    let mut processor = MarineProcessor::new();
    processor.clip_threshold = fx(0.5);
    let peaks = processor.process_samples(&signal(&[0.0, 0.5, 0.0]));
    assert_eq!(peaks.len(), 1);
    processor.clip_threshold = fx(0.5) + 1;
    let peaks = processor.process_samples(&signal(&[0.0, 0.5, 0.0]));
    assert!(peaks.is_empty());
}

#[test]
fn plateau_is_no_peak() {
    let mut processor = MarineProcessor::new();
    let peaks = processor.process_samples(&signal(&[0.0, 0.8, 0.8, 0.0]));
    assert!(peaks.is_empty());
}

#[test]
fn grid_that_is_not_positive_gives_no_harmonic_score() {
    let mut processor = MarineProcessor::new();
    processor.grid_tick_rate = 0;
    let peaks = processor.process_samples(&signal(&[0.0, 0.5, 1.0, 0.5, 0.0]));
    assert_eq!(peaks[0].harmonic_score, 0);
    assert_eq!(peaks[0].salience, 510_344);

    let mut processor = MarineProcessor::new();
    processor.grid_tick_rate = -5;
    let peaks = processor.process_samples(&signal(&[0.0, 0.5, 1.0, 0.5, 0.0]));
    assert_eq!(peaks[0].harmonic_score, 0);
}

#[test]
fn negative_weight_rounds_towards_minus_infinity() {
    let mut processor = MarineProcessor::new();
    processor.weights = SalienceWeights {
        energy: -400_000,
        jitter: 300_000,
        harmonic: 200_000,
        wonder: 100_000,
    };
    let peaks = processor.process_samples(&signal(&[0.0, 0.5, 1.0, 0.5, 0.0]));
    assert_eq!(peaks[0].salience, -91_656);
}

#[test]
fn extreme_samples_saturate_without_failing() {
    let mut processor = MarineProcessor::new();
    processor.weights = SalienceWeights {
        energy: i64::MAX,
        jitter: i64::MAX,
        harmonic: i64::MAX,
        wonder: i64::MAX,
    };
    let peaks = processor.process_samples(&[i64::MIN, i64::MAX, i64::MIN]);
    assert_eq!(peaks.len(), 1);
    assert_eq!(peaks[0].salience, i64::MAX);
    assert!(peaks[0].has_wonder);

    processor.clip_threshold = 0;
    let peaks = processor.process_samples(&[i64::MIN, -1, i64::MIN]);
    assert_eq!(peaks.len(), 1);
    assert_eq!(peaks[0].amplitude, -1);
    assert_eq!(peaks[0].amplitude_jitter, 1_008_806_316_530_991_102);
}

#[test]
fn default_parameters() {
    let processor = MarineProcessor::new();
    assert_eq!(processor.clip_threshold, 100_000);
    assert_eq!(processor.grid_tick_rate, 100_000_000);
    assert_eq!(processor.wonder_threshold, 800_000);
    assert_eq!(processor.weights.energy, 400_000);
    assert_eq!(processor.weights.jitter, 300_000);
    assert_eq!(processor.weights.harmonic, 200_000);
    assert_eq!(processor.weights.wonder, 100_000);
    let weights = SalienceWeights::default();
    assert_eq!(weights.energy + weights.jitter + weights.harmonic + weights.wonder, 1_000_000);
}

#[test]
fn audio_parameters() {
    let processor = MarineProcessor::for_audio(44_100_000_000);
    assert_eq!(processor.grid_tick_rate, 100_000_000);
    assert_eq!(processor.clip_threshold, 50_000);
    assert_eq!(processor.wonder_threshold, 700_000);
    assert_eq!(MarineProcessor::for_audio(-882).grid_tick_rate, -2);
    assert_eq!(MarineProcessor::for_audio(-883).grid_tick_rate, -2);
    assert_eq!(MarineProcessor::for_audio(440).grid_tick_rate, 0);
}

#[test]
fn metadata_of_the_known_signal() {
    let mut processor = MarineProcessor::new();
    let samples = signal(&[
        0.0, 0.5, 1.0, 0.5, 0.0, 0.0, 0.3, 0.7, 0.3, 0.0, 0.0, 0.4, 0.9, 0.4, 0.0,
    ]);
    let peaks = processor.process_samples(&samples);
    let metadata = processor.extract_metadata(&peaks);
    assert_eq!(metadata.total_peaks, 3);
    assert_eq!(metadata.wonder_count, 0);
    assert_eq!(metadata.average_salience, 625_992);
    assert_eq!(metadata.max_salience, 708_344);
    assert!(!metadata.has_rhythm);
    assert_eq!(metadata.emotional_signature, "🔥 Energetic");
}

#[test]
fn metadata_of_the_impulse_train() {
    let mut processor = MarineProcessor::new();
    let peaks = processor.process_samples(&impulses(100, &[10, 20, 30, 40, 50, 60, 70, 80, 90]));
    let metadata = processor.extract_metadata(&peaks);
    assert_eq!(metadata.total_peaks, 9);
    assert_eq!(metadata.average_salience, 652_326);
    assert_eq!(metadata.max_salience, 682_866);
    assert!(metadata.has_rhythm);
}

#[test]
fn mean_of_negative_salience_rounds_down_and_maximum_is_the_largest() {
    let processor = MarineProcessor::new();
    let peaks = vec![peak(1, 0, -3, false), peak(2, 0, -4, false)];
    let metadata = processor.extract_metadata(&peaks);
    assert_eq!(metadata.average_salience, -4);
    assert_eq!(metadata.max_salience, -3);
    let single = processor.extract_metadata(&[peak(1, 0, -250_000, false)]);
    assert_eq!(single.average_salience, -250_000);
    assert_eq!(single.max_salience, -250_000);
    let mixed = vec![peak(1, 0, -7, false), peak(2, 0, 5, false), peak(3, 0, -1, false)];
    let metadata = processor.extract_metadata(&mixed);
    assert_eq!(metadata.average_salience, -1);
    assert_eq!(metadata.max_salience, 5);
    let late = vec![peak(1, 0, i64::MIN, false), peak(2, 0, -9, false), peak(3, 0, -2, false)];
    assert_eq!(processor.extract_metadata(&late).max_salience, -2);
}

#[test]
fn negative_weights_give_a_negative_maximum() {
    let mut processor = MarineProcessor::new();
    processor.weights = SalienceWeights {
        energy: -400_000,
        jitter: 300_000,
        harmonic: 200_000,
        wonder: 100_000,
    };
    let peaks = processor.process_samples(&signal(&[0.0, 0.5, 1.0, 0.5, 0.0]));
    let metadata = processor.extract_metadata(&peaks);
    assert_eq!(metadata.total_peaks, 1);
    assert_eq!(metadata.max_salience, -91_656);
    assert_eq!(metadata.average_salience, -91_656);
}

#[test]
fn rhythm_needs_four_peaks() {
    let processor = MarineProcessor::new();
    let three = vec![peak(10, 0, 0, false), peak(20, 0, 0, false), peak(30, 0, 0, false)];
    assert!(!processor.detect_rhythm(&three));
    let mut four = three.clone();
    four.push(peak(40, 0, 0, false));
    assert!(processor.detect_rhythm(&four));
}

#[test]
fn rhythm_threshold_is_a_fifth_of_the_mean() {
    let processor = MarineProcessor::new();
    // Distances 10, 10, 13: mean 11, variance 2, a fifth of the mean
    // squared 4.84.
    let near = vec![
        peak(0, 0, 0, false),
        peak(10, 0, 0, false),
        peak(20, 0, 0, false),
        peak(33, 0, 0, false),
    ];
    assert!(processor.detect_rhythm(&near));
    // Distances 10, 10, 20: mean 13.33, variance 22.2, bound 7.1.
    let far = vec![
        peak(0, 0, 0, false),
        peak(10, 0, 0, false),
        peak(20, 0, 0, false),
        peak(40, 0, 0, false),
    ];
    assert!(!processor.detect_rhythm(&far));
    // Distances that are all zero have no rhythm: 0 is not under 0.
    let still = vec![peak(5, 0, 0, false); 4];
    assert!(!processor.detect_rhythm(&still));
}

#[test]
fn rhythm_with_positions_at_the_end_of_the_range() {
    let processor = MarineProcessor::new();
    let top = isize::MAX as usize;
    let wide = vec![
        peak(0, 0, 0, false),
        peak(top / 3, 0, 0, false),
        peak(top / 3 * 2, 0, 0, false),
        peak(top / 3 * 3, 0, 0, false),
    ];
    assert!(processor.detect_rhythm(&wide));
    let jumpy = vec![
        peak(0, 0, 0, false),
        peak(top, 0, 0, false),
        peak(0, 0, 0, false),
        peak(top, 0, 0, false),
    ];
    assert!(!processor.detect_rhythm(&jumpy));
}

#[test]
fn rhythm_with_positions_over_the_whole_range() {
    let processor = MarineProcessor::new();
    let top = usize::MAX;
    let step = top / 3;
    let even = vec![
        peak(0, 0, 0, false),
        peak(step, 0, 0, false),
        peak(step * 2, 0, 0, false),
        peak(step * 3, 0, 0, false),
    ];
    assert!(processor.detect_rhythm(&even));
    // Distances in the ratio 10 : 10 : 13 and 10 : 10 : 20, scaled up.
    let unit = top / 40;
    let near = vec![
        peak(0, 0, 0, false),
        peak(unit * 10, 0, 0, false),
        peak(unit * 20, 0, 0, false),
        peak(unit * 33, 0, 0, false),
    ];
    assert!(processor.detect_rhythm(&near));
    let far = vec![
        peak(0, 0, 0, false),
        peak(unit * 10, 0, 0, false),
        peak(unit * 20, 0, 0, false),
        peak(unit * 40, 0, 0, false),
    ];
    assert!(!processor.detect_rhythm(&far));
    let descending = vec![
        peak(step * 3, 0, 0, false),
        peak(step * 2, 0, 0, false),
        peak(step, 0, 0, false),
        peak(0, 0, 0, false),
    ];
    assert!(processor.detect_rhythm(&descending));
    let jumpy = vec![
        peak(0, 0, 0, false),
        peak(top, 0, 0, false),
        peak(0, 0, 0, false),
        peak(top, 0, 0, false),
    ];
    assert!(!processor.detect_rhythm(&jumpy));
    // Products beyond 128 bits: three distances that add up to the whole
    // range and differ by a little.
    let nudge = 1usize << 33;
    let nudged = vec![
        peak(0, 0, 0, false),
        peak(step - nudge, 0, 0, false),
        peak(step * 2 - nudge, 0, 0, false),
        peak(step * 3, 0, 0, false),
    ];
    assert!(processor.detect_rhythm(&nudged));
    // Ten distances of sum 50: with square sum 252, 25 * 2520 is under
    // 26 * 2500; with square sum 282 it is over.
    let mut close = vec![peak(0, 0, 0, false)];
    let mut at = 0;
    for d in [4, 5, 5, 5, 5, 5, 5, 5, 5, 6] {
        at += d;
        close.push(peak(at, 0, 0, false));
    }
    assert!(processor.detect_rhythm(&close));
    let mut apart = vec![peak(0, 0, 0, false)];
    let mut at = 0;
    for d in [1, 5, 5, 5, 5, 5, 5, 5, 5, 9] {
        at += d;
        apart.push(peak(at, 0, 0, false));
    }
    assert!(!processor.detect_rhythm(&apart));
}

#[test]
fn labels_follow_the_priority_order() {
    let processor = MarineProcessor::new();
    // More than half marked: first rule, whatever the amplitude.
    let wondrous = vec![peak(1, 900_000, 0, true), peak(2, 900_000, 0, true), peak(3, 0, 0, false)];
    assert_eq!(processor.detect_emotion(&wondrous), "✨ Wondrous");
    // Exactly half marked is not more than half; mean amplitude 0.9.
    let energetic = vec![peak(1, 900_000, 0, true), peak(2, -900_000, 0, false)];
    assert_eq!(processor.detect_emotion(&energetic), "🔥 Energetic");
    // High amplitude wins over a marked share of 0.4.
    let loud = vec![
        peak(1, 900_000, 0, true),
        peak(2, 900_000, 0, true),
        peak(3, 900_000, 0, false),
        peak(4, 900_000, 0, false),
        peak(5, 900_000, 0, false),
    ];
    assert_eq!(processor.detect_emotion(&loud), "🔥 Energetic");
    // A marked share of 0.4 decides however low the amplitude is.
    let quiet = vec![
        peak(1, 100_000, 0, true),
        peak(2, 100_000, 0, true),
        peak(3, 100_000, 0, false),
        peak(4, 100_000, 0, false),
        peak(5, 100_000, 0, false),
    ];
    assert_eq!(processor.detect_emotion(&quiet), "🎵 Musical");
    let musical = vec![
        peak(1, 500_000, 0, true),
        peak(2, 500_000, 0, true),
        peak(3, 500_000, 0, false),
        peak(4, 500_000, 0, false),
        peak(5, 500_000, 0, false),
    ];
    assert_eq!(processor.detect_emotion(&musical), "🎵 Musical");
    let flowing = vec![peak(1, 500_000, 0, false), peak(2, 800_000, 0, false)];
    assert_eq!(processor.detect_emotion(&flowing), "🌊 Flowing");
    // A mean amplitude of exactly 0.8 is not above it, one millionth more is.
    assert_eq!(processor.detect_emotion(&[peak(1, 800_000, 0, false)]), "🌊 Flowing");
    assert_eq!(processor.detect_emotion(&[peak(1, 800_001, 0, false)]), "🔥 Energetic");
    // A marked share of exactly 0.3 is not above it.
    let mut three_of_ten = vec![peak(1, 500_000, 0, true); 3];
    three_of_ten.extend(vec![peak(1, 500_000, 0, false); 7]);
    assert_eq!(processor.detect_emotion(&three_of_ten), "🌊 Flowing");
    // Quiet and unmarked, or no peaks at all: the default.
    assert_eq!(processor.detect_emotion(&[peak(1, 100_000, 0, false)]), "🌊 Flowing");
    assert_eq!(processor.detect_emotion(&[peak(1, 0, 0, false)]), "🌊 Flowing");
    assert_eq!(processor.detect_emotion(&[]), "🌊 Flowing");
}

#[test]
fn raising_the_threshold_marks_no_more_peaks() {
    let samples = signal(&[
        0.0, 0.1, 0.9, 0.1, 0.0, 0.0, 0.1, 0.2, 0.1, 0.0, 0.0, 0.1, 0.8, 0.1, 0.0,
    ]);
    let mut previous = usize::MAX;
    for threshold in [0, 300_000, 500_000, 600_000, 668_246, 700_000, 2_000_000] {
        let mut processor = MarineProcessor::new();
        processor.wonder_threshold = threshold;
        let peaks = processor.process_samples(&samples);
        let metadata = processor.extract_metadata(&peaks);
        assert!(metadata.wonder_count <= previous);
        previous = metadata.wonder_count;
        for p in &peaks {
            assert_eq!(p.has_wonder, p.salience > threshold);
        }
    }
    assert_eq!(previous, 0);
}

#[test]
fn wave_magnitudes_feed_the_detector() {
    let mut on_waves = MarineProcessor::new();
    let mut on_samples = MarineProcessor::new();
    let bytes = [0u8, 128, 255, 128, 0, 0, 77, 179, 77, 0];
    let waves = encode(&bytes, 1_000_000).unwrap();
    let magnitudes: Vec<i64> = bytes.iter().map(|b| *b as i64 * 1_000_000 / 255).collect();
    let a = on_waves.process_waves(&waves);
    let b = on_samples.process_samples(&magnitudes);
    assert_eq!(a.len(), 2);
    assert_eq!(a.len(), b.len());
    for k in 0..a.len() {
        assert_eq!(a[k].index, b[k].index);
        assert_eq!(a[k].amplitude, b[k].amplitude);
        assert_eq!(a[k].salience, b[k].salience);
    }
    assert_eq!(a[0].index, 2);
    assert_eq!(a[0].amplitude, 1_000_000);
    assert_eq!(a[1].index, 7);
    assert_eq!(a[1].amplitude, 701_960);
}

#[test]
fn analysis_of_a_wave() {
    let bytes = [0u8, 128, 255, 128, 0, 0, 77, 179, 77, 0];
    let waves = encode(&bytes, 1_000_000).unwrap();
    let metadata = analyze_waves(&waves);
    let mut processor = MarineProcessor::new();
    let peaks = processor.process_waves(&waves);
    let expected = processor.extract_metadata(&peaks);
    assert_eq!(metadata.total_peaks, 2);
    assert_eq!(metadata.wonder_count, expected.wonder_count);
    assert_eq!(metadata.average_salience, expected.average_salience);
    assert_eq!(metadata.max_salience, 708_344);
    assert!(!metadata.has_rhythm);
    assert_eq!(metadata.emotional_signature, "🔥 Energetic");
    let nothing = analyze_waves(&[]);
    assert_eq!(nothing.total_peaks, 0);
    assert_eq!(nothing.emotional_signature, "🌊 Flowing");
    assert_eq!(nothing.max_salience, 0);
}
