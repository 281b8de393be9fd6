use mem8_fs_lite::audio::{AudioFormat, SampleRate};
use mem8_fs_lite::fixed::sqrt_floor;

#[test]
fn test_sample_rates() {
    assert_eq!(SampleRate::CD44k.as_f64(), 44_100_000_000);
    assert_eq!(SampleRate::Phone16k.as_f64(), 16_000_000_000);
    assert_eq!(SampleRate::Custom(12_345_000_000).as_f64(), 12_345_000_000);
}

#[test]
fn test_wave_frequencies() {
    // CD quality should use golden ratio
    assert_eq!(SampleRate::CD44k.wave_frequency(), 1_618_000);

    // Higher sample rates should have higher wave frequencies
    assert!(SampleRate::Studio96k.wave_frequency() > SampleRate::CD44k.wave_frequency());
}

#[test]
fn every_rate_has_its_settings() {
    let table = [
        (SampleRate::Phone16k, 16_000_000_000i64, 100_000i64, 800_000i64, 500_000i64),
        (SampleRate::Broadcast22k, 22_050_000_000, 80_000, 750_000, 800_000),
        (SampleRate::CD44k, 44_100_000_000, 50_000, 700_000, 1_618_000),
        (SampleRate::DVD48k, 48_000_000_000, 40_000, 650_000, 2_000_000),
        (SampleRate::Studio96k, 96_000_000_000, 20_000, 600_000, 3_141_590),
        (SampleRate::Audiophile192k, 192_000_000_000, 10_000, 500_000, 4_669_000),
    ];
    for (rate, hertz, clip, wonder, base) in table {
        assert_eq!(rate.as_f64(), hertz);
        let processor = rate.optimal_marine_settings();
        assert_eq!(processor.grid_tick_rate, hertz / 441);
        assert_eq!(processor.clip_threshold, clip);
        assert_eq!(processor.wonder_threshold, wonder);
        assert_eq!(processor.weights.energy, 400_000);
        assert_eq!(rate.wave_frequency(), base);
    }
    assert_eq!(SampleRate::CD44k.optimal_marine_settings().grid_tick_rate, 100_000_000);
}

#[test]
fn custom_rate_settings() {
    let same_as_cd = SampleRate::Custom(44_100_000_000);
    assert_eq!(same_as_cd.wave_frequency(), 1_618_000);
    let processor = same_as_cd.optimal_marine_settings();
    assert_eq!(processor.grid_tick_rate, 100_000_000);
    assert_eq!(processor.clip_threshold, 50_000);
    assert_eq!(processor.wonder_threshold, 700_000);

    // Four times the rate, twice the base.
    assert_eq!(SampleRate::Custom(176_400_000_000).wave_frequency(), 3_236_000);
    // 12345 Hz: the ratio 0.279931 has the root 0.529085.
    assert_eq!(SampleRate::Custom(12_345_000_000).wave_frequency(), 856_059);
    assert_eq!(SampleRate::Custom(0).wave_frequency(), 0);
    assert_eq!(SampleRate::Custom(-44_100_000_000).wave_frequency(), 0);
    assert_eq!(SampleRate::Custom(i64::MAX).wave_frequency(), 23_399_365_755);
    assert_eq!(SampleRate::Custom(-882).optimal_marine_settings().grid_tick_rate, -2);
    assert_ne!(same_as_cd, SampleRate::CD44k);
}

#[test]
fn format_presets() {
    let cd = AudioFormat::cd_quality();
    assert_eq!(cd.sample_rate, SampleRate::CD44k);
    assert_eq!((cd.channels, cd.bit_depth, cd.is_float), (2, 16, false));
    let phone = AudioFormat::phone_quality();
    assert_eq!(phone.sample_rate, SampleRate::Phone16k);
    assert_eq!((phone.channels, phone.bit_depth, phone.is_float), (1, 16, false));
    let studio = AudioFormat::studio_quality();
    assert_eq!(studio.sample_rate, SampleRate::Studio96k);
    assert_eq!((studio.channels, studio.bit_depth, studio.is_float), (2, 24, false));
    let best = AudioFormat::audiophile();
    assert_eq!(best.sample_rate, SampleRate::Audiophile192k);
    assert_eq!((best.channels, best.bit_depth, best.is_float), (2, 32, true));
}

#[test]
fn whole_part_of_the_square_root() {
    assert_eq!(sqrt_floor(0), 0);
    assert_eq!(sqrt_floor(1), 1);
    assert_eq!(sqrt_floor(3), 1);
    assert_eq!(sqrt_floor(4), 2);
    assert_eq!(sqrt_floor(99), 9);
    assert_eq!(sqrt_floor(100), 10);
    assert_eq!(sqrt_floor(1_000_000_000_000), 1_000_000);
    assert_eq!(sqrt_floor(999_999_999_999), 999_999);
    assert_eq!(sqrt_floor(u128::MAX), u64::MAX as u128);
    assert_eq!(sqrt_floor(1u128 << 126), 1u128 << 63);
}
