//! Sample rates and the detector and transform settings that suit them.

use vstd::prelude::*;
use crate::fixed::{fx_mul, is_sqrt_floor, sqrt_floor, UNIT};
use crate::marine::{default_tuning, fresh_model, grid_of, MarineProcessor};

verus! {

/// Supported audio sample rates.
#[derive(Debug, Clone, Copy, PartialEq)]
pub enum SampleRate {
    /// Phone quality, 16 kHz.
    Phone16k,
    /// Broadcast quality, 22.05 kHz.
    Broadcast22k,
    /// CD quality, 44.1 kHz.
    CD44k,
    /// DVD quality, 48 kHz.
    DVD48k,
    /// Studio quality, 96 kHz.
    Studio96k,
    /// Audiophile quality, 192 kHz.
    Audiophile192k,
    /// Another rate, in millionths of a hertz.
    Custom(i64),
}

/// The rate in millionths of a hertz.
pub open spec fn rate_of(rate: SampleRate) -> i64 {
    match rate {
        SampleRate::Phone16k => 16_000_000_000,
        SampleRate::Broadcast22k => 22_050_000_000,
        SampleRate::CD44k => 44_100_000_000,
        SampleRate::DVD48k => 48_000_000_000,
        SampleRate::Studio96k => 96_000_000_000,
        SampleRate::Audiophile192k => 192_000_000_000,
        SampleRate::Custom(rate) => rate,
    }
}

/// The clip threshold that suits a rate: the better the quality, the more
/// sensitive.
pub open spec fn clip_threshold_of(rate: SampleRate) -> i64 {
    match rate {
        SampleRate::Phone16k => 100_000,
        SampleRate::Broadcast22k => 80_000,
        SampleRate::CD44k => 50_000,
        SampleRate::DVD48k => 40_000,
        SampleRate::Studio96k => 20_000,
        SampleRate::Audiophile192k => 10_000,
        SampleRate::Custom(_) => 50_000,
    }
}

/// The wonder threshold that suits a rate.
pub open spec fn wonder_threshold_of(rate: SampleRate) -> i64 {
    match rate {
        SampleRate::Phone16k => 800_000,
        SampleRate::Broadcast22k => 750_000,
        SampleRate::CD44k => 700_000,
        SampleRate::DVD48k => 650_000,
        SampleRate::Studio96k => 600_000,
        SampleRate::Audiophile192k => 500_000,
        SampleRate::Custom(_) => 700_000,
    }
}

/// Whether `base` is the transform base recommended for a custom rate:
/// 1.618 times the square root of the rate over 44.1 kHz, each step rounded
/// down; 0 for a rate that is not positive.
pub open spec fn is_custom_wave_frequency(rate: i64, base: int) -> bool {
    if rate <= 0 {
        base == 0
    } else {
        exists|root: int|
            is_sqrt_floor((rate as int / 44_100) * UNIT, root) && base == fx_mul(1_618_000, root)
    }
}

impl SampleRate {
    /// The rate in millionths of a hertz.
    pub fn as_f64(&self) -> (rate: i64)
        ensures
            rate == rate_of(*self),
    {
        match self {
            SampleRate::Phone16k => 16_000_000_000,
            SampleRate::Broadcast22k => 22_050_000_000,
            SampleRate::CD44k => 44_100_000_000,
            SampleRate::DVD48k => 48_000_000_000,
            SampleRate::Studio96k => 96_000_000_000,
            SampleRate::Audiophile192k => 192_000_000_000,
            SampleRate::Custom(rate) => *rate,
        }
    }

    /// A fresh detector with the settings that suit this rate.
    pub fn optimal_marine_settings(&self) -> (p: MarineProcessor)
        ensures
            p.model() == fresh_model(),
            p.grid_tick_rate == grid_of(rate_of(*self)),
            p.clip_threshold == clip_threshold_of(*self),
            p.wonder_threshold == wonder_threshold_of(*self),
            p.weights == default_tuning().weights,
    {
        let mut processor = MarineProcessor::for_audio(self.as_f64());
        processor.clip_threshold =
        match self {
            SampleRate::Phone16k => 100_000,
            SampleRate::Broadcast22k => 80_000,
            SampleRate::CD44k => 50_000,
            SampleRate::DVD48k => 40_000,
            SampleRate::Studio96k => 20_000,
            SampleRate::Audiophile192k => 10_000,
            SampleRate::Custom(_) => 50_000,
        };
        processor.wonder_threshold =
        match self {
            SampleRate::Phone16k => 800_000,
            SampleRate::Broadcast22k => 750_000,
            SampleRate::CD44k => 700_000,
            SampleRate::DVD48k => 650_000,
            SampleRate::Studio96k => 600_000,
            SampleRate::Audiophile192k => 500_000,
            SampleRate::Custom(_) => 700_000,
        };
        processor
    }

    /// The transform base recommended for this rate.
    pub fn wave_frequency(&self) -> (base: i64)
        ensures
            match *self {
                SampleRate::Phone16k => base == 500_000,
                SampleRate::Broadcast22k => base == 800_000,
                SampleRate::CD44k => base == 1_618_000,
                SampleRate::DVD48k => base == 2_000_000,
                SampleRate::Studio96k => base == 3_141_590,
                SampleRate::Audiophile192k => base == 4_669_000,
                SampleRate::Custom(rate) => is_custom_wave_frequency(rate, base as int),
            },
    {
        match self {
            SampleRate::Phone16k => 500_000,
            SampleRate::Broadcast22k => 800_000,
            SampleRate::CD44k => 1_618_000,
            SampleRate::DVD48k => 2_000_000,
            SampleRate::Studio96k => 3_141_590,
            SampleRate::Audiophile192k => 4_669_000,
            SampleRate::Custom(rate) => {
                if *rate <= 0 {
                    0
                } else {
                    let ratio: u128 = (*rate as u128) / 44_100;
                    let root: u128 = sqrt_floor(ratio * 1_000_000);
                    assert(root < 0x8_0000_0000) by (nonlinear_arith)
                        requires
                            root * root <= ratio * 1_000_000,
                            ratio <= 0x1_0000_0000_0000,
                    ;
                    let scaled: u128 = (1_618_000 * root) / 1_000_000;
                    assert(is_sqrt_floor((*rate as int / 44_100) * UNIT, root as int));
                    assert(scaled as int == fx_mul(1_618_000, root as int));
                    assert(scaled <= 1_618_000 * root);
                    scaled as i64
                }
            },
        }
    }
}

/// Audio format configuration.
#[derive(Debug, Clone, Copy)]
pub struct AudioFormat {
    /// Sample rate.
    pub sample_rate: SampleRate,
    /// Number of channels: 1 for mono, 2 for stereo.
    pub channels: usize,
    /// Bits per sample: 8, 16, 24 or 32.
    pub bit_depth: usize,
    /// Whether samples are floating-point numbers rather than integers.
    pub is_float: bool,
}

impl AudioFormat {
    /// CD quality: 44.1 kHz, stereo, 16 bits.
    pub fn cd_quality() -> (f: Self)
        ensures
            f.sample_rate == SampleRate::CD44k,
            f.channels == 2,
            f.bit_depth == 16,
            !f.is_float,
    {
        AudioFormat { sample_rate: SampleRate::CD44k, channels: 2, bit_depth: 16, is_float: false }
    }

    /// Phone quality: 16 kHz, mono, 16 bits.
    pub fn phone_quality() -> (f: Self)
        ensures
            f.sample_rate == SampleRate::Phone16k,
            f.channels == 1,
            f.bit_depth == 16,
            !f.is_float,
    {
        AudioFormat {
            sample_rate: SampleRate::Phone16k,
            channels: 1,
            bit_depth: 16,
            is_float: false,
        }
    }

    /// Studio quality: 96 kHz, stereo, 24 bits.
    pub fn studio_quality() -> (f: Self)
        ensures
            f.sample_rate == SampleRate::Studio96k,
            f.channels == 2,
            f.bit_depth == 24,
            !f.is_float,
    {
        AudioFormat {
            sample_rate: SampleRate::Studio96k,
            channels: 2,
            bit_depth: 24,
            is_float: false,
        }
    }

    /// Audiophile quality: 192 kHz, stereo, 32-bit floating point.
    pub fn audiophile() -> (f: Self)
        ensures
            f.sample_rate == SampleRate::Audiophile192k,
            f.channels == 2,
            f.bit_depth == 32,
            f.is_float,
    {
        AudioFormat {
            sample_rate: SampleRate::Audiophile192k,
            channels: 2,
            bit_depth: 32,
            is_float: true,
        }
    }
}

} // verus!
