//! Fixed parameters of the sound hardware being modelled.

use vstd::prelude::*;
use crate::tone::{Noise, Waveform};

verus! {

/// A semitone number, or [`REST`].
pub type Note = i8;

/// Ticks per step of a sound.
pub type Speed = u32;

/// A step volume, 0 to [`MAX_VOLUME`].
pub type Volume = u8;

/// An effect code, one of the `EFFECT_*` constants.
pub type Effect = u8;

/// An index into the tone table.
pub type ToneIndex = u32;

/// A gain in thousandths: [`GAIN_UNIT`] is unity.
pub type Gain = u32;

/// Rate of the internal event clock, in clocks per second (2.048 MHz).
pub const CLOCK_RATE: u32 = 2_048_000;

/// Rate of the audible output, in samples per second (22.05 kHz).
pub const SAMPLE_RATE: u32 = 22050;

/// Samples per real-time output buffer (512 / 22050 = 23.2 ms).
pub const NUM_SAMPLES: u32 = 512;

/// Sequencer ticks per second.
pub const TICKS_PER_SECOND: u32 = 120;

/// Clocks that elapse during one tick.
pub const CLOCKS_PER_TICK: u32 = CLOCK_RATE / TICKS_PER_SECOND;

/// Entries of a waveform table, and so amplitude changes per waveform period.
pub const OSCILLATOR_RESOLUTION: u32 = 32;

/// Peak frequency deviation of the vibrato effect, in thousandths of the frequency.
pub const VIBRATO_DEPTH: u32 = 15;

/// Rate of the vibrato effect, in cycles per second.
pub const VIBRATO_FREQUENCY: u32 = 6;

/// Ticks in one vibrato cycle.
pub const VIBRATO_PERIOD: u32 = TICKS_PER_SECOND / VIBRATO_FREQUENCY;

pub const NUM_CHANNELS: u32 = 4;

pub const NUM_TONES: u32 = 4;

pub const NUM_SOUNDS: u32 = 64;

pub const NUM_MUSICS: u32 = 8;

pub const NUM_WAVEFORM_STEPS: u32 = 32;

/// Unity gain.
pub const GAIN_UNIT: Gain = 1000;

pub const INITIAL_CHANNEL_GAIN: Gain = 125;

pub const INITIAL_SOUND_SPEED: Speed = 30;

pub const INITIAL_NOISE_REG: u16 = 0x4000;

pub const TONE_TRIANGLE: ToneIndex = 0;

pub const TONE_SQUARE: ToneIndex = 1;

pub const TONE_PULSE: ToneIndex = 2;

pub const TONE_NOISE: ToneIndex = 3;

pub const EFFECT_NONE: Effect = 0;

pub const EFFECT_SLIDE: Effect = 1;

pub const EFFECT_VIBRATO: Effect = 2;

pub const EFFECT_FADEOUT: Effect = 3;

pub const EFFECT_HALF_FADEOUT: Effect = 4;

pub const EFFECT_QUARTER_FADEOUT: Effect = 5;

/// The built-in tones: triangle, square, pulse and noise.
pub const DEFAULT_TONES: [(Gain, Noise, Waveform); 4] = [
    (
        1000,
        Noise::Off,
        [
            8, 9, 10, 11, 12, 13, 14, 15, 15, 14, 13, 12, 11, 10, 9, 8, 7, 6, 5, 4, 3, 2, 1, 0,
            0, 1, 2, 3, 4, 5, 6, 7,
        ],
    ),
    (
        300,
        Noise::Off,
        [
            15, 15, 15, 15, 15, 15, 15, 15, 15, 15, 15, 15, 15, 15, 15, 15, 0, 0, 0, 0, 0, 0, 0,
            0, 0, 0, 0, 0, 0, 0, 0, 0,
        ],
    ),
    (
        300,
        Noise::Off,
        [
            15, 15, 15, 15, 15, 15, 15, 15, 0, 0, 0, 0, 0, 0, 0, 0, 0, 0, 0, 0, 0, 0, 0, 0, 0,
            0, 0, 0, 0, 0, 0, 0,
        ],
    ),
    (
        600,
        Noise::LongPeriod,
        [
            0, 0, 0, 0, 0, 0, 0, 0, 0, 0, 0, 0, 0, 0, 0, 0, 0, 0, 0, 0, 0, 0, 0, 0, 0, 0, 0, 0,
            0, 0, 0, 0,
        ],
    ),
];

/// The note value that stands for silence.
pub const REST: Note = -1;

/// Highest semitone: five octaves starting at 0.
pub const MAX_NOTE: Note = 12 * 5 - 1;

pub const MAX_VOLUME: Volume = 7;

pub const MAX_EFFECT: Effect = 5;

/// Highest amplitude level of a waveform table entry.
pub const MAX_LEVEL: u8 = 15;

/// Largest amplitude one oscillator feeds into the synthesis buffer.
pub const MAX_AMPLITUDE: i32 = 32767;

} // verus!
