//! Tones: the waveform shapes that oscillators play.

use vstd::prelude::*;
use crate::settings::{Gain, MAX_LEVEL, NUM_WAVEFORM_STEPS};

verus! {

/// How a tone replaces its waveform table by pseudo-random noise.
#[derive(Clone, Copy, Debug, PartialEq, Eq, Structural)]
pub enum Noise {
    /// The waveform table is played as it is.
    Off,
    /// Noise from a register with a short period, which sounds pitched.
    ShortPeriod,
    /// Noise from a register with a long period, which sounds like hiss.
    LongPeriod,
}

/// One period of a waveform as 32 amplitude levels.
pub type Waveform = [u8; 32];

/// A waveform shape with its noise mode and gain.
#[derive(Clone, Copy, Debug)]
pub struct Tone {
    pub gain: Gain,
    pub noise: Noise,
    pub waveform: Waveform,
}

/// `level` limited to the highest amplitude level.
pub open spec fn clamp_level(level: u8) -> u8 {
    if level > MAX_LEVEL {
        MAX_LEVEL
    } else {
        level
    }
}

/// The register that follows `reg` in the noise sequence of the given mode:
/// a 15-bit shift register fed back from two of its low bits.
pub open spec fn shift_noise(noise: Noise, reg: u16) -> u16 {
    let tap = if noise == Noise::LongPeriod {
        reg >> 1
    } else {
        reg >> 6
    };
    ((reg >> 1) | (((reg ^ tap) & 1) << 14)) & 0x7fff
}

impl Tone {
    /// Noise register after the oscillator has moved to `phase`. The register
    /// shifts on every eighth phase of a noise tone and never otherwise.
    pub open spec fn next_noise(self, phase: u32, reg: u16) -> u16 {
        if self.noise != Noise::Off && phase % 8 == 0 {
            shift_noise(self.noise, reg)
        } else {
            reg
        }
    }

    /// Amplitude level at `phase`, given the noise register at that phase.
    pub open spec fn level(self, phase: u32, reg: u16) -> u8 {
        if self.noise == Noise::Off {
            self.waveform[phase as int]
        } else if reg & 1 == 1 {
            MAX_LEVEL
        } else {
            0
        }
    }

    /// Whether the tone never leaves amplitude level zero.
    pub open spec fn is_flat(self) -> bool {
        &&& self.noise == Noise::Off
        &&& forall|i: int| 0 <= i < NUM_WAVEFORM_STEPS ==> #[trigger] self.waveform[i] == 0
    }

    /// A silent tone: unity gain, no noise, a waveform of zeros.
    pub fn new() -> (r: Tone)
        ensures
            r.gain == crate::settings::GAIN_UNIT,
            r.is_flat(),
    {
        Tone { gain: crate::settings::GAIN_UNIT, noise: Noise::Off, waveform: [0u8; 32] }
    }

    /// Replaces the whole configuration. Levels above the highest are lowered to it.
    pub fn set(&mut self, gain: Gain, noise: Noise, waveform: Waveform)
        ensures
            final(self).gain == gain,
            final(self).noise == noise,
            forall|i: int|
                0 <= i < NUM_WAVEFORM_STEPS ==> #[trigger] final(self).waveform[i] == clamp_level(
                    waveform[i],
                ),
    {
        let mut levels: Waveform = waveform;
        let mut i: usize = 0;
        while i < 32
            invariant
                i <= 32,
                forall|j: int| 0 <= j < i ==> #[trigger] levels[j] == clamp_level(waveform[j]),
                forall|j: int| i <= j < 32 ==> #[trigger] levels[j] == waveform[j],
            decreases 32 - i,
        {
            if levels[i] > MAX_LEVEL {
                levels[i] = MAX_LEVEL;
            }
            i += 1;
        }
        self.gain = gain;
        self.noise = noise;
        self.waveform = levels;
    }

    /// Moves the noise register to `phase` and returns the amplitude level there.
    pub fn amplitude(&self, phase: u32, reg: &mut u16) -> (level: u8)
        requires
            phase < NUM_WAVEFORM_STEPS,
        ensures
            *final(reg) == self.next_noise(phase, *old(reg)),
            level == self.level(phase, *final(reg)),
    {
        match self.noise {
            Noise::Off => self.waveform[phase as usize],
            noise => {
                if phase % 8 == 0 {
                    let r: u16 = *reg;
                    let tap: u16 = match noise {
                        Noise::LongPeriod => r >> 1,
                        _ => r >> 6,
                    };
                    *reg = ((r >> 1) | (((r ^ tap) & 1) << 14)) & 0x7fff;
                }
                if *reg & 1 == 1 {
                    MAX_LEVEL
                } else {
                    0
                }
            },
        }
    }
}

} // verus!
