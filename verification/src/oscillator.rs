//! Oscillators: one per channel, turning the step being played into amplitude
//! changes on the fast clock.

use vstd::prelude::*;
use crate::blip_buf::{lemma_add_delta_frame, lemma_position_grows, BlipBuf, BlipState};
use crate::settings::{
    Effect, Gain, Note, ToneIndex, Volume, CLOCKS_PER_TICK, EFFECT_FADEOUT, EFFECT_HALF_FADEOUT,
    EFFECT_QUARTER_FADEOUT, EFFECT_SLIDE, EFFECT_VIBRATO, GAIN_UNIT, INITIAL_NOISE_REG,
    MAX_AMPLITUDE, MAX_LEVEL, MAX_NOTE, MAX_VOLUME, OSCILLATOR_RESOLUTION, VIBRATO_DEPTH,
    VIBRATO_PERIOD,
};
use crate::tone::Tone;

verus! {

/// Frequencies of the twelve semitones of the lowest octave, in thousandths of
/// a hertz, in equal temperament with semitone 33 at 440 Hz.
pub const OCTAVE_BASE: [u32; 12] = [
    65406,
    69296,
    73416,
    77782,
    82407,
    87307,
    92499,
    97999,
    103826,
    110000,
    116541,
    123471,
];

/// Half a sine period in ten steps, in thousandths.
pub const HALF_SINE: [u32; 10] = [0, 309, 588, 809, 951, 1000, 951, 809, 588, 309];

/// Clocks between two amplitude changes of a waveform at one thousandth of a hertz.
pub const STEP_CLOCKS: u32 = 64_000_000;

/// Largest amplitude an oscillator can reach, whatever the tone holds.
pub const AMPLITUDE_LIMIT: i32 = 600_000;

/// What an oscillator plays during one tick: a step of a sound and how far into it the tick lies.
#[derive(Clone, Copy, Debug)]
pub struct Step {
    /// Semitone of the step; any value outside `0..=MAX_NOTE` is a rest.
    pub note: Note,
    /// Semitone of the step before it in the same sound, or a rest if there is none.
    pub prev_note: Note,
    pub tone: ToneIndex,
    pub volume: Volume,
    pub effect: Effect,
    /// Ticks of the step that have been played before this one.
    pub elapsed: u32,
    /// Ticks the step lasts.
    pub duration: u32,
}

/// Whether `note` stands for silence.
pub open spec fn is_rest(note: Note) -> bool {
    note < 0 || note > MAX_NOTE
}

/// The factor by which frequencies of `octave` exceed those of the lowest octave.
pub open spec fn octave_scale(octave: int) -> int {
    if octave <= 0 {
        1
    } else if octave == 1 {
        2
    } else if octave == 2 {
        4
    } else if octave == 3 {
        8
    } else {
        16
    }
}

/// Frequency of semitone `note` in thousandths of a hertz: each octave doubles it.
pub open spec fn frequency_of(note: int) -> int {
    OCTAVE_BASE[note % 12] * octave_scale(note / 12)
}

impl Step {
    /// Frequency during this tick, in thousandths of a hertz.
    ///
    /// A slide moves linearly from the previous note to this one over the step.
    /// A vibrato swings the frequency by `VIBRATO_DEPTH` thousandths of itself
    /// along a sine of `VIBRATO_PERIOD` ticks.
    pub open spec fn spec_frequency(self) -> int {
        let to = frequency_of(self.note as int);
        if self.effect == EFFECT_SLIDE && !is_rest(self.prev_note) {
            let from = frequency_of(self.prev_note as int);
            if to >= from {
                from + (to - from) * self.elapsed / (self.duration as int)
            } else {
                from - (from - to) * self.elapsed / (self.duration as int)
            }
        } else if self.effect == EFFECT_VIBRATO {
            let k = self.elapsed as int % (VIBRATO_PERIOD as int);
            let swing = to * VIBRATO_DEPTH * HALF_SINE[k % 10] / 1_000_000;
            if k < 10 {
                to + swing
            } else {
                to - swing
            }
        } else {
            to
        }
    }

    /// Number of ticks over which the volume would fall to zero if the step went on.
    pub open spec fn fade_span(self) -> int {
        if self.effect == EFFECT_FADEOUT {
            self.duration as int
        } else if self.effect == EFFECT_HALF_FADEOUT {
            2 * self.duration
        } else if self.effect == EFFECT_QUARTER_FADEOUT {
            4 * self.duration
        } else {
            0
        }
    }

    /// Amplitude of the highest waveform level during this tick: full scale times
    /// both gains and the volume, lowered linearly by a fade, and never above full scale.
    pub open spec fn spec_peak(self, tone_gain: Gain, channel_gain: Gain) -> int {
        let span = self.fade_span();
        let full = MAX_AMPLITUDE * tone_gain * channel_gain * self.volume;
        let unit = GAIN_UNIT * GAIN_UNIT * MAX_VOLUME;
        let peak = if span == 0 {
            full / unit
        } else {
            full * (span - self.elapsed) / (unit * span)
        };
        if peak > MAX_AMPLITUDE {
            MAX_AMPLITUDE as int
        } else {
            peak
        }
    }
}

/// Abstract state of an [`Oscillator`].
pub struct OscState {
    /// Position in the waveform table.
    pub phase: u32,
    /// Clocks from the start of the next tick to the next amplitude change.
    pub clock: u32,
    /// Amplitude the oscillator holds in the synthesis buffer.
    pub amplitude: i32,
    /// Shift register of the noise tones.
    pub noise_reg: u16,
}

impl OscState {
    /// Whether the state is one that an oscillator can be in.
    pub open spec fn wf(self) -> bool {
        &&& self.phase < OSCILLATOR_RESOLUTION
        &&& self.clock <= STEP_CLOCKS + CLOCKS_PER_TICK
        &&& 0 <= self.amplitude <= AMPLITUDE_LIMIT
    }

    /// The state of an oscillator that has played nothing.
    pub open spec fn fresh() -> OscState {
        OscState { phase: 0, clock: 0, amplitude: 0, noise_reg: INITIAL_NOISE_REG }
    }

    /// Clocks of the current tick that remain before the next amplitude change, if any.
    pub open spec fn clocks_left(self) -> nat {
        if self.clock < CLOCKS_PER_TICK {
            (CLOCKS_PER_TICK - self.clock) as nat
        } else {
            0
        }
    }

    /// Amplitude of waveform level `level` under a peak of `peak`.
    pub open spec fn scale(level: u8, peak: int) -> int {
        level * peak / (MAX_LEVEL as int)
    }

    /// The oscillator and the buffer after the oscillator has returned to amplitude zero.
    pub open spec fn rest(self, blip: BlipState) -> (OscState, BlipState) {
        (
            OscState { amplitude: 0, clock: 0, ..self },
            if self.amplitude != 0 {
                blip.add_delta(0, -self.amplitude)
            } else {
                blip
            },
        )
    }

    /// The oscillator and the buffer after the rest of a tick has been played:
    /// every `period` clocks the oscillator moves to the next phase and feeds
    /// the change of amplitude into the buffer.
    pub open spec fn emit(self, blip: BlipState, tone: Tone, period: int, peak: int) -> (
        OscState,
        BlipState,
    )
        decreases self.clocks_left(),
        when 0 < period <= STEP_CLOCKS
    {
        if self.clock >= CLOCKS_PER_TICK {
            (OscState { clock: (self.clock - CLOCKS_PER_TICK) as u32, ..self }, blip)
        } else {
            let phase = ((self.phase + 1) % (OSCILLATOR_RESOLUTION as int)) as u32;
            let noise_reg = tone.next_noise(phase, self.noise_reg);
            let amplitude = Self::scale(tone.level(phase, noise_reg), peak);
            (OscState {
                phase,
                clock: (self.clock + period) as u32,
                amplitude: amplitude as i32,
                noise_reg,
            }).emit(
                blip.add_delta(self.clock as int, amplitude - self.amplitude),
                tone,
                period,
                peak,
            )
        }
    }

    /// The oscillator and the buffer after one tick of `step` has been played
    /// with `tone` at a channel gain of `gain`.
    pub open spec fn play(self, step: Step, tone: Tone, gain: Gain, blip: BlipState) -> (
        OscState,
        BlipState,
    ) {
        if is_rest(step.note) {
            self.rest(blip)
        } else {
            let seeded = if step.elapsed == 0 {
                OscState { noise_reg: INITIAL_NOISE_REG, ..self }
            } else {
                self
            };
            seeded.emit(
                blip,
                tone,
                STEP_CLOCKS as int / step.spec_frequency(),
                step.spec_peak(tone.gain, gain),
            )
        }
    }
}

/// Per-channel playback state of the synthesizer.
#[derive(Debug)]
pub struct Oscillator {
    phase: u32,
    clock: u32,
    amplitude: i32,
    noise_reg: u16,
}

impl View for Oscillator {
    type V = OscState;

    closed spec fn view(&self) -> OscState {
        OscState {
            phase: self.phase,
            clock: self.clock,
            amplitude: self.amplitude,
            noise_reg: self.noise_reg,
        }
    }
}

/// Frequency of a sounding semitone in thousandths of a hertz.
fn note_frequency(note: Note) -> (r: u32)
    requires
        !is_rest(note),
    ensures
        r == frequency_of(note as int),
        65406 <= r <= 1975536,
{
    proof {
        lemma_frequency_range(note as int);
    }
    let n: usize = note as usize;
    let octave: usize = n / 12;
    let scale: u32 = if octave == 0 {
        1
    } else if octave == 1 {
        2
    } else if octave == 2 {
        4
    } else if octave == 3 {
        8
    } else {
        16
    };
    OCTAVE_BASE[n % 12] * scale
}

impl Step {
    /// Frequency during this tick, in thousandths of a hertz.
    pub fn frequency(&self) -> (r: u32)
        requires
            !is_rest(self.note),
            self.elapsed < self.duration,
        ensures
            r == self.spec_frequency(),
            1 <= r <= 4_000_000,
    {
        proof {
            lemma_step_frequency_range(*self);
        }
        let to: u64 = note_frequency(self.note) as u64;
        if self.effect == EFFECT_SLIDE && self.prev_note >= 0 && self.prev_note <= MAX_NOTE {
            let from: u64 = note_frequency(self.prev_note) as u64;
            let e: u64 = self.elapsed as u64;
            let d: u64 = self.duration as u64;
            if to >= from {
                assert((to - from) * e <= 1975536 * 0xffff_ffff) by (nonlinear_arith)
                    requires
                        0 <= to - from <= 1975536,
                        0 <= e <= 0xffff_ffff,
                ;
                (from + (to - from) * e / d) as u32
            } else {
                assert((from - to) * e <= 1975536 * 0xffff_ffff) by (nonlinear_arith)
                    requires
                        0 <= from - to <= 1975536,
                        0 <= e <= 0xffff_ffff,
                ;
                (from - (from - to) * e / d) as u32
            }
        } else if self.effect == EFFECT_VIBRATO {
            let k: u32 = self.elapsed % VIBRATO_PERIOD;
            let s: u64 = HALF_SINE[(k % 10) as usize] as u64;
            assert(to * (VIBRATO_DEPTH as u64) * s <= 1975536 * 15 * 1000) by (nonlinear_arith)
                requires
                    0 <= to <= 1975536,
                    VIBRATO_DEPTH == 15,
                    0 <= s <= 1000,
            ;
            assert(to * (VIBRATO_DEPTH as u64) <= 1975536 * 15) by (nonlinear_arith)
                requires
                    0 <= to <= 1975536,
                    VIBRATO_DEPTH == 15,
            ;
            let swing: u64 = to * (VIBRATO_DEPTH as u64) * s / 1_000_000;
            if k < 10 {
                (to + swing) as u32
            } else {
                (to - swing) as u32
            }
        } else {
            to as u32
        }
    }

    /// Amplitude of the highest waveform level during this tick.
    pub fn peak(&self, tone_gain: Gain, channel_gain: Gain) -> (r: i32)
        requires
            self.elapsed < self.duration,
        ensures
            r == self.spec_peak(tone_gain, channel_gain),
            0 <= r <= MAX_AMPLITUDE,
    {
        let span: u128 = if self.effect == EFFECT_FADEOUT {
            self.duration as u128
        } else if self.effect == EFFECT_HALF_FADEOUT {
            2 * (self.duration as u128)
        } else if self.effect == EFFECT_QUARTER_FADEOUT {
            4 * (self.duration as u128)
        } else {
            0
        };
        assert(0 <= MAX_AMPLITUDE * tone_gain <= 0x8000 * 0xffff_ffff) by (nonlinear_arith)
            requires
                MAX_AMPLITUDE == 32767,
                0 <= tone_gain <= 0xffff_ffff,
        ;
        let a: u128 = (MAX_AMPLITUDE as u128) * (tone_gain as u128);
        assert(a * channel_gain <= 0x8000 * 0xffff_ffff * 0xffff_ffff) by (nonlinear_arith)
            requires
                0 <= a <= 0x8000 * 0xffff_ffff,
                0 <= channel_gain <= 0xffff_ffff,
        ;
        let b: u128 = a * (channel_gain as u128);
        assert(b * self.volume <= 0x8000 * 0xffff_ffff * 0xffff_ffff * 0xff) by (nonlinear_arith)
            requires
                0 <= b <= 0x8000 * 0xffff_ffff * 0xffff_ffff,
                0 <= self.volume <= 0xff,
        ;
        let full: u128 = b * (self.volume as u128);
        assert(full == MAX_AMPLITUDE * tone_gain * channel_gain * self.volume);
        let unit: u128 = 1_000_000 * (MAX_VOLUME as u128);
        assert(unit == GAIN_UNIT * GAIN_UNIT * MAX_VOLUME);
        let peak: u128 = if span == 0 {
            full / unit
        } else {
            let left: u128 = span - self.elapsed as u128;
            assert(full * left <= 0x8000 * 0xffff_ffff * 0xffff_ffff * 0xff * 0x4_0000_0000)
                by (nonlinear_arith)
                requires
                    0 <= full <= 0x8000 * 0xffff_ffff * 0xffff_ffff * 0xff,
                    0 <= left <= 0x4_0000_0000,
            ;
            assert(unit * span == 7_000_000 * span);
            full * left / (unit * span)
        };
        if peak > MAX_AMPLITUDE as u128 {
            MAX_AMPLITUDE
        } else {
            peak as i32
        }
    }
}

impl Oscillator {
    /// Whether the oscillator is in a state that its methods leave it in.
    pub open spec fn wf(&self) -> bool {
        self@.wf()
    }

    /// An oscillator at rest.
    pub fn new() -> (r: Oscillator)
        ensures
            r.wf(),
            r@ == OscState::fresh(),
    {
        Oscillator { phase: 0, clock: 0, amplitude: 0, noise_reg: INITIAL_NOISE_REG }
    }

    /// Amplitude the oscillator holds in the synthesis buffer.
    pub fn amplitude(&self) -> (r: i32)
        ensures
            r == self@.amplitude,
    {
        self.amplitude
    }

    /// Returns the oscillator to the state of a new one, for use with a buffer
    /// that holds nothing of what it has played.
    pub fn reset(&mut self)
        ensures
            final(self).wf(),
            final(self)@ == OscState::fresh(),
    {
        self.phase = 0;
        self.clock = 0;
        self.amplitude = 0;
        self.noise_reg = INITIAL_NOISE_REG;
    }

    /// Returns to amplitude zero at the start of the current frame.
    pub fn rest(&mut self, blip_buf: &mut BlipBuf)
        requires
            old(self).wf(),
            old(blip_buf).wf(),
            old(blip_buf)@.fits(CLOCKS_PER_TICK as int),
        ensures
            final(self).wf(),
            final(blip_buf).wf(),
            final(blip_buf)@.same_frame(old(blip_buf)@),
            (final(self)@, final(blip_buf)@) == old(self)@.rest(old(blip_buf)@),
    {
        proof {
            lemma_position_grows(blip_buf@, 0, CLOCKS_PER_TICK as int);
            lemma_add_delta_frame(blip_buf@, 0, -self.amplitude);
        }
        if self.amplitude != 0 {
            blip_buf.add_delta(0, -self.amplitude);
        }
        self.amplitude = 0;
        self.clock = 0;
    }

    /// Plays one tick of `step` with `tone` at a channel gain of `gain`.
    pub fn update(&mut self, step: &Step, tone: &Tone, gain: Gain, blip_buf: &mut BlipBuf)
        requires
            old(self).wf(),
            old(blip_buf).wf(),
            old(blip_buf)@.fits(CLOCKS_PER_TICK as int),
            step.elapsed < step.duration,
        ensures
            final(self).wf(),
            final(blip_buf).wf(),
            final(blip_buf)@.same_frame(old(blip_buf)@),
            (final(self)@, final(blip_buf)@) == old(self)@.play(*step, *tone, gain, old(blip_buf)@),
    {
        if step.note < 0 || step.note > MAX_NOTE {
            self.rest(blip_buf);
            return ;
        }
        if step.elapsed == 0 {
            self.noise_reg = INITIAL_NOISE_REG;
        }
        let frequency: u32 = step.frequency();
        let period: u32 = STEP_CLOCKS / frequency;
        assert(1 <= period <= STEP_CLOCKS) by (nonlinear_arith)
            requires
                period == 64_000_000int / (frequency as int),
                1 <= frequency <= 4_000_000,
        ;
        let peak: i32 = step.peak(tone.gain, gain);
        let ghost first = self@;
        let ghost blip0 = blip_buf@;
        while self.clock < CLOCKS_PER_TICK
            invariant
                self.wf(),
                blip_buf.wf(),
                blip_buf@.fits(CLOCKS_PER_TICK as int),
                blip_buf@.same_frame(blip0),
                1 <= period <= STEP_CLOCKS,
                0 <= peak <= MAX_AMPLITUDE,
                self@.emit(blip_buf@, *tone, period as int, peak as int) == first.emit(
                    blip0,
                    *tone,
                    period as int,
                    peak as int,
                ),
            decreases self@.clocks_left(),
        {
            let ghost before = self@;
            let ghost blip_before = blip_buf@;
            let phase: u32 = (self.phase + 1) % OSCILLATOR_RESOLUTION;
            let mut reg: u16 = self.noise_reg;
            let level: u8 = tone.amplitude(phase, &mut reg);
            assert(0 <= level * peak <= 255 * 32767) by (nonlinear_arith)
                requires
                    0 <= level <= 255,
                    0 <= peak <= 32767,
            ;
            let amplitude: i32 = (level as i32) * peak / (MAX_LEVEL as i32);
            proof {
                lemma_position_grows(blip_buf@, self.clock as int, CLOCKS_PER_TICK as int);
                lemma_add_delta_frame(blip_buf@, self.clock as int, amplitude - self.amplitude);
            }
            blip_buf.add_delta(self.clock as u64, amplitude - self.amplitude);
            self.phase = phase;
            self.noise_reg = reg;
            self.amplitude = amplitude;
            self.clock = self.clock + period;
            assert(before.emit(blip_before, *tone, period as int, peak as int) == self@.emit(
                blip_buf@,
                *tone,
                period as int,
                peak as int,
            ));
        }
        self.clock = self.clock - CLOCKS_PER_TICK;
    }
}

/// Frequency of a sounding semitone, with its range.
proof fn lemma_frequency_range(note: int)
    requires
        0 <= note <= MAX_NOTE,
    ensures
        65406 <= frequency_of(note) <= 1975536,
{
    let base = OCTAVE_BASE[note % 12];
    let scale = octave_scale(note / 12);
    assert(65406 <= base <= 123471);
    assert(1 <= scale <= 16);
    assert(65406 <= base * scale <= 1975536) by (nonlinear_arith)
        requires
            65406 <= base <= 123471,
            1 <= scale <= 16,
    ;
}

/// The frequency of a tick allows a period of at least one clock.
pub proof fn lemma_step_frequency_range(step: Step)
    requires
        !is_rest(step.note),
        step.elapsed < step.duration,
    ensures
        1 <= step.spec_frequency() <= 4_000_000,
{
    let to = frequency_of(step.note as int);
    lemma_frequency_range(step.note as int);
    if step.effect == EFFECT_SLIDE && !is_rest(step.prev_note) {
        let from = frequency_of(step.prev_note as int);
        lemma_frequency_range(step.prev_note as int);
        let e = step.elapsed as int;
        let d = step.duration as int;
        if to >= from {
            assert(0 <= (to - from) * e / d <= to - from) by (nonlinear_arith)
                requires
                    0 <= e < d,
                    0 <= to - from,
            ;
        } else {
            assert(0 <= (from - to) * e / d <= from - to) by (nonlinear_arith)
                requires
                    0 <= e < d,
                    0 <= from - to,
            ;
        }
    } else if step.effect == EFFECT_VIBRATO {
        let k = step.elapsed as int % (VIBRATO_PERIOD as int);
        let s = HALF_SINE[k % 10] as int;
        assert(0 <= s <= 1000);
        assert(0 <= to * VIBRATO_DEPTH * s <= 1975536 * 15 * 1000) by (nonlinear_arith)
            requires
                0 <= to <= 1975536,
                VIBRATO_DEPTH == 15,
                0 <= s <= 1000,
        ;
    }
}

/// The peak of a tick lies between zero and full scale.
pub proof fn lemma_peak_range(step: Step, tone_gain: Gain, channel_gain: Gain)
    requires
        step.elapsed < step.duration,
    ensures
        0 <= step.spec_peak(tone_gain, channel_gain) <= MAX_AMPLITUDE,
{
    let span = step.fade_span();
    let full = MAX_AMPLITUDE * tone_gain * channel_gain * step.volume;
    let unit = GAIN_UNIT * GAIN_UNIT * MAX_VOLUME;
    assert(unit == 7_000_000);
    assert(full >= 0) by (nonlinear_arith)
        requires
            full == MAX_AMPLITUDE * tone_gain * channel_gain * step.volume,
            MAX_AMPLITUDE == 32767,
            tone_gain >= 0,
            channel_gain >= 0,
            step.volume >= 0,
    ;
    if span == 0 {
        assert(full / unit >= 0);
    } else {
        let left = span - step.elapsed;
        assert(full * left / (unit * span) >= 0) by (nonlinear_arith)
            requires
                full >= 0,
                left > 0,
                unit * span > 0,
        ;
    }
}

/// A tick leaves an oscillator in a state that an oscillator can be in, and
/// the buffer with its sample boundaries where they were.
pub proof fn lemma_emit_wf(osc: OscState, blip: BlipState, tone: Tone, period: int, peak: int)
    requires
        osc.wf(),
        0 < period <= STEP_CLOCKS,
        0 <= peak <= MAX_AMPLITUDE,
    ensures
        osc.emit(blip, tone, period, peak).0.wf(),
        osc.emit(blip, tone, period, peak).1.same_frame(blip),
        blip.wf() ==> osc.emit(blip, tone, period, peak).1.wf(),
    decreases osc.clocks_left(),
{
    if osc.clock < CLOCKS_PER_TICK {
        let phase = ((osc.phase + 1) % (OSCILLATOR_RESOLUTION as int)) as u32;
        let noise_reg = tone.next_noise(phase, osc.noise_reg);
        let level = tone.level(phase, noise_reg);
        let amplitude = OscState::scale(level, peak);
        assert(0 <= amplitude <= AMPLITUDE_LIMIT) by (nonlinear_arith)
            requires
                amplitude == level * peak / 15,
                0 <= level <= 255,
                0 <= peak <= 32767,
        ;
        let next = OscState {
            phase,
            clock: (osc.clock + period) as u32,
            amplitude: amplitude as i32,
            noise_reg,
        };
        let fed = blip.add_delta(osc.clock as int, amplitude - osc.amplitude);
        lemma_add_delta_frame(blip, osc.clock as int, amplitude - osc.amplitude);
        lemma_emit_wf(next, fed, tone, period, peak);
    }
}

/// A tick of any step leaves an oscillator in a state that an oscillator can
/// be in, and the buffer with its sample boundaries where they were.
pub proof fn lemma_play_wf(osc: OscState, step: Step, tone: Tone, gain: Gain, blip: BlipState)
    requires
        osc.wf(),
        step.elapsed < step.duration,
    ensures
        osc.play(step, tone, gain, blip).0.wf(),
        osc.play(step, tone, gain, blip).1.same_frame(blip),
        blip.wf() ==> osc.play(step, tone, gain, blip).1.wf(),
{
    if is_rest(step.note) {
        lemma_add_delta_frame(blip, 0, -osc.amplitude);
    } else {
        lemma_step_frequency_range(step);
        lemma_peak_range(step, tone.gain, gain);
        let frequency = step.spec_frequency();
        let period = STEP_CLOCKS as int / frequency;
        assert(1 <= period <= STEP_CLOCKS) by (nonlinear_arith)
            requires
                period == 64_000_000int / frequency,
                1 <= frequency <= 4_000_000,
        ;
        let seeded = if step.elapsed == 0 {
            OscState { noise_reg: INITIAL_NOISE_REG, ..osc }
        } else {
            osc
        };
        lemma_emit_wf(seeded, blip, tone, period, step.spec_peak(tone.gain, gain));
    }
}

/// What an oscillator becomes does not depend on what the buffer holds.
pub proof fn lemma_emit_ignores_buffer(
    osc: OscState,
    blip: BlipState,
    other: BlipState,
    tone: Tone,
    period: int,
    peak: int,
)
    requires
        0 < period <= STEP_CLOCKS,
    ensures
        osc.emit(blip, tone, period, peak).0 == osc.emit(other, tone, period, peak).0,
    decreases osc.clocks_left(),
{
    if osc.clock < CLOCKS_PER_TICK {
        let phase = ((osc.phase + 1) % (OSCILLATOR_RESOLUTION as int)) as u32;
        let noise_reg = tone.next_noise(phase, osc.noise_reg);
        let amplitude = OscState::scale(tone.level(phase, noise_reg), peak);
        let next = OscState {
            phase,
            clock: (osc.clock + period) as u32,
            amplitude: amplitude as i32,
            noise_reg,
        };
        lemma_emit_ignores_buffer(
            next,
            blip.add_delta(osc.clock as int, amplitude - osc.amplitude),
            other.add_delta(osc.clock as int, amplitude - osc.amplitude),
            tone,
            period,
            peak,
        );
    }
}

/// A flat tone holds an oscillator at amplitude zero: the rest of a tick leaves
/// the amplitude at zero and the buffer as it was.
pub proof fn lemma_emit_flat(osc: OscState, blip: BlipState, tone: Tone, period: int, peak: int)
    requires
        osc.wf(),
        osc.amplitude == 0,
        tone.is_flat(),
        0 < period <= STEP_CLOCKS,
    ensures
        osc.emit(blip, tone, period, peak).0.wf(),
        osc.emit(blip, tone, period, peak).0.amplitude == 0,
        osc.emit(blip, tone, period, peak).1 == blip,
    decreases osc.clocks_left(),
{
    if osc.clock < CLOCKS_PER_TICK {
        let phase = ((osc.phase + 1) % (OSCILLATOR_RESOLUTION as int)) as u32;
        let noise_reg = tone.next_noise(phase, osc.noise_reg);
        assert(tone.level(phase, noise_reg) == 0) by {
            assert(tone.waveform[phase as int] == 0);
        }
        assert(OscState::scale(0, peak) == 0) by (nonlinear_arith)
            requires
                OscState::scale(0, peak) == 0 * peak / 15,
        ;
        crate::blip_buf::lemma_zero_delta(blip, osc.clock as int);
        let next = OscState { phase, clock: (osc.clock + period) as u32, amplitude: 0, noise_reg };
        lemma_emit_flat(next, blip, tone, period, peak);
    }
}

/// An oscillator at amplitude zero that rests, or plays a flat tone, stays
/// at amplitude zero and leaves the buffer as it was.
pub proof fn lemma_play_flat(osc: OscState, step: Step, tone: Tone, gain: Gain, blip: BlipState)
    requires
        osc.wf(),
        osc.amplitude == 0,
        step.elapsed < step.duration,
        is_rest(step.note) || tone.is_flat(),
    ensures
        osc.play(step, tone, gain, blip).0.wf(),
        osc.play(step, tone, gain, blip).0.amplitude == 0,
        osc.play(step, tone, gain, blip).1 == blip,
{
    if !is_rest(step.note) {
        lemma_step_frequency_range(step);
        let frequency = step.spec_frequency();
        let period = STEP_CLOCKS as int / frequency;
        assert(1 <= period <= STEP_CLOCKS) by (nonlinear_arith)
            requires
                period == 64_000_000int / frequency,
                1 <= frequency <= 4_000_000,
        ;
        let seeded = if step.elapsed == 0 {
            OscState { noise_reg: INITIAL_NOISE_REG, ..osc }
        } else {
            osc
        };
        lemma_emit_flat(seeded, blip, tone, period, step.spec_peak(tone.gain, gain));
    }
}

} // verus!

