use pyxel_engine::audio::Audio;
use pyxel_engine::oscillator::{Oscillator, Step, HALF_SINE, OCTAVE_BASE, STEP_CLOCKS};
use pyxel_engine::settings::{
    CLOCKS_PER_TICK, DEFAULT_TONES, EFFECT_FADEOUT, EFFECT_HALF_FADEOUT, EFFECT_NONE,
    EFFECT_QUARTER_FADEOUT, EFFECT_SLIDE, EFFECT_VIBRATO, GAIN_UNIT, INITIAL_NOISE_REG,
    MAX_AMPLITUDE, REST, VIBRATO_PERIOD,
};
use pyxel_engine::tone::{Noise, Tone};

fn step_of(note: i8, prev_note: i8, effect: u8, elapsed: u32, duration: u32) -> Step {
    Step { note, prev_note, tone: 0, volume: 7, effect, elapsed, duration }
}

fn square() -> Tone {
    let (gain, noise, waveform) = DEFAULT_TONES[1];
    Tone { gain, noise, waveform }
}

#[test]
fn frequencies_are_equal_tempered() {
    assert_eq!(step_of(33, REST, EFFECT_NONE, 0, 1).frequency(), 440_000);
    assert_eq!(step_of(0, REST, EFFECT_NONE, 0, 1).frequency(), 65_406);
    assert_eq!(step_of(12, REST, EFFECT_NONE, 0, 1).frequency(), 130_812);
    assert_eq!(step_of(45, REST, EFFECT_NONE, 0, 1).frequency(), 880_000);
    assert_eq!(step_of(59, REST, EFFECT_NONE, 0, 1).frequency(), 1_975_536);
    assert_eq!(OCTAVE_BASE[9], 110_000);
    for note in 0..48i8 {
        let low = step_of(note, REST, EFFECT_NONE, 0, 1).frequency();
        let high = step_of(note + 12, REST, EFFECT_NONE, 0, 1).frequency();
        assert_eq!(high, 2 * low);
    }
    for note in 0..59i8 {
        let low = step_of(note, REST, EFFECT_NONE, 0, 1).frequency() as f64;
        let high = step_of(note + 1, REST, EFFECT_NONE, 0, 1).frequency() as f64;
        assert!((high / low - 2f64.powf(1.0 / 12.0)).abs() < 1e-4);
    }
}

#[test]
fn tables_hold_the_rounded_values() {
    for (n, &base) in OCTAVE_BASE.iter().enumerate() {
        let exact = 440_000.0 * 2f64.powf((n as f64 - 33.0) / 12.0);
        assert_eq!(base, exact.round() as u32);
    }
    for (k, &s) in HALF_SINE.iter().enumerate() {
        let exact = 1000.0 * (std::f64::consts::PI * k as f64 / 10.0).sin();
        assert_eq!(s, exact.round() as u32);
    }
    assert_eq!(STEP_CLOCKS as u64, 2_048_000 * 1000 / 32);
}

#[test]
fn slide_moves_linearly_from_the_previous_note() {
    assert_eq!(step_of(45, 33, EFFECT_SLIDE, 0, 10).frequency(), 440_000);
    assert_eq!(step_of(45, 33, EFFECT_SLIDE, 5, 10).frequency(), 660_000);
    assert_eq!(step_of(45, 33, EFFECT_SLIDE, 9, 10).frequency(), 836_000);
    assert_eq!(step_of(33, 45, EFFECT_SLIDE, 3, 10).frequency(), 748_000);
    assert_eq!(step_of(33, 45, EFFECT_SLIDE, 1, 3).frequency(), 880_000 - 146_666);
    assert_eq!(step_of(45, REST, EFFECT_SLIDE, 5, 10).frequency(), 880_000);
    assert_eq!(step_of(45, 45, EFFECT_SLIDE, 5, 10).frequency(), 880_000);
}

#[test]
fn vibrato_swings_by_fifteen_thousandths() {
    assert_eq!(VIBRATO_PERIOD, 20);
    assert_eq!(HALF_SINE[5], 1000);
    assert_eq!(step_of(33, REST, EFFECT_VIBRATO, 0, 100).frequency(), 440_000);
    assert_eq!(step_of(33, REST, EFFECT_VIBRATO, 1, 100).frequency(), 442_039);
    assert_eq!(step_of(33, REST, EFFECT_VIBRATO, 5, 100).frequency(), 446_600);
    assert_eq!(step_of(33, REST, EFFECT_VIBRATO, 10, 100).frequency(), 440_000);
    assert_eq!(step_of(33, REST, EFFECT_VIBRATO, 15, 100).frequency(), 433_400);
    assert_eq!(step_of(33, REST, EFFECT_VIBRATO, 25, 100).frequency(), 446_600);
    assert_eq!(step_of(33, REST, EFFECT_VIBRATO, 31, 100).frequency(), 437_961);
}

#[test]
fn peak_is_full_scale_times_gains_and_volume() {
    let none = step_of(33, REST, EFFECT_NONE, 0, 10);
    assert_eq!(none.peak(GAIN_UNIT, GAIN_UNIT), MAX_AMPLITUDE);
    assert_eq!(none.peak(300, 125), 1228);
    assert_eq!(none.peak(1000, 125), 4095);
    assert_eq!(none.peak(0, 125), 0);
    assert_eq!(none.peak(300, 0), 0);
    assert_eq!(none.peak(2000, 2000), MAX_AMPLITUDE);
    let quiet = Step { volume: 3, ..none };
    assert_eq!(quiet.peak(1000, 1000), 14043);
    let mute = Step { volume: 0, ..none };
    assert_eq!(mute.peak(1000, 1000), 0);
}

#[test]
fn fades_lower_the_peak_linearly() {
    assert_eq!(step_of(33, REST, EFFECT_FADEOUT, 0, 10).peak(300, 125), 1228);
    assert_eq!(step_of(33, REST, EFFECT_FADEOUT, 3, 10).peak(300, 125), 860);
    assert_eq!(step_of(33, REST, EFFECT_FADEOUT, 9, 10).peak(300, 125), 122);
    assert_eq!(step_of(33, REST, EFFECT_HALF_FADEOUT, 5, 10).peak(300, 125), 921);
    assert_eq!(step_of(33, REST, EFFECT_HALF_FADEOUT, 9, 10).peak(300, 125), 675);
    assert_eq!(step_of(33, REST, EFFECT_QUARTER_FADEOUT, 5, 10).peak(300, 125), 1075);
    assert_eq!(step_of(33, REST, EFFECT_QUARTER_FADEOUT, 9, 10).peak(300, 125), 952);
    assert_eq!(step_of(33, REST, EFFECT_SLIDE, 9, 10).peak(300, 125), 1228);
}

#[test]
fn tone_set_lowers_levels_to_fifteen() {
    let mut tone = Tone::new();
    assert_eq!(tone.gain, GAIN_UNIT);
    assert_eq!(tone.noise, Noise::Off);
    assert_eq!(tone.waveform, [0u8; 32]);
    let mut waveform = [0u8; 32];
    for (i, level) in waveform.iter_mut().enumerate() {
        *level = (i * 8) as u8;
    }
    tone.set(250, Noise::ShortPeriod, waveform);
    assert_eq!(tone.gain, 250);
    assert_eq!(tone.noise, Noise::ShortPeriod);
    assert_eq!(tone.waveform[0], 0);
    assert_eq!(tone.waveform[1], 8);
    assert_eq!(tone.waveform[2], 15);
    assert_eq!(tone.waveform[31], 15);
}

#[test]
fn waveform_tone_reads_its_table() {
    let tone = square();
    let mut reg: u16 = 0x1234;
    assert_eq!(tone.amplitude(0, &mut reg), 15);
    assert_eq!(tone.amplitude(15, &mut reg), 15);
    assert_eq!(tone.amplitude(16, &mut reg), 0);
    assert_eq!(tone.amplitude(31, &mut reg), 0);
    assert_eq!(reg, 0x1234);
}

#[test]
fn noise_tone_shifts_its_register_every_eighth_phase() {
    let (gain, noise, waveform) = DEFAULT_TONES[3];
    let long = Tone { gain, noise, waveform };
    assert_eq!(long.noise, Noise::LongPeriod);
    let mut reg: u16 = INITIAL_NOISE_REG;
    assert_eq!(long.amplitude(1, &mut reg), 0);
    assert_eq!(reg, 0x4000);
    assert_eq!(long.amplitude(8, &mut reg), 0);
    assert_eq!(reg, 0x2000);
    let mut reg: u16 = 0x0001;
    assert_eq!(long.amplitude(0, &mut reg), 0);
    assert_eq!(reg, 0x4000);
    let mut reg: u16 = 0x0003;
    assert_eq!(long.amplitude(16, &mut reg), 15);
    assert_eq!(reg, 0x0001);
    let short = Tone { gain, noise: Noise::ShortPeriod, waveform };
    let mut reg: u16 = 0x0040;
    assert_eq!(short.amplitude(24, &mut reg), 0);
    assert_eq!(reg, 0x4020);
    let mut reg: u16 = 0x0041;
    assert_eq!(short.amplitude(24, &mut reg), 0);
    assert_eq!(reg, 0x0020);
}

#[test]
fn oscillator_changes_amplitude_once_per_period() {
    let mut osc = Oscillator::new();
    let mut buf = Audio::new_buffer(512);
    let step = Step { tone: 1, ..step_of(33, REST, EFFECT_NONE, 0, 30) };
    assert_eq!(STEP_CLOCKS / step.frequency(), 145);
    osc.update(&step, &square(), 125, &mut buf);
    // 118 changes of 145 clocks reach past the 17066 clocks of a tick: phase 118 % 32.
    assert_eq!(17066 / 145 + 1, 118);
    assert_eq!(osc.amplitude(), 0);
    buf.end_frame(CLOCKS_PER_TICK as u64);
    let mut out = [0i16; 184];
    let count = buf.read_samples(&mut out);
    assert_eq!(count, 183);
    assert_eq!(&out[..12], &[0, 1, -3, 10, -8, 34, 0, 220, 1007, 1225, 1188, 1228]);
}

#[test]
fn oscillator_rests_on_a_rest() {
    let mut osc = Oscillator::new();
    let mut buf = Audio::new_buffer(512);
    let loud = Step { tone: 1, ..step_of(33, REST, EFFECT_NONE, 0, 30) };
    let mut pulse = square();
    pulse.waveform = [15u8; 32];
    osc.update(&loud, &pulse, 125, &mut buf);
    assert_eq!(osc.amplitude(), 1228);
    buf.end_frame(CLOCKS_PER_TICK as u64);
    let rest = Step { note: REST, ..loud };
    osc.update(&rest, &pulse, 125, &mut buf);
    assert_eq!(osc.amplitude(), 0);
    let high = Step { note: 60, ..loud };
    osc.update(&loud, &pulse, 125, &mut buf);
    assert_eq!(osc.amplitude(), 1228);
    osc.update(&high, &pulse, 125, &mut buf);
    assert_eq!(osc.amplitude(), 0);
    osc.update(&loud, &pulse, 125, &mut buf);
    osc.rest(&mut buf);
    assert_eq!(osc.amplitude(), 0);
    osc.update(&loud, &pulse, 125, &mut buf);
    osc.reset();
    assert_eq!(osc.amplitude(), 0);
}
