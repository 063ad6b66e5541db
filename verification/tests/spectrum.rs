use pyxel_engine::audio::Audio;
use pyxel_engine::pyxel::Pyxel;
use pyxel_engine::settings::{CLOCK_RATE, GAIN_UNIT, MAX_AMPLITUDE, SAMPLE_RATE, TONE_SQUARE};

const WINDOW: usize = 4410;
const SETTLE: usize = 2205;

/// A second of a square wave at `note`, at full scale, once the filter has settled.
fn band_limited_square(note: i8) -> Vec<f64> {
    let mut pyxel = Pyxel::new();
    pyxel.tones[TONE_SQUARE as usize].gain = GAIN_UNIT;
    pyxel.channels[0].set_gain(GAIN_UNIT);
    pyxel.sounds[0].set(&[note], &[TONE_SQUARE], &[7], &[0], 30);
    pyxel.play(0, &[0], None, true, false);
    let mut blip_buf = Audio::new_buffer(512);
    let mut samples = vec![0i16; SETTLE + WINDOW];
    Audio::render_samples(&mut pyxel.channels, &pyxel.tones, &mut blip_buf, &mut samples);
    samples[SETTLE..].iter().map(|&s| s as f64).collect()
}

/// The same square wave, read off at the sample times without any filter.
fn plain_square(period: u32) -> Vec<f64> {
    (SETTLE..SETTLE + WINDOW)
        .map(|i| {
            let clock = i as f64 * CLOCK_RATE as f64 / SAMPLE_RATE as f64;
            let phase = ((clock / period as f64) as u64 + 1) % 32;
            if phase < 16 {
                MAX_AMPLITUDE as f64
            } else {
                0.0
            }
        })
        .collect()
}

fn without_mean(signal: &[f64]) -> Vec<f64> {
    let mean = signal.iter().sum::<f64>() / signal.len() as f64;
    signal.iter().map(|s| s - mean).collect()
}

fn energy(signal: &[f64]) -> f64 {
    signal.iter().map(|s| s * s).sum()
}

/// Energy of `signal` at `frequency`, both signs of it counted.
fn energy_at(signal: &[f64], frequency: f64) -> f64 {
    let (mut re, mut im) = (0.0f64, 0.0f64);
    for (i, s) in signal.iter().enumerate() {
        let angle = 2.0 * std::f64::consts::PI * frequency * i as f64 / SAMPLE_RATE as f64;
        re += s * angle.cos();
        im -= s * angle.sin();
    }
    2.0 * (re * re + im * im) / signal.len() as f64
}

/// Share of the energy of `signal` that lies at none of the odd harmonics of
/// `fundamental` below half the sample rate: what a square wave of that
/// frequency can only have got by aliasing.
fn share_outside_harmonics(signal: &[f64], fundamental: f64) -> f64 {
    let mut inside = 0.0;
    let mut k = 1.0;
    while fundamental * k < SAMPLE_RATE as f64 / 2.0 {
        inside += energy_at(signal, fundamental * k);
        k += 2.0;
    }
    1.0 - inside / energy(signal)
}

#[test]
fn high_square_wave_is_free_of_aliases() {
    // Semitone 59 has a period of 32 clocks per waveform step: 2000 Hz.
    let fundamental = CLOCK_RATE as f64 / (32.0 * 32.0);
    assert_eq!(fundamental, 2000.0);
    let band_limited = without_mean(&band_limited_square(59));
    let plain = without_mean(&plain_square(32));
    let aliased = share_outside_harmonics(&band_limited, fundamental);
    let aliased_plain = share_outside_harmonics(&plain, fundamental);
    assert!(aliased.abs() < 0.001, "{aliased}");
    assert!(aliased_plain > 0.05, "{aliased_plain}");
}

#[test]
fn middle_square_wave_is_free_of_aliases() {
    // Semitone 50 has a period of 54 clocks per waveform step.
    let fundamental = CLOCK_RATE as f64 / (54.0 * 32.0);
    let band_limited = without_mean(&band_limited_square(50));
    let plain = without_mean(&plain_square(54));
    assert!(share_outside_harmonics(&band_limited, fundamental).abs() < 0.001);
    assert!(share_outside_harmonics(&plain, fundamental) > 0.03);
}

#[test]
fn low_square_wave_keeps_its_energy() {
    // Semitone 12 has a period of 489 clocks per waveform step: 131 Hz.
    let band_limited = energy(&without_mean(&band_limited_square(12)));
    let plain = energy(&without_mean(&plain_square(489)));
    assert!((band_limited / plain - 1.0).abs() < 0.03, "{band_limited} {plain}");
}

#[test]
fn single_step_is_band_limited() {
    let mut buf = pyxel_engine::blip_buf::BlipBuf::new(256);
    buf.set_rates(CLOCK_RATE, SAMPLE_RATE);
    buf.add_delta(9000, 20000);
    buf.end_frame(20000);
    let mut out = [0i16; 215];
    assert_eq!(buf.read_samples(&mut out), 215);
    // The step falls 96.9 samples into the frame and comes out 8 samples later.
    let step = 9000.0 * SAMPLE_RATE as f64 / CLOCK_RATE as f64 + 8.0;
    for (i, &sample) in out.iter().enumerate() {
        let distance = i as f64 - step;
        if distance < -8.0 {
            assert_eq!(sample, 0);
        } else if distance > 8.0 {
            // Settled at the height of the step, which the filter lets fall slowly.
            let held = 20000.0 * (1.0 - 1.0 / 512.0f64).powf(distance);
            assert!((sample as f64 - held).abs() < 150.0, "{i} {sample} {held}");
        } else {
            // Ringing around the step stays within a tenth of its height.
            assert!(sample > -2000 && sample < 22000, "{i} {sample}");
        }
    }
}
