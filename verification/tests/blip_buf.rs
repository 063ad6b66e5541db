use pyxel_engine::audio::{Audio, FRAME_SAMPLES, STANDARD_FACTOR};
use pyxel_engine::blip_buf::{BlipBuf, BL_STEP, BUF_EXTRA, DELTA_UNIT, TIME_UNIT};
use pyxel_engine::settings::{CLOCKS_PER_TICK, CLOCK_RATE, SAMPLE_RATE};

#[test]
fn new_buffer_is_empty() {
    let mut buf = BlipBuf::new(64);
    assert_eq!(buf.size(), 64);
    assert_eq!(buf.samples_avail(), 0);
    assert_eq!(buf.factor(), TIME_UNIT >> 20);
    let mut out = [7i16; 8];
    assert_eq!(buf.read_samples(&mut out), 0);
    assert_eq!(out, [7i16; 8]);
}

#[test]
fn set_rates_rounds_the_factor_up() {
    let mut buf = BlipBuf::new(64);
    buf.set_rates(CLOCK_RATE, SAMPLE_RATE);
    assert_eq!(buf.factor(), 48_488_462_784_922);
    assert_eq!(buf.factor(), STANDARD_FACTOR);
    buf.set_rates(4, 2);
    assert_eq!(buf.factor(), TIME_UNIT / 2);
    buf.set_rates(3, 1);
    assert_eq!(buf.factor(), TIME_UNIT / 3 + 1);
    buf.set_rates(7, 7);
    assert_eq!(buf.factor(), TIME_UNIT);
}

#[test]
fn one_tick_ends_183_or_184_samples() {
    let mut buf = Audio::new_buffer(512);
    assert!(Audio::is_tuned(&buf));
    let mut seen = [0usize; 2];
    let mut out = [0i16; 512];
    for _ in 0..120 {
        buf.end_frame(CLOCKS_PER_TICK as u64);
        let count = buf.samples_avail();
        assert!(count == 183 || count == FRAME_SAMPLES);
        seen[count - 183] += 1;
        assert_eq!(buf.read_samples(&mut out), count);
    }
    assert!(seen[0] > 0 && seen[1] > 0);
    assert_eq!(seen[0] * 183 + seen[1] * 184, 22049);
}

#[test]
fn step_table_rows_complement_each_other() {
    for phase in 0..=32usize {
        let a: i32 = BL_STEP[phase].iter().map(|&x| x as i32).sum();
        let b: i32 = BL_STEP[32 - phase].iter().map(|&x| x as i32).sum();
        assert_eq!((a + b) as i64, DELTA_UNIT);
    }
    assert_eq!(BL_STEP[0][7], 21022);
    assert_eq!(BL_STEP[16], [32, -61, 115, 34, -60, 1006, -683, 16001]);
    for tap in 1..8 {
        assert_eq!(BL_STEP[32][tap], BL_STEP[0][tap - 1]);
    }
}

#[test]
fn deltas_come_out_band_limited() {
    let mut buf = BlipBuf::new(64);
    buf.set_rates(CLOCK_RATE, SAMPLE_RATE);
    buf.add_delta(0, 1000);
    buf.add_delta(500, -300);
    buf.add_delta(1234, -20000);
    buf.end_frame(3000);
    assert_eq!(buf.samples_avail(), 32);
    let mut out = [0i16; 20];
    assert_eq!(buf.read_samples(&mut out), 20);
    assert_eq!(
        out,
        [0, 1, -3, 8, -7, 28, -1, 179, 819, 997, 965, 992, 973, 817, 660, 736, 569, 712, 429, 266]
    );
    assert_eq!(buf.samples_avail(), 12);
    buf.add_delta(100, 5000);
    buf.end_frame(2000);
    assert_eq!(buf.samples_avail(), 33);
    let mut rest = [0i16; 100];
    assert_eq!(buf.read_samples(&mut rest), 33);
    assert_eq!(
        &rest[..33],
        &[
            -528, -12288, -19428, -18533, -19320, -19035, -19148, -19101, -19060, -19032, -18995,
            -18958, -18921, -18884, -18841, -18818, -18751, -18733, -18662, -18531, -18449,
            -15658, -13550, -13713, -13494, -13512, -13460, -13428, -13406, -13376, -13350,
            -13324, -13298
        ]
    );
    assert!(rest[33..].iter().all(|&s| s == 0));
    assert_eq!(buf.samples_avail(), 0);
}

#[test]
fn read_samples_fills_the_slice_it_is_given() {
    let mut buf = BlipBuf::new(64);
    buf.set_rates(CLOCK_RATE, SAMPLE_RATE);
    buf.add_delta(0, 1000);
    buf.end_frame(3000);
    let mut out = [5i16; 12];
    assert_eq!(buf.read_samples(&mut out[4..]), 8);
    assert_eq!(out, [5, 5, 5, 5, 0, 1, -3, 8, -7, 28, 0, 179]);
    assert_eq!(buf.samples_avail(), 24);
    assert_eq!(buf.read_samples(&mut out[12..]), 0);
    assert_eq!(buf.read_samples(&mut []), 0);
    assert_eq!(buf.samples_avail(), 24);
}

#[test]
fn a_step_settles_at_its_height() {
    let mut buf = BlipBuf::new(64);
    buf.set_rates(CLOCK_RATE, SAMPLE_RATE);
    buf.add_delta(777, 12345);
    buf.end_frame(4000);
    let mut out = [0i16; 64];
    let count = buf.read_samples(&mut out);
    assert_eq!(count, 43);
    let peak = out[..count].iter().copied().max().unwrap();
    assert!(peak >= 12000 && peak <= 13600);
    assert!(out[24] > 11900 && out[24] < 12345);
}

#[test]
fn the_filter_forgets_a_constant_level() {
    let mut buf = Audio::new_buffer(512);
    buf.add_delta(0, 10000);
    let mut out = [0i16; 512];
    let mut last = i16::MAX;
    for round in 0..40 {
        buf.end_frame(CLOCKS_PER_TICK as u64);
        let count = buf.read_samples(&mut out);
        if round > 0 {
            assert!(out[count - 1] <= last);
        }
        if round == 1 {
            assert!(out[count - 1] > 4000 && out[count - 1] < 6000);
        }
        last = out[count - 1];
    }
    assert_eq!(last, 0);
}

#[test]
fn clear_erases_what_is_pending() {
    let mut buf = BlipBuf::new(64);
    buf.set_rates(CLOCK_RATE, SAMPLE_RATE);
    buf.add_delta(0, 1000);
    buf.end_frame(3000);
    let mut out = [0i16; 4];
    buf.read_samples(&mut out);
    buf.clear();
    assert_eq!(buf.samples_avail(), 0);
    assert_eq!(buf.factor(), STANDARD_FACTOR);
    buf.end_frame(3000);
    let mut all = [9i16; 64];
    let count = buf.read_samples(&mut all);
    assert_eq!(count, 32);
    assert!(all[..count].iter().all(|&s| s == 0));
}

#[test]
fn zero_delta_changes_nothing() {
    let mut with = BlipBuf::new(64);
    let mut without = BlipBuf::new(64);
    with.set_rates(CLOCK_RATE, SAMPLE_RATE);
    without.set_rates(CLOCK_RATE, SAMPLE_RATE);
    with.add_delta(10, 4000);
    without.add_delta(10, 4000);
    with.add_delta(900, 0);
    with.end_frame(3000);
    without.end_frame(3000);
    let mut a = [0i16; 40];
    let mut b = [0i16; 40];
    assert_eq!(with.read_samples(&mut a), without.read_samples(&mut b));
    assert_eq!(a, b);
}

#[test]
fn buffer_holds_extra_entries_for_late_deltas() {
    assert_eq!(BUF_EXTRA, 18);
    let mut buf = BlipBuf::new(32);
    buf.set_rates(CLOCK_RATE, SAMPLE_RATE);
    buf.add_delta(3100, 500);
    buf.end_frame(2900);
    assert_eq!(buf.samples_avail(), 31);
    let mut out = [0i16; 32];
    assert_eq!(buf.read_samples(&mut out), 31);
    buf.end_frame(2000);
    let count = buf.read_samples(&mut out);
    assert!(out[..count].iter().any(|&s| s > 400));
}

#[test]
fn step_table_sums_never_overshoot() {
    for phase in 0..=32usize {
        let mut sum = 0i32;
        for tap in 0..8 {
            sum += BL_STEP[phase][tap] as i32;
            assert!(sum >= -256 && sum <= 26895);
        }
    }
}
