use pyxel_engine::audio::{Audio, SaveError};
use pyxel_engine::channel::PlayState;
use pyxel_engine::music::Music;
use pyxel_engine::pyxel::Pyxel;
use pyxel_engine::settings::{
    NUM_CHANNELS, SAMPLE_RATE, TICKS_PER_SECOND, TONE_NOISE, TONE_PULSE, TONE_SQUARE,
    TONE_TRIANGLE,
};
use pyxel_engine::tone::Noise;
use pyxel_engine::wav::{HEADER_LEN, MAX_SAMPLES};

fn scene() -> Pyxel {
    let mut pyxel = Pyxel::new();
    pyxel.sounds[0].set(&[0, 12, -1, 24], &[TONE_TRIANGLE], &[7, 5], &[0, 1, 0, 2], 7);
    pyxel.sounds[1].set(&[40, 38], &[TONE_NOISE], &[6], &[3], 9);
    pyxel.sounds[2].set(&[59, 58, 57], &[TONE_PULSE, TONE_SQUARE], &[3], &[4, 5, 1], 4);
    pyxel.sounds[3].set(&[33], &[TONE_SQUARE], &[7], &[0], 30);
    pyxel
}

fn header_field(bytes: &[u8], at: usize, len: usize) -> u32 {
    let mut value = 0u32;
    for i in 0..len {
        value |= (bytes[at + i] as u32) << (8 * i);
    }
    value
}

#[test]
fn render_fills_the_output_tick_by_tick() {
    let mut pyxel = scene();
    pyxel.play(0, &[3], None, true, false);
    let mut blip_buf = Audio::new_buffer(512);
    let mut samples = vec![0i16; 2048];
    assert!(Audio::can_render(&pyxel.channels, &pyxel.tones));
    Audio::render_samples(&mut pyxel.channels, &pyxel.tones, &mut blip_buf, &mut samples);
    assert_eq!(
        &samples[..60],
        &[
            0, 1, -3, 10, -8, 34, 0, 220, 1007, 1225, 1188, 1228, 1208, 1218, 1212, 1211, 1208,
            1206, 1204, 1201, 1199, 1197, 1194, 1192, 1188, 1189, 1180, 1181, 1173, 1143, 1143,
            488, -53, -12, -57, -48, -53, -55, -54, -55, -55, -54, -54, -54, -54, -54, -54, -54,
            -54, -52, -55, -48, -52, -45, -19, -15, 651, 1174, 1128, 1172
        ]
    );
    // 2048 samples take 12 ticks of 183 or 184 samples: what is left stays in the buffer.
    assert_eq!(pyxel.play_pos(0), Some((0, 0)));
    let left = blip_buf.samples_avail();
    assert!(left > 0 && left < 184);
    assert_eq!(2048 + left, 12 * 183 + 8);
}

#[test]
fn render_mixes_every_channel() {
    let mut pyxel = scene();
    pyxel.play(0, &[0], None, true, false);
    pyxel.play(1, &[1], None, true, false);
    pyxel.play(2, &[2], None, false, false);
    let mut blip_buf = Audio::new_buffer(512);
    let mut samples = vec![0i16; 6000];
    Audio::render_samples(&mut pyxel.channels, &pyxel.tones, &mut blip_buf, &mut samples);
    assert_eq!(
        &samples[1000..1020],
        &[
            806, 800, 799, 830, 1123, 1278, 1268, 1247, 1428, 1037, 230, 142, 124, 123, 117, 207,
            538, 593, 661, 826
        ]
    );
    assert_eq!(
        &samples[5980..6000],
        &[
            1691, 1684, 1692, 1677, 1757, 1921, 1938, 1933, 1935, 1928, 1927, 1922, 1919, 1915,
            1911, 1908, 1904, 1901, 1896, 1900
        ]
    );
    assert_eq!(samples.iter().map(|&s| s as i64).sum::<i64>(), 1129161);
    assert_eq!(samples.iter().map(|&s| (s as i64).abs()).sum::<i64>(), 6128061);
    assert_eq!(pyxel.channels[2].state(), PlayState::Idle);
    assert_eq!(pyxel.channels[0].state(), PlayState::PlayingLooped);
}

#[test]
fn channels_play_independently() {
    let mut alone = scene();
    let mut together = scene();
    alone.play(2, &[2, 0], None, true, false);
    together.play(2, &[2, 0], None, true, false);
    together.play(0, &[1], None, true, false);
    together.play(1, &[3], Some(5), false, false);
    together.play(3, &[0, 1], None, false, false);
    let mut buf_a = Audio::new_buffer(512);
    let mut buf_b = Audio::new_buffer(512);
    for len in [100usize, 500, 1000, 183] {
        let mut a = vec![0i16; len];
        let mut b = vec![0i16; len];
        Audio::render_samples(&mut alone.channels, &alone.tones, &mut buf_a, &mut a);
        Audio::render_samples(&mut together.channels, &together.tones, &mut buf_b, &mut b);
        assert_eq!(alone.play_pos(2), together.play_pos(2));
        assert_ne!(a, b);
    }
}

#[test]
fn render_in_pieces_equals_render_at_once() {
    let mut whole = scene();
    let mut pieces = scene();
    for pyxel in [&mut whole, &mut pieces] {
        pyxel.play(0, &[0, 2], None, true, false);
        pyxel.play(3, &[1], None, true, false);
    }
    let mut buf_a = Audio::new_buffer(512);
    let mut buf_b = Audio::new_buffer(512);
    let mut at_once = vec![0i16; 3000];
    Audio::render_samples(&mut whole.channels, &whole.tones, &mut buf_a, &mut at_once);
    let mut joined = Vec::new();
    for len in [512usize, 1, 0, 700, 183, 184, 1420] {
        let mut part = vec![0i16; len];
        Audio::render_samples(&mut pieces.channels, &pieces.tones, &mut buf_b, &mut part);
        joined.extend_from_slice(&part);
    }
    assert_eq!(joined.len(), 3000);
    assert_eq!(joined, at_once);
}

#[test]
fn render_of_idle_channels_is_silent() {
    let mut pyxel = scene();
    let mut blip_buf = Audio::new_buffer(512);
    let mut samples = vec![3i16; 1000];
    Audio::render_samples(&mut pyxel.channels, &pyxel.tones, &mut blip_buf, &mut samples);
    assert!(samples.iter().all(|&s| s == 0));
}

#[test]
fn flat_tone_renders_silence() {
    let mut pyxel = scene();
    pyxel.tones[TONE_TRIANGLE as usize].waveform = [0u8; 32];
    pyxel.tones[TONE_PULSE as usize].set(1000, Noise::Off, [0u8; 32]);
    pyxel.sounds[2].set(&[59, 58, 57], &[TONE_PULSE, TONE_TRIANGLE], &[3], &[4, 5, 1], 4);
    pyxel.play(0, &[0, 2], None, true, false);
    pyxel.play(1, &[2], Some(3), false, false);
    let mut blip_buf = Audio::new_buffer(512);
    let mut samples = vec![1i16; 5000];
    Audio::render_samples(&mut pyxel.channels, &pyxel.tones, &mut blip_buf, &mut samples);
    assert!(samples.iter().all(|&s| s == 0));
}

#[test]
fn noise_tone_with_a_flat_waveform_is_not_silent() {
    let mut pyxel = scene();
    assert_eq!(pyxel.tones[TONE_NOISE as usize].waveform, [0u8; 32]);
    pyxel.play(0, &[1], None, true, false);
    let mut blip_buf = Audio::new_buffer(512);
    let mut samples = vec![0i16; 2000];
    Audio::render_samples(&mut pyxel.channels, &pyxel.tones, &mut blip_buf, &mut samples);
    assert!(samples.iter().any(|&s| s > 100));
}

#[test]
fn can_render_needs_every_tone() {
    let mut pyxel = scene();
    pyxel.play(0, &[1], None, true, false);
    assert!(Audio::can_render(&pyxel.channels, &pyxel.tones));
    pyxel.tones.truncate(3);
    assert!(!Audio::can_render(&pyxel.channels, &pyxel.tones));
    pyxel.stop(0);
    assert!(Audio::can_render(&pyxel.channels, &pyxel.tones));
}

#[test]
fn is_tuned_needs_the_standard_rates_and_room() {
    assert!(Audio::is_tuned(&Audio::new_buffer(184)));
    let mut small = pyxel_engine::blip_buf::BlipBuf::new(183);
    small.set_rates(2_048_000, 22050);
    assert!(!Audio::is_tuned(&small));
    let mut other = pyxel_engine::blip_buf::BlipBuf::new(512);
    assert!(!Audio::is_tuned(&other));
    other.set_rates(2_048_000, 44100);
    assert!(!Audio::is_tuned(&other));
    other.set_rates(2_048_000, 22050);
    assert!(Audio::is_tuned(&other));
}

#[test]
fn save_samples_writes_a_mono_16_bit_file() {
    let samples: Vec<i16> = vec![0, 1, -1, 32767, -32768, 0x1234];
    let bytes = Audio::save_samples(&samples).unwrap();
    assert_eq!(bytes.len(), HEADER_LEN + 12);
    assert_eq!(
        &bytes[..HEADER_LEN],
        &[
            b'R', b'I', b'F', b'F', 48, 0, 0, 0, b'W', b'A', b'V', b'E', b'f', b'm', b't', b' ',
            16, 0, 0, 0, 1, 0, 1, 0, 0x22, 0x56, 0, 0, 0x44, 0xac, 0, 0, 2, 0, 16, 0, b'd', b'a',
            b't', b'a', 12, 0, 0, 0
        ]
    );
    assert_eq!(
        &bytes[HEADER_LEN..],
        &[0, 0, 1, 0, 0xff, 0xff, 0xff, 0x7f, 0, 0x80, 0x34, 0x12]
    );
    let empty = Audio::save_samples(&Vec::new()).unwrap();
    assert_eq!(empty.len(), HEADER_LEN);
    assert_eq!(header_field(&empty, 4, 4), 36);
    assert_eq!(header_field(&empty, 40, 4), 0);
}

#[test]
fn saved_file_reads_back() {
    let samples: Vec<i16> = (0..1000).map(|i| ((i * 37) % 2001 - 1000) as i16).collect();
    let bytes = Audio::save_samples(&samples).unwrap();
    let mut reader = hound::WavReader::new(std::io::Cursor::new(bytes)).unwrap();
    let spec = reader.spec();
    assert_eq!(spec.channels, 1);
    assert_eq!(spec.sample_rate, 22050);
    assert_eq!(spec.bits_per_sample, 16);
    assert_eq!(spec.sample_format, hound::SampleFormat::Int);
    let back: Vec<i16> = reader.samples::<i16>().map(|s| s.unwrap()).collect();
    assert_eq!(back, samples);
}

#[test]
fn save_samples_takes_any_number_of_samples() {
    for len in [0usize, 1, 2, 3, 183, 1001] {
        let samples: Vec<i16> = (0..len).map(|i| (i as i16).wrapping_mul(977)).collect();
        let bytes = Audio::save_samples(&samples).unwrap();
        assert_eq!(bytes.len(), HEADER_LEN + 2 * len);
        assert_eq!(header_field(&bytes, 40, 4) as usize, 2 * len);
        for (i, sample) in samples.iter().enumerate() {
            let at = HEADER_LEN + 2 * i;
            assert_eq!(i16::from_le_bytes([bytes[at], bytes[at + 1]]), *sample);
        }
    }
    assert_eq!(MAX_SAMPLES, (u32::MAX as usize - 36) / 2);
}

#[test]
fn music_save_records_speed_times_notes_ticks() {
    let mut pyxel = scene();
    pyxel.sounds[4].set(&[33, 35, 37], &[TONE_SQUARE], &[7], &[0], 10);
    let mut music = Music::new();
    music.set(&[vec![4]], 4);
    assert!(music.recordable(pyxel.channels.len(), &pyxel.sounds, &pyxel.tones));
    let bytes = music.save(&mut pyxel.channels, &pyxel.sounds, &pyxel.tones, 1).unwrap().unwrap();
    let count = 10 * 3 * SAMPLE_RATE / TICKS_PER_SECOND;
    assert_eq!(count, 5512);
    assert_eq!(bytes.len(), HEADER_LEN + 2 * count as usize);
    assert_eq!(&bytes[..4], b"RIFF");
    assert_eq!(header_field(&bytes, 4, 4), 2 * count + 36);
    assert_eq!(&bytes[8..16], b"WAVEfmt ");
    assert_eq!(header_field(&bytes, 16, 4), 16);
    assert_eq!(header_field(&bytes, 20, 2), 1);
    assert_eq!(header_field(&bytes, 22, 2), 1);
    assert_eq!(header_field(&bytes, 24, 4), 22050);
    assert_eq!(header_field(&bytes, 28, 4), 44100);
    assert_eq!(header_field(&bytes, 32, 2), 2);
    assert_eq!(header_field(&bytes, 34, 2), 16);
    assert_eq!(&bytes[36..40], b"data");
    assert_eq!(header_field(&bytes, 40, 4), 2 * count);
    for channel in 0..NUM_CHANNELS {
        assert_eq!(pyxel.play_pos(channel), None);
    }
    let data: Vec<i16> = bytes[HEADER_LEN..]
        .chunks(2)
        .map(|pair| i16::from_le_bytes([pair[0], pair[1]]))
        .collect();
    assert_eq!(&data[..12], &[0, 1, -3, 10, -8, 34, 0, 220, 1007, 1225, 1188, 1228]);
    assert!(data[4000..].iter().any(|&s| s > 500));
}

#[test]
fn music_save_repeats_the_music() {
    let mut pyxel = scene();
    let mut music = Music::new();
    music.set(&[vec![0], vec![1, 1]], 4);
    let once = music.save(&mut pyxel.channels, &pyxel.sounds, &pyxel.tones, 1).unwrap().unwrap();
    let thrice = music.save(&mut pyxel.channels, &pyxel.sounds, &pyxel.tones, 3).unwrap().unwrap();
    // The longest sequence lasts 2 * 2 * 9 = 36 ticks, the other 4 * 7 = 28.
    let per_round = (36 * SAMPLE_RATE / TICKS_PER_SECOND) as usize;
    assert_eq!(per_round, 6615);
    assert_eq!(once.len(), HEADER_LEN + 2 * per_round);
    assert_eq!(thrice.len(), HEADER_LEN + 6 * per_round);
    assert_eq!(&thrice[HEADER_LEN..HEADER_LEN + 2 * per_round], &once[HEADER_LEN..]);
}

#[test]
fn music_save_stops_what_was_playing() {
    let mut pyxel = scene();
    pyxel.play(3, &[3], None, true, false);
    let mut music = Music::new();
    music.set(&[vec![3]], 4);
    let with = music.save(&mut pyxel.channels, &pyxel.sounds, &pyxel.tones, 1).unwrap().unwrap();
    assert_eq!(pyxel.play_pos(3), None);
    let without = music.save(&mut pyxel.channels, &pyxel.sounds, &pyxel.tones, 1).unwrap().unwrap();
    assert_eq!(with, without);
}

#[test]
fn music_save_of_nothing_writes_nothing() {
    let mut pyxel = scene();
    pyxel.play(0, &[0], None, true, false);
    let empty = Music::new();
    assert_eq!(empty.save(&mut pyxel.channels, &pyxel.sounds, &pyxel.tones, 1), Ok(None));
    let mut blank = Music::new();
    blank.set(&[vec![], vec![10, 11]], 4);
    assert_eq!(blank.save(&mut pyxel.channels, &pyxel.sounds, &pyxel.tones, 5), Ok(None));
    assert_eq!(pyxel.play_pos(0), Some((0, 0)));
    assert_eq!(pyxel.channels[0].state(), PlayState::PlayingLooped);
}

#[test]
fn music_save_rejects_what_no_file_can_hold() {
    let mut pyxel = scene();
    pyxel.sounds[5].set(&[1; 100], &[TONE_SQUARE], &[7], &[0], u32::MAX);
    pyxel.sounds[6].set(&[1], &[TONE_SQUARE], &[7], &[0], 120);
    pyxel.play(1, &[0], None, false, false);
    let mut huge = Music::new();
    huge.set(&[vec![5, 5, 5]], 4);
    assert_eq!(
        huge.save(&mut pyxel.channels, &pyxel.sounds, &pyxel.tones, 1),
        Err(SaveError::TooLong)
    );
    let mut second = Music::new();
    second.set(&[vec![6]], 4);
    assert_eq!(
        second.save(&mut pyxel.channels, &pyxel.sounds, &pyxel.tones, 100_000),
        Err(SaveError::TooLong)
    );
    assert_eq!(pyxel.play_pos(1), Some((0, 0)));
}

#[test]
fn music_save_of_flat_tones_is_silent() {
    let mut pyxel = scene();
    pyxel.tones[TONE_SQUARE as usize].set(300, Noise::Off, [0u8; 32]);
    pyxel.channels[0].set_gain(1000);
    pyxel.play(0, &[3], None, true, false);
    let mut blip_buf = Audio::new_buffer(512);
    let mut warm = vec![0i16; 400];
    pyxel.tones[TONE_TRIANGLE as usize].gain = 1000;
    Audio::render_samples(&mut pyxel.channels, &pyxel.tones, &mut blip_buf, &mut warm);
    let mut music = Music::new();
    music.set(&[vec![3, 3], vec![3]], 4);
    let bytes = music.save(&mut pyxel.channels, &pyxel.sounds, &pyxel.tones, 2).unwrap().unwrap();
    assert_eq!(bytes.len(), HEADER_LEN + 2 * 2 * (60 * 22050 / 120));
    assert!(bytes[HEADER_LEN..].iter().all(|&b| b == 0));
}

#[test]
fn music_save_forgets_the_amplitude_held_before() {
    let mut pyxel = scene();
    pyxel.tones[TONE_SQUARE as usize].set(300, Noise::Off, [15u8; 32]);
    pyxel.play(0, &[3], None, true, false);
    let mut blip_buf = Audio::new_buffer(512);
    let mut warm = vec![0i16; 400];
    Audio::render_samples(&mut pyxel.channels, &pyxel.tones, &mut blip_buf, &mut warm);
    assert!(warm[300] > 500);
    pyxel.tones[TONE_SQUARE as usize].set(300, Noise::Off, [0u8; 32]);
    let mut music = Music::new();
    music.set(&[vec![3]], 4);
    let bytes = music.save(&mut pyxel.channels, &pyxel.sounds, &pyxel.tones, 1).unwrap().unwrap();
    assert!(bytes[HEADER_LEN..].iter().all(|&b| b == 0));
}

#[test]
fn recordable_needs_known_sounds_and_tones() {
    let mut pyxel = scene();
    let mut music = Music::new();
    music.set(&[vec![0, 1], vec![2]], 4);
    assert!(music.recordable(4, &pyxel.sounds, &pyxel.tones));
    music.set(&[vec![0, 64]], 4);
    assert!(!music.recordable(4, &pyxel.sounds, &pyxel.tones));
    assert!(music.recordable(0, &pyxel.sounds, &pyxel.tones));
    music.set(&[vec![0, 1], vec![2]], 4);
    pyxel.tones.truncate(3);
    assert!(!music.recordable(4, &pyxel.sounds, &pyxel.tones));
    music.set(&[vec![0], vec![2]], 4);
    assert!(music.recordable(4, &pyxel.sounds, &pyxel.tones));
    assert!(Music::new().recordable(4, &pyxel.sounds, &pyxel.tones));
    // A sequence that no channel plays may name anything.
    music.seqs = vec![vec![0], vec![2], vec![1000]];
    assert!(!music.recordable(3, &pyxel.sounds, &pyxel.tones));
    assert!(music.recordable(2, &pyxel.sounds, &pyxel.tones));
    pyxel.channels.truncate(2);
    assert!(music.save(&mut pyxel.channels, &pyxel.sounds, &pyxel.tones, 1).is_ok());
}

#[test]
fn stopped_channel_falls_silent() {
    let mut pyxel = scene();
    pyxel.tones[TONE_SQUARE as usize].set(300, Noise::Off, [15u8; 32]);
    pyxel.play(0, &[3], None, true, false);
    let mut blip_buf = Audio::new_buffer(512);
    let mut samples = vec![0i16; 500];
    Audio::render_samples(&mut pyxel.channels, &pyxel.tones, &mut blip_buf, &mut samples);
    assert!(samples[400] > 400);
    pyxel.stop(0);
    let mut tail = vec![0i16; 8000];
    Audio::render_samples(&mut pyxel.channels, &pyxel.tones, &mut blip_buf, &mut tail);
    // The level falls back by as much as it rose; the filter then forgets the fall.
    assert!(tail[100] < -400);
    assert!(tail[7000..].iter().all(|&s| s == 0));
}

#[test]
fn reset_channel_plays_like_a_new_one() {
    let mut used = scene();
    let mut new = scene();
    used.play(0, &[1, 0], None, true, false);
    let mut blip_buf = Audio::new_buffer(512);
    let mut warm = vec![0i16; 3000];
    Audio::render_samples(&mut used.channels, &used.tones, &mut blip_buf, &mut warm);
    used.channels[0].reset();
    assert_eq!(used.play_pos(0), None);
    used.play(0, &[1], None, true, false);
    new.play(0, &[1], None, true, false);
    let mut buf_a = Audio::new_buffer(512);
    let mut buf_b = Audio::new_buffer(512);
    let mut a = vec![0i16; 4000];
    let mut b = vec![0i16; 4000];
    Audio::render_samples(&mut used.channels, &used.tones, &mut buf_a, &mut a);
    Audio::render_samples(&mut new.channels, &new.tones, &mut buf_b, &mut b);
    assert_eq!(a, b);
    assert!(a.iter().any(|&s| s != 0));
}

#[test]
fn idle_channels_render_what_the_buffer_holds() {
    let mut pyxel = scene();
    let mut rendered = Audio::new_buffer(512);
    let mut read = Audio::new_buffer(512);
    rendered.add_delta(9000, 20000);
    read.add_delta(9000, 20000);
    let mut out = vec![7i16; 500];
    Audio::render_samples(&mut pyxel.channels, &pyxel.tones, &mut rendered, &mut out);
    let mut plain = Vec::new();
    while plain.len() < 500 {
        read.end_frame(17066);
        let mut part = [0i16; 184];
        let count = read.read_samples(&mut part);
        plain.extend_from_slice(&part[..count]);
    }
    assert_eq!(&out[..], &plain[..500]);
}

#[test]
fn single_step_settles_at_its_height_and_falls_slowly() {
    for (time, delta) in [(0u64, 1i32), (9000, 20000), (16000, 30000), (5, 77), (12345, 31000)] {
        let mut pyxel = scene();
        let mut blip_buf = Audio::new_buffer(512);
        let first = ((time as u128 * blip_buf.factor() as u128 + (1u128 << 31)) >> 52) as usize;
        blip_buf.add_delta(time, delta);
        let mut out = vec![7i16; 530];
        Audio::render_samples(&mut pyxel.channels, &pyxel.tones, &mut blip_buf, &mut out);
        assert!(out[..=first].iter().all(|&s| s == 0));
        let settled = out[first + 16] as i64;
        let delta = delta as i64;
        assert!(32768 * settled <= 33888 * delta + 1120);
        assert!(32768 * (settled + 1) > 31648 * delta - 1120);
        for i in first + 16..out.len() - 1 {
            assert!(out[i + 1] >= 0 && out[i + 1] <= out[i]);
            assert!(512 * (out[i + 1] as i64 + 1) >= 511 * out[i] as i64);
        }
    }
}

#[test]
fn music_save_rounds_down_once_for_all_rounds() {
    let mut pyxel = scene();
    pyxel.sounds[4].set(&[33, 35, 37], &[TONE_SQUARE], &[7], &[0], 10);
    pyxel.sounds[5].set(&[33], &[TONE_SQUARE], &[7], &[0], 8);
    let mut half_second = Music::new();
    half_second.set(&[vec![4]], 4);
    // 30 ticks are 5512.5 samples; two rounds are 60 ticks, exactly half a second.
    let once = half_second.save(&mut pyxel.channels, &pyxel.sounds, &pyxel.tones, 1);
    let twice = half_second.save(&mut pyxel.channels, &pyxel.sounds, &pyxel.tones, 2);
    let thrice = half_second.save(&mut pyxel.channels, &pyxel.sounds, &pyxel.tones, 3);
    assert_eq!(once.unwrap().unwrap().len(), HEADER_LEN + 2 * 5512);
    assert_eq!(twice.unwrap().unwrap().len(), HEADER_LEN + 2 * 11025);
    assert_eq!(thrice.unwrap().unwrap().len(), HEADER_LEN + 2 * 16537);
    let mut short = Music::new();
    short.set(&[vec![5]], 4);
    let three = short.save(&mut pyxel.channels, &pyxel.sounds, &pyxel.tones, 3);
    assert_eq!(three.unwrap().unwrap().len(), HEADER_LEN + 2 * 4410);
    // A single tick is recorded, though it is shorter than a frame of the buffer.
    pyxel.sounds[6].set(&[33], &[TONE_SQUARE], &[7], &[0], 1);
    let mut tick = Music::new();
    tick.set(&[vec![6]], 4);
    let one = tick.save(&mut pyxel.channels, &pyxel.sounds, &pyxel.tones, 1);
    assert_eq!(one.unwrap().unwrap().len(), HEADER_LEN + 2 * 183);
}

#[test]
fn single_step_keeps_its_energy() {
    for (time, delta, n) in [(9000u64, 20000i64, 100usize), (0, 3000, 512), (16000, 31000, 1)] {
        let mut pyxel = scene();
        let mut blip_buf = Audio::new_buffer(1024);
        let first = ((time as u128 * blip_buf.factor() as u128 + (1u128 << 31)) >> 52) as usize;
        blip_buf.add_delta(time, delta as i32);
        let mut out = vec![0i16; 800];
        Audio::render_samples(&mut pyxel.channels, &pyxel.tones, &mut blip_buf, &mut out);
        let settled = first + 16;
        let energy: i64 = out[settled..settled + n].iter().map(|&s| s as i64 * s as i64).sum();
        let top = out[settled] as i64;
        let last = out[settled + n - 1] as i64;
        assert!(n as i64 * last * last <= energy && energy <= n as i64 * top * top);
        assert!(32768 * top <= 33888 * delta + 1120);
        assert!(32768 * 512 * (last + 1) > (31648 * delta - 1120) * (513 - n as i64));
        // Within a tenth of the energy of a hard step while the window is short.
        if n <= 16 {
            let hard = n as i64 * delta * delta;
            assert!((energy - hard).abs() * 10 < hard);
        }
    }
}
