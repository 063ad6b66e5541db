use pyxel_engine::audio::Audio;
use pyxel_engine::channel::PlayState;
use pyxel_engine::pyxel::Pyxel;
use pyxel_engine::settings::{
    DEFAULT_TONES, NUM_CHANNELS, NUM_MUSICS, NUM_SOUNDS, NUM_TONES, TONE_NOISE, TONE_PULSE,
    TONE_SQUARE, TONE_TRIANGLE,
};
use pyxel_engine::tone::Noise;

fn engine() -> Pyxel {
    let mut pyxel = Pyxel::new();
    pyxel.sounds[0].set(&[0, 12, 24], &[TONE_SQUARE], &[7], &[0], 5);
    pyxel.sounds[1].set(&[33, 45], &[TONE_TRIANGLE], &[5], &[0], 3);
    pyxel.sounds[2].set(&[7], &[TONE_PULSE], &[6], &[0], 4);
    pyxel
}

fn advance(pyxel: &mut Pyxel, ticks: u32) {
    let mut blip_buf = Audio::new_buffer(512);
    let mut scratch = [0i16; 184];
    for _ in 0..ticks {
        for channel in pyxel.channels.iter_mut() {
            channel.update(&pyxel.tones, &mut blip_buf);
        }
        blip_buf.end_frame(17066);
        blip_buf.read_samples(&mut scratch);
    }
}

#[test]
fn new_engine_has_the_standard_tables() {
    let pyxel = Pyxel::new();
    assert_eq!(pyxel.channels.len(), NUM_CHANNELS as usize);
    assert_eq!(pyxel.tones.len(), NUM_TONES as usize);
    assert_eq!(pyxel.sounds.len(), NUM_SOUNDS as usize);
    assert_eq!(pyxel.musics.len(), NUM_MUSICS as usize);
    for i in 0..NUM_CHANNELS {
        assert_eq!(pyxel.play_pos(i), None);
        assert_eq!(pyxel.channels[i as usize].state(), PlayState::Idle);
    }
    assert_eq!(pyxel.tones[TONE_TRIANGLE as usize].gain, 1000);
    assert_eq!(pyxel.tones[TONE_SQUARE as usize].gain, 300);
    assert_eq!(pyxel.tones[TONE_PULSE as usize].waveform, DEFAULT_TONES[2].2);
    assert_eq!(pyxel.tones[TONE_NOISE as usize].noise, Noise::LongPeriod);
    assert_eq!(pyxel.tones[TONE_NOISE as usize].gain, 600);
    assert!(pyxel.sounds.iter().all(|s| s.notes.is_empty()));
    assert!(pyxel.musics.iter().all(|m| m.seqs.is_empty()));
}

#[test]
fn stop_then_play_pos_is_none_on_every_channel() {
    for channel in 0..NUM_CHANNELS {
        let mut pyxel = engine();
        pyxel.play(channel, &[0, 1], None, true, false);
        advance(&mut pyxel, 7);
        assert_eq!(pyxel.play_pos(channel), Some((0, 1)));
        pyxel.stop(channel);
        assert_eq!(pyxel.play_pos(channel), None);
        let mut idle = engine();
        idle.stop(channel);
        assert_eq!(idle.play_pos(channel), None);
    }
}

#[test]
fn stop0_stops_every_channel() {
    let mut pyxel = engine();
    for channel in 0..NUM_CHANNELS {
        pyxel.play(channel, &[0, 1], Some(channel), true, false);
    }
    pyxel.stop0();
    for channel in 0..NUM_CHANNELS {
        assert_eq!(pyxel.play_pos(channel), None);
    }
}

#[test]
fn play_queues_the_named_sounds() {
    let mut pyxel = engine();
    assert!(pyxel.can_play(&[0, 1, 2]));
    pyxel.play(1, &[1, 0], None, false, false);
    assert_eq!(pyxel.play_pos(1), Some((0, 0)));
    assert_eq!(pyxel.play_pos(0), None);
    advance(&mut pyxel, 6);
    assert_eq!(pyxel.play_pos(1), Some((1, 0)));
    advance(&mut pyxel, 14);
    assert_eq!(pyxel.play_pos(1), Some((1, 2)));
    advance(&mut pyxel, 1);
    assert_eq!(pyxel.play_pos(1), None);
}

#[test]
fn play_with_an_empty_sequence_needs_no_channel() {
    let mut pyxel = engine();
    pyxel.play(1, &[1], None, true, false);
    pyxel.play(NUM_CHANNELS, &[], None, true, false);
    pyxel.play(u32::MAX, &[], Some(3), false, true);
    assert_eq!(pyxel.channels.len(), NUM_CHANNELS as usize);
    assert_eq!(pyxel.play_pos(1), Some((0, 0)));
    assert_eq!(pyxel.play_pos(0), None);
}

#[test]
fn play_with_an_empty_sequence_is_a_no_op() {
    let mut pyxel = engine();
    pyxel.play(2, &[], None, true, false);
    assert_eq!(pyxel.play_pos(2), None);
    pyxel.play(2, &[0], None, false, false);
    advance(&mut pyxel, 6);
    pyxel.play(2, &[], None, true, false);
    assert_eq!(pyxel.play_pos(2), Some((0, 1)));
    assert_eq!(pyxel.channels[2].state(), PlayState::Playing);
}

#[test]
fn play_takes_a_snapshot_of_the_sounds() {
    let mut pyxel = engine();
    pyxel.play(0, &[0], None, false, false);
    pyxel.sounds[0].set(&[1], &[0], &[7], &[0], 1);
    advance(&mut pyxel, 14);
    assert_eq!(pyxel.play_pos(0), Some((0, 2)));
    pyxel.play(0, &[0], None, false, false);
    advance(&mut pyxel, 1);
    assert_eq!(pyxel.play_pos(0), None);
}

#[test]
fn play_resumes_or_restarts() {
    let mut pyxel = engine();
    pyxel.play(0, &[0, 1], None, false, false);
    advance(&mut pyxel, 12);
    assert_eq!(pyxel.play_pos(0), Some((0, 2)));
    pyxel.play(0, &[0, 1], Some(1), false, true);
    assert_eq!(pyxel.play_pos(0), Some((0, 2)));
    advance(&mut pyxel, 3);
    assert_eq!(pyxel.play_pos(0), Some((1, 0)));
    pyxel.play(0, &[0, 1], Some(6), false, false);
    assert_eq!(pyxel.play_pos(0), Some((0, 1)));
    pyxel.play(0, &[0, 1], None, false, false);
    assert_eq!(pyxel.play_pos(0), Some((0, 0)));
}

#[test]
fn play1_queues_one_sound() {
    let mut pyxel = engine();
    pyxel.play1(3, 1, Some(4), true, false);
    assert_eq!(pyxel.play_pos(3), Some((0, 1)));
    assert_eq!(pyxel.channels[3].state(), PlayState::PlayingLooped);
    advance(&mut pyxel, 2);
    assert_eq!(pyxel.play_pos(3), Some((0, 0)));
    pyxel.play1(3, 5, None, true, false);
    assert_eq!(pyxel.play_pos(3), None);
}

#[test]
fn can_play_rejects_unknown_sounds() {
    let pyxel = engine();
    assert!(pyxel.can_play(&[]));
    assert!(pyxel.can_play(&[63]));
    assert!(!pyxel.can_play(&[64]));
    assert!(!pyxel.can_play(&[0, 1, 1000, 2]));
}

#[test]
fn can_playm_looks_at_the_sequences_that_are_played() {
    let mut pyxel = engine();
    assert!(pyxel.can_playm(0));
    assert!(pyxel.can_playm(7));
    assert!(!pyxel.can_playm(8));
    pyxel.musics[0].seqs = vec![vec![0], vec![1, 64]];
    assert!(!pyxel.can_playm(0));
    pyxel.musics[0].seqs = vec![vec![0], vec![1], vec![], vec![2], vec![64]];
    assert!(pyxel.can_playm(0));
    pyxel.playm(0, None, false);
    assert_eq!(pyxel.play_pos(3), Some((0, 0)));
    pyxel.channels.push(pyxel_engine::channel::Channel::new());
    assert!(!pyxel.can_playm(0));
}

#[test]
fn playm_plays_each_sequence_on_its_channel() {
    let mut pyxel = engine();
    pyxel.musics[0].set(&[vec![0, 1], vec![1], vec![2, 2, 2]], 4);
    pyxel.playm(0, Some(5), true);
    assert_eq!(pyxel.play_pos(0), Some((0, 1)));
    assert_eq!(pyxel.play_pos(1), Some((0, 1)));
    assert_eq!(pyxel.play_pos(2), Some((1, 0)));
    assert_eq!(pyxel.play_pos(3), None);
    for channel in 0..3 {
        assert_eq!(pyxel.channels[channel].state(), PlayState::PlayingLooped);
    }
}

#[test]
fn playm_leaves_channels_without_a_sequence_as_they_are() {
    let mut pyxel = engine();
    pyxel.musics[1].seqs = vec![vec![0, 1], vec![1]];
    pyxel.play(2, &[2], None, true, false);
    pyxel.play(3, &[0], None, false, false);
    advance(&mut pyxel, 7);
    assert_eq!(pyxel.play_pos(2), Some((0, 0)));
    assert_eq!(pyxel.play_pos(3), Some((0, 1)));
    pyxel.playm(1, None, false);
    assert_eq!(pyxel.play_pos(0), Some((0, 0)));
    assert_eq!(pyxel.play_pos(1), Some((0, 0)));
    assert_eq!(pyxel.play_pos(2), Some((0, 0)));
    assert_eq!(pyxel.channels[2].state(), PlayState::PlayingLooped);
    assert_eq!(pyxel.play_pos(3), Some((0, 1)));
    assert_eq!(pyxel.channels[3].state(), PlayState::Playing);
    advance(&mut pyxel, 1);
    assert_eq!(pyxel.play_pos(2), Some((0, 0)));
    advance(&mut pyxel, 2);
    assert_eq!(pyxel.play_pos(3), Some((0, 2)));
}

#[test]
fn playm_leaves_channels_with_an_empty_sequence_as_they_are() {
    let mut pyxel = engine();
    pyxel.musics[2].set(&[vec![1]], 4);
    assert_eq!(pyxel.musics[2].seqs.len(), 4);
    pyxel.play(1, &[0], None, false, false);
    advance(&mut pyxel, 6);
    pyxel.playm(2, None, true);
    assert_eq!(pyxel.play_pos(0), Some((0, 0)));
    assert_eq!(pyxel.play_pos(1), Some((0, 1)));
    assert_eq!(pyxel.channels[1].state(), PlayState::Playing);
}

#[test]
fn playm_ignores_sequences_beyond_the_last_channel() {
    let mut pyxel = engine();
    pyxel.musics[3].set(&[vec![0], vec![1], vec![2], vec![0], vec![1], vec![2]], 4);
    assert_eq!(pyxel.musics[3].seqs.len(), 6);
    pyxel.playm(3, None, false);
    for channel in 0..NUM_CHANNELS {
        assert_eq!(pyxel.play_pos(channel), Some((0, 0)));
    }
    pyxel.channels.truncate(2);
    pyxel.stop0();
    pyxel.playm(3, Some(3), false);
    assert_eq!(pyxel.play_pos(0), Some((0, 0)));
    assert_eq!(pyxel.play_pos(1), Some((0, 1)));
}

#[test]
fn playm_of_an_empty_music_changes_nothing() {
    let mut pyxel = engine();
    pyxel.play(0, &[0], None, false, false);
    pyxel.playm(7, None, true);
    assert_eq!(pyxel.play_pos(0), Some((0, 0)));
    assert_eq!(pyxel.channels[0].state(), PlayState::Playing);
    for channel in 1..NUM_CHANNELS {
        assert_eq!(pyxel.play_pos(channel), None);
    }
}
