//! Musics: one sequence of sound indices per channel.

use vstd::prelude::*;
use crate::audio::{fresh_buffer, render, renderable, Audio, SaveError};
use crate::channel::{Channel, ChannelView};
use crate::pyxel::{channel_views, known, playable, queue_of, table_views};
use crate::settings::{NUM_SAMPLES, SAMPLE_RATE, TICKS_PER_SECOND};
use crate::sound::{Sound, SoundView};
use crate::timeline::{lemma_ticks_nonnegative, ticks_before, total_ticks};
use crate::tone::Tone;
use crate::wav::{wav_image, MAX_SAMPLES};

verus! {

/// Sequences of sound indices, to be played together: the sequence at index
/// `i` is for channel `i`.
#[derive(Debug)]
pub struct Music {
    pub seqs: Vec<Vec<u32>>,
}

/// The sequences of a [`Music`], one per channel.
pub type Tracks = Seq<Seq<u32>>;

/// The abstract values of a run of sequences.
pub open spec fn track_views(seqs: Seq<Vec<u32>>) -> Tracks {
    seqs.map_values(|s: Vec<u32>| s@)
}

/// `tracks` followed by as many empty sequences as it lacks to reach `len`.
pub open spec fn padded(tracks: Tracks, len: nat) -> Tracks {
    if tracks.len() >= len {
        tracks
    } else {
        tracks + Seq::new((len - tracks.len()) as nat, |i: int| Seq::<u32>::empty())
    }
}

/// Ticks that the longest of the first `n` of `tracks` lasts when played once.
pub open spec fn longest_ticks(sounds: Seq<SoundView>, tracks: Tracks, n: nat) -> int
    decreases n,
{
    if n == 0 {
        0
    } else {
        let before = longest_ticks(sounds, tracks, (n - 1) as nat);
        let ticks = total_ticks(queue_of(sounds, tracks[n - 1]));
        if ticks > before {
            ticks
        } else {
            before
        }
    }
}

/// Number of the sequences of `tracks` that one of `channels` channels plays.
pub open spec fn tracks_heard(tracks: Tracks, channels: nat) -> nat {
    if tracks.len() <= channels {
        tracks.len()
    } else {
        channels
    }
}

/// Samples in a recording of `count` rounds of a music that lasts `ticks`
/// ticks: as many as the ticks of all rounds together last, rounded down.
pub open spec fn recording_len(ticks: int, count: int) -> int {
    ticks * count * SAMPLE_RATE / (TICKS_PER_SECOND as int)
}

/// Whether every tone that `sequence` needs is in a table of `tones` tones.
pub open spec fn voiced(sounds: Seq<SoundView>, sequence: Seq<u32>, tones: nat) -> bool {
    forall|j: int|
        0 <= j < sequence.len() ==> sounds[(#[trigger] sequence[j]) as int].tones_below(
            tones as int,
        )
}

/// Whether `tracks` can be recorded on `channels` channels: every sequence
/// that one of them plays names sounds that can be played and that name tones
/// of a table of `tones` tones.
pub open spec fn recordable(tracks: Tracks, channels: nat, sounds: Seq<SoundView>, tones: nat)
    -> bool {
    forall|i: int|
        0 <= i < tracks_heard(tracks, channels) ==> playable(sounds, #[trigger] tracks[i])
            && voiced(sounds, tracks[i], tones)
}

/// The sequence that channel `channel` plays: its own, or an empty one if there is none.
pub open spec fn track_of(tracks: Tracks, channel: int) -> Seq<u32> {
    if channel < tracks.len() {
        tracks[channel]
    } else {
        Seq::empty()
    }
}

/// A channel made ready for a recording: reset, and `queue` queued in a loop.
pub open spec fn armed(channel: ChannelView, queue: Seq<SoundView>) -> ChannelView {
    channel.reset().play(queue, None, true, false)
}

/// The channels made ready for a recording of `tracks`.
pub open spec fn armed_all(channels: Seq<ChannelView>, sounds: Seq<SoundView>, tracks: Tracks)
    -> Seq<ChannelView> {
    Seq::new(
        channels.len(),
        |i: int| armed(channels[i], queue_of(sounds, track_of(tracks, i))),
    )
}

/// The channels after a recording of `len` samples of `tracks`, and the samples.
pub open spec fn recording(
    channels: Seq<ChannelView>,
    sounds: Seq<SoundView>,
    tones: Seq<Tone>,
    tracks: Tracks,
    len: nat,
) -> (Seq<ChannelView>, Seq<i16>) {
    let (played, _, samples) = render(
        armed_all(channels, sounds, tracks),
        tones,
        fresh_buffer(NUM_SAMPLES as nat),
        Seq::new(len, |i: int| 0i16),
    );
    (Seq::new(played.len(), |i: int| played[i].idle()), samples)
}

impl View for Music {
    type V = Tracks;

    open spec fn view(&self) -> Tracks {
        track_views(self.seqs@)
    }
}

impl Clone for Music {
    fn clone(&self) -> (r: Music)
        ensures
            r@ == self@,
    {
        let mut seqs: Vec<Vec<u32>> = Vec::new();
        let mut i: usize = 0;
        while i < self.seqs.len()
            invariant
                i <= self.seqs@.len(),
                seqs@.len() == i,
                forall|j: int| 0 <= j < i ==> seqs@[j]@ == self.seqs@[j]@,
            decreases self.seqs@.len() - i,
        {
            seqs.push(self.seqs[i].clone());
            i += 1;
        }
        assert(track_views(seqs@) =~= track_views(self.seqs@));
        Music { seqs }
    }
}

impl Music {
    /// A music without sequences.
    pub fn new() -> (r: Music)
        ensures
            r@.len() == 0,
    {
        Music { seqs: Vec::new() }
    }

    /// Replaces the sequences by copies of `seqs`, and adds empty ones until
    /// there is one for each of the engine's `num_channels` channels.
    pub fn set(&mut self, seqs: &[Vec<u32>], num_channels: usize)
        ensures
            final(self)@ == padded(track_views(seqs@), num_channels as nat),
    {
        let mut copies: Vec<Vec<u32>> = Vec::new();
        let mut i: usize = 0;
        while i < seqs.len()
            invariant
                i <= seqs@.len(),
                copies@.len() == i,
                forall|j: int| 0 <= j < i ==> copies@[j]@ == seqs@[j]@,
            decreases seqs@.len() - i,
        {
            copies.push(seqs[i].clone());
            i += 1;
        }
        while copies.len() < num_channels
            invariant
                seqs@.len() <= copies@.len(),
                copies@.len() <= seqs@.len() || copies@.len() <= num_channels,
                forall|j: int| 0 <= j < seqs@.len() ==> copies@[j]@ == seqs@[j]@,
                forall|j: int| seqs@.len() <= j < copies@.len() ==> copies@[j]@.len() == 0,
            decreases num_channels - copies@.len(),
        {
            copies.push(Vec::new());
        }
        self.seqs = copies;
        assert(self@ =~~= padded(track_views(seqs@), num_channels as nat));
    }

    /// Whether the music can be recorded on `channels` channels with these
    /// tables: every sequence that a channel plays names sounds that can be
    /// played and that name tones of `tones`.
    pub fn recordable(&self, channels: usize, sounds: &Vec<Sound>, tones: &Vec<Tone>) -> (r: bool)
        ensures
            r == recordable(self@, channels as nat, table_views(sounds@), tones@.len()),
    {
        let ghost table = table_views(sounds@);
        let heard: usize = if self.seqs.len() <= channels {
            self.seqs.len()
        } else {
            channels
        };
        let mut i: usize = 0;
        while i < heard
            invariant
                i <= heard,
                heard <= self.seqs@.len(),
                heard == tracks_heard(self@, channels as nat),
                table == table_views(sounds@),
                forall|k: int|
                    0 <= k < i ==> playable(table, #[trigger] self@[k]) && voiced(
                        table,
                        self@[k],
                        tones@.len(),
                    ),
            decreases heard - i,
        {
            let track = &self.seqs[i];
            assert(self@[i as int] == track@);
            if track.len() > u32::MAX as usize {
                assert(!playable(table, self@[i as int]));
                return false;
            }
            let mut j: usize = 0;
            while j < track.len()
                invariant
                    j <= track@.len(),
                    track@.len() <= u32::MAX,
                    i < heard,
                    heard == tracks_heard(self@, channels as nat),
                    self@[i as int] == track@,
                    table == table_views(sounds@),
                    forall|k: int| 0 <= k < j ==> known(table, #[trigger] track@[k]),
                    forall|k: int|
                        0 <= k < j ==> table[(#[trigger] track@[k]) as int].tones_below(
                            tones@.len() as int,
                        ),
                decreases track@.len() - j,
            {
                let index: usize = track[j] as usize;
                if index >= sounds.len() {
                    assert(!playable(table, self@[i as int]));
                    return false;
                }
                assert(table[index as int] == sounds@[index as int]@);
                if sounds[index].notes.len() > u32::MAX as usize {
                    assert(!playable(table, self@[i as int]));
                    return false;
                }
                if !sounds[index].tones_below(tones.len()) {
                    assert(!voiced(table, self@[i as int], tones@.len())) by {
                        assert(!table[self@[i as int][j as int] as int].tones_below(
                            tones@.len() as int,
                        ));
                    }
                    return false;
                }
                j += 1;
            }
            i += 1;
        }
        true
    }

    /// Ticks that the sounds named by `track` last together.
    fn track_ticks(sounds: &Vec<Sound>, track: &Vec<u32>) -> (r: u128)
        requires
            playable(table_views(sounds@), track@),
        ensures
            r == total_ticks(queue_of(table_views(sounds@), track@)),
            r <= track@.len() * 0x1_0000_0000_0000_0000,
    {
        let ghost table = table_views(sounds@);
        let ghost queue = queue_of(table, track@);
        let mut sum: u128 = 0;
        let mut i: usize = 0;
        while i < track.len()
            invariant
                i <= track@.len(),
                track@.len() <= u32::MAX,
                table == table_views(sounds@),
                queue == queue_of(table, track@),
                playable(table, track@),
                sum == ticks_before(queue, i as nat),
                sum <= i * 0x1_0000_0000_0000_0000,
            decreases track@.len() - i,
        {
            let index: usize = track[i] as usize;
            assert(table[index as int] == sounds@[index as int]@);
            assert(queue[i as int] == sounds@[index as int]@);
            let ticks: u64 = sounds[index].ticks();
            sum = sum + ticks as u128;
            i += 1;
        }
        sum
    }

    /// Records `count` rounds of the music and returns the file that holds them,
    /// or `None` if the music takes no time. Each channel is reset, then plays
    /// its sequence in a loop from the start; afterwards every channel is idle.
    /// A round lasts as long as the longest sequence that a channel plays, and
    /// the recording has as many samples as the ticks of all rounds together
    /// last, rounded down.
    pub fn save(
        &self,
        channels: &mut Vec<Channel>,
        sounds: &Vec<Sound>,
        tones: &Vec<Tone>,
        count: u32,
    ) -> (r: Result<Option<Vec<u8>>, SaveError>)
        requires
            count > 0,
            forall|i: int| 0 <= i < old(channels)@.len() ==> (#[trigger] old(channels)@[i]).wf(),
            recordable(self@, old(channels)@.len(), table_views(sounds@), tones@.len()),
        ensures
            forall|i: int|
                0 <= i < final(channels)@.len() ==> (#[trigger] final(channels)@[i]).wf(),
            final(channels)@.len() == old(channels)@.len(),
            ({
                let table = table_views(sounds@);
                let before = channel_views(old(channels)@);
                let after = channel_views(final(channels)@);
                let ticks = longest_ticks(
                    table,
                    self@,
                    tracks_heard(self@, old(channels)@.len()),
                );
                let len = recording_len(ticks, count as int);
                if len > MAX_SAMPLES {
                    r == Err::<Option<Vec<u8>>, SaveError>(SaveError::TooLong) && after == before
                } else if len == 0 {
                    r == Ok::<Option<Vec<u8>>, SaveError>(None) && after == before
                } else {
                    let (played, samples) = recording(before, table, tones@, self@, len as nat);
                    &&& after == played
                    &&& r matches Ok(Some(bytes)) && bytes@ == wav_image(
                        1,
                        SAMPLE_RATE as int,
                        16,
                        samples,
                    )
                }
            }),
    {
        let ghost table = table_views(sounds@);
        let ghost before = channel_views(channels@);
        let num_channels: usize = channels.len();
        let heard: usize = if self.seqs.len() <= num_channels {
            self.seqs.len()
        } else {
            num_channels
        };
        let mut ticks: u128 = 0;
        let mut i: usize = 0;
        while i < heard
            invariant
                i <= heard,
                heard <= self.seqs@.len(),
                heard == tracks_heard(self@, num_channels as nat),
                table == table_views(sounds@),
                recordable(self@, num_channels as nat, table, tones@.len()),
                ticks == longest_ticks(table, self@, i as nat),
                ticks <= 0xffff_ffff * 0x1_0000_0000_0000_0000,
            decreases heard - i,
        {
            assert(self@[i as int] == self.seqs@[i as int]@);
            let t: u128 = Self::track_ticks(sounds, &self.seqs[i]);
            if t > ticks {
                ticks = t;
            }
            i += 1;
        }
        assert(0 <= ticks * count <= 0xffff_ffff * 0x1_0000_0000_0000_0000 * 0xffff_ffff)
            by (nonlinear_arith)
            requires
                0 <= ticks <= 0xffff_ffff * 0x1_0000_0000_0000_0000,
                0 <= count <= 0xffff_ffff,
        ;
        let all_ticks: u128 = ticks * (count as u128);
        if all_ticks > MAX_SAMPLES as u128 {
            return Err(SaveError::TooLong);
        }
        let wanted: u128 = all_ticks * (SAMPLE_RATE as u128) / (TICKS_PER_SECOND as u128);
        if wanted > MAX_SAMPLES as u128 {
            return Err(SaveError::TooLong);
        }
        if wanted == 0 {
            return Ok(None);
        }
        let len: usize = wanted as usize;
        let mut samples: Vec<i16> = vec![0i16; len];
        assert(samples@ =~= Seq::new(len as nat, |i: int| 0i16));
        let mut blip_buf = Audio::new_buffer(NUM_SAMPLES as usize);
        let mut i: usize = 0;
        while i < num_channels
            invariant
                i <= num_channels,
                num_channels == channels@.len(),
                before.len() == num_channels,
                table == table_views(sounds@),
                recordable(self@, num_channels as nat, table, tones@.len()),
                forall|k: int| 0 <= k < num_channels ==> (#[trigger] channels@[k]).wf(),
                forall|k: int|
                    0 <= k < i ==> (#[trigger] channels@[k])@ == armed(
                        before[k],
                        queue_of(table, track_of(self@, k)),
                    ),
                forall|k: int| i <= k < num_channels ==> (#[trigger] channels@[k])@ == before[k],
            decreases num_channels - i,
        {
            channels[i].reset();
            if i < self.seqs.len() {
                assert(self@[i as int] == self.seqs@[i as int]@);
                let queue = crate::audio::snapshot(sounds, self.seqs[i].as_slice());
                channels[i].play(queue, None, true, false);
            } else {
                assert(queue_of(table, track_of(self@, i as int)).len() == 0);
            }
            i += 1;
        }
        assert(channel_views(channels@) =~= armed_all(before, table, self@));
        assert(renderable(channel_views(channels@), tones@)) by {
            assert forall|k: int| 0 <= k < num_channels implies (#[trigger] channel_views(
                channels@,
            )[k]).tones_below(tones@.len() as int) by {
                let track = track_of(self@, k);
                let queue = queue_of(table, track);
                let view = channels@[k]@;
                assert(view == armed(before[k], queue));
                assert forall|j: int| 0 <= j < view.queue.len() implies (
                #[trigger] view.queue[j]).tones_below(tones@.len() as int) by {
                    assert(view.queue.len() > 0);
                    assert(view.queue == queue);
                    assert(queue[j] == table[track[j] as int]);
                }
            }
        }
        Audio::render_samples(channels, tones, &mut blip_buf, samples.as_mut_slice());
        let ghost played = channel_views(channels@);
        assert forall|k: int| 0 <= k < num_channels implies (#[trigger] channels@[k]).wf() by {
            assert(played[k] == channels@[k]@);
        }
        let saved = Audio::save_samples(&samples);
        let mut i: usize = 0;
        while i < num_channels
            invariant
                i <= num_channels,
                num_channels == channels@.len(),
                played.len() == num_channels,
                forall|k: int| 0 <= k < num_channels ==> (#[trigger] channels@[k]).wf(),
                forall|k: int| 0 <= k < i ==> (#[trigger] channels@[k])@ == played[k].idle(),
                forall|k: int| i <= k < num_channels ==> (#[trigger] channels@[k])@ == played[k],
            decreases num_channels - i,
        {
            channels[i].stop();
            i += 1;
        }
        assert(channel_views(channels@) =~= Seq::new(played.len(), |i: int| played[i].idle()));
        match saved {
            Ok(bytes) => Ok(Some(bytes)),
            Err(_) => vstd::pervasive::unreached(),
        }
    }
}

/// Whether `tracks` holds one sound only: the sequence at index `at` names
/// `sound` and nothing else, and every other sequence is empty.
pub open spec fn lone_sound(tracks: Tracks, at: int, sound: u32) -> bool {
    &&& 0 <= at < tracks.len()
    &&& tracks[at] == seq![sound]
    &&& forall|i: int| 0 <= i < tracks.len() && i != at ==> (#[trigger] tracks[i]).len() == 0
}

/// Of sequences that hold one sound only, the longest among the first `n`
/// is the one with the sound, once `n` reaches it.
proof fn lemma_lone_sound_longest(
    sounds: Seq<SoundView>,
    tracks: Tracks,
    at: int,
    sound: u32,
    n: nat,
)
    requires
        lone_sound(tracks, at, sound),
        sound < sounds.len(),
        n <= tracks.len(),
    ensures
        longest_ticks(sounds, tracks, n) == if at < n {
            sounds[sound as int].ticks()
        } else {
            0
        },
    decreases n,
{
    if n > 0 {
        lemma_lone_sound_longest(sounds, tracks, at, sound, (n - 1) as nat);
        let queue = queue_of(sounds, tracks[n - 1]);
        lemma_ticks_nonnegative(sounds[sound as int]);
        if n - 1 == at {
            assert(queue.len() == 1 && queue[0] == sounds[sound as int]);
            assert(ticks_before(queue, 1) == ticks_before(queue, 0) + queue[0].ticks());
        } else {
            assert(queue.len() == 0);
        }
    }
}

/// A music that holds one sound only, in a sequence that a channel plays,
/// lasts as long as that sound: its speed times its number of steps.
pub proof fn lemma_single_sound_ticks(
    sounds: Seq<SoundView>,
    tracks: Tracks,
    at: int,
    sound: u32,
    channels: nat,
)
    requires
        lone_sound(tracks, at, sound),
        at < channels,
        sound < sounds.len(),
    ensures
        longest_ticks(sounds, tracks, tracks_heard(tracks, channels))
            == sounds[sound as int].speed * sounds[sound as int].steps(),
        longest_ticks(sounds, tracks, tracks_heard(tracks, channels)) >= 0,
{
    let s = sounds[sound as int];
    lemma_lone_sound_longest(sounds, tracks, at, sound, tracks_heard(tracks, channels));
    lemma_ticks_nonnegative(s);
    assert(s.ticks() == s.speed * s.steps()) by (nonlinear_arith)
        requires
            s.ticks() == s.steps() * s.speed,
    ;
}

/// A recording has as many samples as were asked for.
pub proof fn lemma_recording_len(
    channels: Seq<ChannelView>,
    sounds: Seq<SoundView>,
    tones: Seq<Tone>,
    tracks: Tracks,
    len: nat,
)
    ensures
        recording(channels, sounds, tones, tracks, len).1.len() == len,
{
    crate::audio::lemma_render_len(
        armed_all(channels, sounds, tracks),
        tones,
        fresh_buffer(NUM_SAMPLES as nat),
        Seq::new(len, |i: int| 0i16),
    );
}

/// One round of a music that holds one sound only, of `N` steps at speed `S`,
/// in a sequence that a channel plays, is recorded as
/// `S * N * SAMPLE_RATE / TICKS_PER_SECOND` samples, rounded down, in a file
/// of 44 bytes and two bytes per sample that is marked as mono, 22050 Hz,
/// 16 bits. The other sequences are empty, as [`Music::set`] leaves those
/// that it adds.
pub proof fn single_sound_recording(
    channels: Seq<ChannelView>,
    sounds: Seq<SoundView>,
    tones: Seq<Tone>,
    tracks: Tracks,
    at: int,
    sound: u32,
)
    requires
        lone_sound(tracks, at, sound),
        at < channels.len(),
        sound < sounds.len(),
    ensures
        ({
            let s = sounds[sound as int];
            let ticks = longest_ticks(sounds, tracks, tracks_heard(tracks, channels.len()));
            let len = recording_len(ticks, 1);
            let samples = recording(channels, sounds, tones, tracks, len as nat).1;
            let image = wav_image(1, SAMPLE_RATE as int, 16, samples);
            &&& ticks == s.speed * s.steps()
            &&& len == s.speed * s.steps() * 22050 / 120
            &&& len >= 0
            &&& samples.len() == len
            &&& image.len() == 44 + 2 * len
            &&& image.subrange(20, 24) == seq![1u8, 0, 1, 0]
            &&& image.subrange(24, 28) == seq![0x22u8, 0x56, 0, 0]
            &&& image.subrange(34, 36) == seq![16u8, 0]
        }),
{
    lemma_single_sound_ticks(sounds, tracks, at, sound, channels.len());
    let ticks = longest_ticks(sounds, tracks, tracks_heard(tracks, channels.len()));
    let len = recording_len(ticks, 1);
    assert(len == ticks * 22050 / 120 && len >= 0);
    lemma_recording_len(channels, sounds, tones, tracks, len as nat);
    let samples = recording(channels, sounds, tones, tracks, len as nat).1;
    crate::wav::lemma_mono_header(samples);
}

/// What [`Music::set`] makes of one sequence that names one sound holds that
/// sound only, however many channels it is made for.
pub proof fn set_of_one_sound_holds_it_alone(sound: u32, channels: nat)
    ensures
        lone_sound(padded(seq![seq![sound]], channels), 0, sound),
{
    let tracks = padded(seq![seq![sound]], channels);
    assert(tracks[0] == seq![sound]);
}

/// A recording does not depend on what the channels played before, nor on
/// what their oscillators held: channels at the same gains record the same.
pub proof fn recording_is_reproducible(
    first: Seq<ChannelView>,
    second: Seq<ChannelView>,
    sounds: Seq<SoundView>,
    tones: Seq<Tone>,
    tracks: Tracks,
    len: nat,
)
    requires
        first.len() == second.len(),
        forall|i: int| 0 <= i < first.len() ==> first[i].gain == second[i].gain,
    ensures
        recording(first, sounds, tones, tracks, len) == recording(
            second,
            sounds,
            tones,
            tracks,
            len,
        ),
{
    assert(armed_all(first, sounds, tracks) =~= armed_all(second, sounds, tracks));
}

/// Whether every tone is flat that a sound plays a step with which is named
/// by one of the first `heard` of `tracks`.
pub open spec fn records_flat(tracks: Tracks, heard: nat, sounds: Seq<SoundView>, tones: Seq<Tone>)
    -> bool {
    forall|i: int, j: int, k: int|
        0 <= i < heard && 0 <= j < tracks[i].len() && 0 <= k ==> tones[(
        #[trigger] sounds[tracks[i][j] as int].tone_at(k)) as int].is_flat()
}

/// A recording of sounds that are all played with flat tones is silence:
/// every sample is zero.
pub proof fn recording_of_flat_tones_is_silent(
    channels: Seq<ChannelView>,
    sounds: Seq<SoundView>,
    tones: Seq<Tone>,
    tracks: Tracks,
    len: nat,
)
    requires
        forall|i: int| 0 <= i < channels.len() ==> (#[trigger] channels[i]).wf(),
        recordable(tracks, channels.len(), sounds, tones.len()),
        records_flat(tracks, tracks_heard(tracks, channels.len()), sounds, tones),
    ensures
        ({
            let samples = recording(channels, sounds, tones, tracks, len).1;
            samples.len() == len && forall|i: int| 0 <= i < len ==> samples[i] == 0
        }),
{
    let ready = armed_all(channels, sounds, tracks);
    assert forall|i: int| 0 <= i < ready.len() implies (#[trigger] ready[i]).muted(tones) by {
        let track = track_of(tracks, i);
        let queue = queue_of(sounds, track);
        let silent = channels[i].reset();
        crate::timeline::lemma_locate_on_step(queue, 0, true);
        assert(ready[i] == silent.play(queue, None, true, false));
        assert(ready[i].queue.len() > 0 ==> ready[i].queue == queue);
        assert forall|j: int, k: int| 0 <= j < ready[i].queue.len() && 0 <= k implies tones[(
        #[trigger] ready[i].queue[j].tone_at(k)) as int].is_flat() by {
            assert(queue[j] == sounds[tracks[i][j] as int]);
        }
        assert forall|j: int| 0 <= j < ready[i].queue.len() implies (
        #[trigger] ready[i].queue[j]).steps() <= u32::MAX by {
            assert(queue[j] == sounds[tracks[i][j] as int]);
        }
    }
    let blip = fresh_buffer(NUM_SAMPLES as nat);
    crate::audio::flat_tones_render_silence(ready, tones, blip, Seq::new(len, |i: int| 0i16));
}

/// A recording is rounded down once, for all rounds together: it has the
/// most whole samples that fit into the time that the ticks of all rounds last.
pub proof fn recording_rounds_down_once(ticks: int, count: int)
    requires
        0 <= ticks,
        0 <= count,
    ensures
        recording_len(ticks, count) * TICKS_PER_SECOND <= ticks * count * SAMPLE_RATE,
        ticks * count * SAMPLE_RATE < (recording_len(ticks, count) + 1) * TICKS_PER_SECOND,
        recording_len(ticks, 1) == ticks * SAMPLE_RATE / (TICKS_PER_SECOND as int),
{
    let all = ticks * count;
    assert(ticks * 1 == ticks) by (nonlinear_arith);
    assert(recording_len(ticks, count) == all * 22050 / 120);
}

} // verus!
