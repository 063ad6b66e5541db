//! The engine context: it owns every table that playback reads.

use vstd::prelude::*;
use crate::channel::{Channel, ChannelView, PlayState};
use crate::music::{Music, Tracks};
use crate::settings::{
    DEFAULT_TONES, NUM_CHANNELS, NUM_MUSICS, NUM_SOUNDS, NUM_TONES,
};
use crate::sound::{Sound, SoundView};
use crate::tone::Tone;

verus! {

/// The channels, and the tones, sounds and musics that they are played from.
pub struct Pyxel {
    pub channels: Vec<Channel>,
    pub tones: Vec<Tone>,
    pub sounds: Vec<Sound>,
    pub musics: Vec<Music>,
}

/// The abstract values of a run of channels.
pub open spec fn channel_views(channels: Seq<Channel>) -> Seq<ChannelView> {
    channels.map_values(|c: Channel| c@)
}

/// The abstract values of a table of sounds.
pub open spec fn table_views(sounds: Seq<Sound>) -> Seq<SoundView> {
    sounds.map_values(|s: Sound| s@)
}

/// The abstract values of a table of musics.
pub open spec fn music_views(musics: Seq<Music>) -> Seq<Tracks> {
    musics.map_values(|m: Music| m@)
}

/// The sounds that `sequence` names in `sounds`, in order.
pub open spec fn queue_of(sounds: Seq<SoundView>, sequence: Seq<u32>) -> Seq<SoundView> {
    Seq::new(sequence.len(), |i: int| sounds[sequence[i] as int])
}

/// Whether sound `index` is in `sounds` and a channel can play it: its steps
/// can be numbered in 32 bits.
pub open spec fn known(sounds: Seq<SoundView>, index: u32) -> bool {
    index < sounds.len() && sounds[index as int].steps() <= u32::MAX
}

/// Whether a channel can play `sequence`: every index in it names a sound
/// that it can play, and they can be numbered in 32 bits.
pub open spec fn playable(sounds: Seq<SoundView>, sequence: Seq<u32>) -> bool {
    &&& sequence.len() <= u32::MAX
    &&& forall|i: int| 0 <= i < sequence.len() ==> known(sounds, #[trigger] sequence[i])
}

/// Abstract state of a [`Pyxel`].
pub struct PyxelView {
    pub channels: Seq<ChannelView>,
    pub tones: Seq<Tone>,
    pub sounds: Seq<SoundView>,
    pub musics: Seq<Tracks>,
}

impl PyxelView {
    /// Whether every channel is in a state that a channel can be in, and the
    /// channels can be numbered in 32 bits.
    pub open spec fn wf(self) -> bool {
        &&& self.channels.len() <= u32::MAX
        &&& forall|i: int| 0 <= i < self.channels.len() ==> (#[trigger] self.channels[i]).wf()
    }

    /// The engine after `sequence` has been queued on channel `channel`. An
    /// empty sequence changes nothing, whatever the channel.
    pub open spec fn play(
        self,
        channel: int,
        sequence: Seq<u32>,
        start_tick: Option<u32>,
        should_loop: bool,
        should_resume: bool,
    ) -> PyxelView {
        if sequence.len() == 0 {
            self
        } else {
            self.queued(channel, sequence, start_tick, should_loop, should_resume)
        }
    }

    /// The engine after a sequence that is not empty has been queued on channel `channel`.
    pub open spec fn queued(
        self,
        channel: int,
        sequence: Seq<u32>,
        start_tick: Option<u32>,
        should_loop: bool,
        should_resume: bool,
    ) -> PyxelView {
        PyxelView {
            channels: self.channels.update(
                channel,
                self.channels[channel].play(
                    queue_of(self.sounds, sequence),
                    start_tick,
                    should_loop,
                    should_resume,
                ),
            ),
            ..self
        }
    }

    /// The engine after the first `n` of `tracks` have been queued, each on the
    /// channel of its index, without resuming.
    pub open spec fn play_tracks(
        self,
        tracks: Tracks,
        n: nat,
        start_tick: Option<u32>,
        should_loop: bool,
    ) -> PyxelView
        decreases n,
    {
        if n == 0 {
            self
        } else {
            self.play_tracks(tracks, (n - 1) as nat, start_tick, should_loop).play(
                n - 1,
                tracks[n - 1],
                start_tick,
                should_loop,
                false,
            )
        }
    }

    /// Number of sequences of `tracks` that have a channel to play on.
    pub open spec fn tracks_played(self, tracks: Tracks) -> nat {
        if tracks.len() <= self.channels.len() {
            tracks.len()
        } else {
            self.channels.len()
        }
    }

    /// Whether music `music` can be started: it is in the table, and each of
    /// its sequences that has a channel to play on can be played.
    pub open spec fn can_playm(self, music: int) -> bool {
        &&& 0 <= music < self.musics.len()
        &&& forall|i: int|
            0 <= i < self.tracks_played(self.musics[music]) ==> playable(
                self.sounds,
                #[trigger] self.musics[music][i],
            )
    }

    /// The engine after music `music` has been started.
    pub open spec fn playm(self, music: int, start_tick: Option<u32>, should_loop: bool)
        -> PyxelView {
        let tracks = self.musics[music];
        self.play_tracks(tracks, self.tracks_played(tracks), start_tick, should_loop)
    }

    /// The engine after channel `channel` has been stopped.
    pub open spec fn stop(self, channel: int) -> PyxelView {
        PyxelView { channels: self.channels.update(channel, self.channels[channel].idle()), ..self }
    }

    /// The engine after every channel has been stopped.
    pub open spec fn stop_all(self) -> PyxelView {
        PyxelView {
            channels: Seq::new(self.channels.len(), |i: int| self.channels[i].idle()),
            ..self
        }
    }

    /// Where channel `channel` stands, while it plays.
    pub open spec fn play_pos(self, channel: int) -> Option<(u32, u32)> {
        self.channels[channel].play_pos()
    }
}

impl View for Pyxel {
    type V = PyxelView;

    open spec fn view(&self) -> PyxelView {
        PyxelView {
            channels: channel_views(self.channels@),
            tones: self.tones@,
            sounds: table_views(self.sounds@),
            musics: music_views(self.musics@),
        }
    }
}

impl Pyxel {
    /// Whether the engine is in a state that its methods leave it in.
    pub open spec fn wf(&self) -> bool {
        self@.wf()
    }

    /// An engine with idle channels, the four built-in tones, and empty sounds and musics.
    pub fn new() -> (r: Pyxel)
        ensures
            r.wf(),
            r@.channels.len() == NUM_CHANNELS,
            r@.tones.len() == NUM_TONES,
            r@.sounds.len() == NUM_SOUNDS,
            r@.musics.len() == NUM_MUSICS,
            forall|i: int|
                0 <= i < NUM_CHANNELS ==> #[trigger] r@.channels[i] == ChannelView::fresh(),
            forall|i: int|
                0 <= i < NUM_TONES ==> #[trigger] r@.tones[i] == (Tone {
                    gain: DEFAULT_TONES[i].0,
                    noise: DEFAULT_TONES[i].1,
                    waveform: DEFAULT_TONES[i].2,
                }),
            forall|i: int| 0 <= i < NUM_SOUNDS ==> #[trigger] r@.sounds[i] == SoundView::empty(),
            forall|i: int| 0 <= i < NUM_MUSICS ==> (#[trigger] r@.musics[i]).len() == 0,
    {
        let mut channels: Vec<Channel> = Vec::new();
        while channels.len() < NUM_CHANNELS as usize
            invariant
                channels@.len() <= NUM_CHANNELS,
                forall|i: int|
                    0 <= i < channels@.len() ==> (#[trigger] channels@[i]).wf() && channels@[i]@
                        == ChannelView::fresh(),
            decreases NUM_CHANNELS - channels@.len(),
        {
            channels.push(Channel::new());
        }
        let mut tones: Vec<Tone> = Vec::new();
        while tones.len() < NUM_TONES as usize
            invariant
                tones@.len() <= NUM_TONES,
                forall|i: int|
                    0 <= i < tones@.len() ==> #[trigger] tones@[i] == (Tone {
                        gain: DEFAULT_TONES[i].0,
                        noise: DEFAULT_TONES[i].1,
                        waveform: DEFAULT_TONES[i].2,
                    }),
            decreases NUM_TONES - tones@.len(),
        {
            let (gain, noise, waveform) = DEFAULT_TONES[tones.len()];
            tones.push(Tone { gain, noise, waveform });
        }
        let mut sounds: Vec<Sound> = Vec::new();
        while sounds.len() < NUM_SOUNDS as usize
            invariant
                sounds@.len() <= NUM_SOUNDS,
                forall|i: int|
                    0 <= i < sounds@.len() ==> (#[trigger] sounds@[i])@ == SoundView::empty(),
            decreases NUM_SOUNDS - sounds@.len(),
        {
            sounds.push(Sound::new());
        }
        let mut musics: Vec<Music> = Vec::new();
        while musics.len() < NUM_MUSICS as usize
            invariant
                musics@.len() <= NUM_MUSICS,
                forall|i: int| 0 <= i < musics@.len() ==> (#[trigger] musics@[i])@.len() == 0,
            decreases NUM_MUSICS - musics@.len(),
        {
            musics.push(Music::new());
        }
        Pyxel { channels, tones, sounds, musics }
    }
}

/// A stopped channel reports no position.
pub proof fn stop_then_play_pos_is_none(pyxel: PyxelView, channel: int)
    requires
        0 <= channel < pyxel.channels.len(),
    ensures
        pyxel.stop(channel).play_pos(channel) == None::<(u32, u32)>,
        pyxel.stop(channel).channels[channel].state() == PlayState::Idle,
{
}

/// After every channel has been stopped, none reports a position.
pub proof fn stop_all_then_play_pos_is_none(pyxel: PyxelView, channel: int)
    requires
        0 <= channel < pyxel.channels.len(),
    ensures
        pyxel.stop_all().play_pos(channel) == None::<(u32, u32)>,
{
}

/// Queuing sequences on the first channels leaves the channels after them as they are.
pub proof fn lemma_play_tracks_frame(
    pyxel: PyxelView,
    tracks: Tracks,
    n: nat,
    start_tick: Option<u32>,
    should_loop: bool,
)
    requires
        n <= pyxel.channels.len(),
    ensures
        ({
            let after = pyxel.play_tracks(tracks, n, start_tick, should_loop);
            &&& after.channels.len() == pyxel.channels.len()
            &&& after.tones == pyxel.tones
            &&& after.sounds == pyxel.sounds
            &&& after.musics == pyxel.musics
            &&& forall|i: int|
                n <= i < pyxel.channels.len() ==> after.channels[i] == pyxel.channels[i]
            &&& forall|i: int|
                0 <= i < n ==> after.channels[i] == pyxel.channels[i].play(
                    queue_of(pyxel.sounds, tracks[i]),
                    start_tick,
                    should_loop,
                    false,
                )
        }),
    decreases n,
{
    if n > 0 {
        lemma_play_tracks_frame(pyxel, tracks, (n - 1) as nat, start_tick, should_loop);
    }
}

/// Starting a music with fewer sequences than there are channels leaves the
/// channels beyond its last sequence as they are: what they play, where they
/// stand and what their oscillators hold.
pub proof fn playm_leaves_other_channels(
    pyxel: PyxelView,
    music: int,
    start_tick: Option<u32>,
    should_loop: bool,
    channel: int,
)
    requires
        0 <= music < pyxel.musics.len(),
        pyxel.musics[music].len() <= channel < pyxel.channels.len(),
    ensures
        pyxel.playm(music, start_tick, should_loop).channels.len() == pyxel.channels.len(),
        pyxel.playm(music, start_tick, should_loop).channels[channel] == pyxel.channels[channel],
{
    let tracks = pyxel.musics[music];
    lemma_play_tracks_frame(pyxel, tracks, pyxel.tracks_played(tracks), start_tick, should_loop);
}

/// A channel whose sequence in a music is empty is left as it is, too.
pub proof fn playm_skips_empty_sequences(
    pyxel: PyxelView,
    music: int,
    start_tick: Option<u32>,
    should_loop: bool,
    channel: int,
)
    requires
        0 <= music < pyxel.musics.len(),
        0 <= channel < pyxel.channels.len(),
        channel < pyxel.musics[music].len(),
        pyxel.musics[music][channel].len() == 0,
    ensures
        pyxel.playm(music, start_tick, should_loop).channels[channel] == pyxel.channels[channel],
{
    let tracks = pyxel.musics[music];
    lemma_play_tracks_frame(pyxel, tracks, pyxel.tracks_played(tracks), start_tick, should_loop);
}

} // verus!
