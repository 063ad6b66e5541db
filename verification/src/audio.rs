//! The audio engine: the playback commands, and the loop that renders every
//! channel into one stream of samples.

use vstd::prelude::*;
use crate::blip_buf::{integrator_at, sample_at, BlipBuf, BlipState, TIME_UNIT};
use crate::channel::{sound_views, Channel, ChannelView};
use crate::pyxel::{channel_views, known, playable, queue_of, table_views, Pyxel};
use crate::settings::{CLOCKS_PER_TICK, CLOCK_RATE, SAMPLE_RATE};
use crate::sound::Sound;
use crate::tone::Tone;
use crate::wav::{encode_wav, wav_image, MAX_SAMPLES};

verus! {

/// Conversion factor of a buffer between the clock rate and the sample rate.
pub const STANDARD_FACTOR: u64 = 48_488_462_784_922;

/// Most samples that one tick can add to a buffer.
pub const FRAME_SAMPLES: usize = 184;

/// Why a recording could not be produced.
#[derive(Clone, Copy, Debug, PartialEq, Eq, Structural)]
pub enum SaveError {
    /// There are more samples than a file can hold.
    TooLong,
}

/// The audio engine.
#[derive(Debug)]
pub struct Audio {}

/// The channels and the buffer after the first `n` channels have played one tick, in order.
pub open spec fn tick_channels(
    channels: Seq<ChannelView>,
    tones: Seq<Tone>,
    blip: BlipState,
    n: nat,
) -> (Seq<ChannelView>, BlipState)
    decreases n,
{
    if n == 0 {
        (channels, blip)
    } else {
        let (before, blip) = tick_channels(channels, tones, blip, (n - 1) as nat);
        let (channel, blip) = before[n - 1].tick(tones, blip);
        (before.update(n - 1, channel), blip)
    }
}

/// The channels and the buffer after one tick has been played and its frame ended.
pub open spec fn frame(channels: Seq<ChannelView>, tones: Seq<Tone>, blip: BlipState) -> (
    Seq<ChannelView>,
    BlipState,
) {
    let (channels, blip) = tick_channels(channels, tones, blip, channels.len());
    (channels, blip.end_frame(CLOCKS_PER_TICK as int))
}

/// Number of samples that move from `blip` into an output with `room` free places.
pub open spec fn drained(blip: BlipState, room: int) -> nat {
    if blip.avail <= room {
        blip.avail
    } else {
        room as nat
    }
}

/// `samples` after the finished samples of `blip` have been moved into it from index `filled` on.
pub open spec fn drain(blip: BlipState, samples: Seq<i16>, filled: nat) -> Seq<i16> {
    let count = drained(blip, samples.len() - filled);
    Seq::new(
        samples.len(),
        |i: int|
            if filled <= i < filled + count {
                sample_at(blip.deltas, blip.integrator as int, (i - filled) as nat) as i16
            } else {
                samples[i]
            },
    )
}

/// The channels, the buffer and the output once the output is full, given that
/// its first `filled` samples are in place: as long as samples are missing, every
/// channel plays one tick, the frame ends, and the buffer is drained into the output.
pub open spec fn render_from(
    channels: Seq<ChannelView>,
    tones: Seq<Tone>,
    blip: BlipState,
    samples: Seq<i16>,
    filled: nat,
) -> (Seq<ChannelView>, BlipState, Seq<i16>)
    decreases samples.len() - filled,
{
    if filled >= samples.len() {
        (channels, blip, samples)
    } else {
        let (channels, blip) = frame(channels, tones, blip);
        let count = drained(blip, samples.len() - filled);
        let samples = drain(blip, samples, filled);
        let blip = blip.consume(count);
        if count == 0 {
            (channels, blip, samples)
        } else {
            render_from(channels, tones, blip, samples, filled + count)
        }
    }
}

/// The channels, the buffer and the output after the output has been filled:
/// with what the buffer holds first, then tick by tick.
pub open spec fn render(
    channels: Seq<ChannelView>,
    tones: Seq<Tone>,
    blip: BlipState,
    samples: Seq<i16>,
) -> (Seq<ChannelView>, BlipState, Seq<i16>) {
    let count = drained(blip, samples.len() as int);
    render_from(channels, tones, blip.consume(count), drain(blip, samples, 0), count)
}

/// Whether a run of channels can be rendered with `tones`.
pub open spec fn renderable(channels: Seq<ChannelView>, tones: Seq<Tone>) -> bool {
    forall|i: int|
        0 <= i < channels.len() ==> (#[trigger] channels[i]).wf() && channels[i].tones_below(
            tones.len() as int,
        )
}

/// Whether `blip` can take part in rendering: it converts between the clock
/// rate and the sample rate, and it has room for the samples of one tick.
pub open spec fn tuned(blip: BlipState) -> bool {
    &&& blip.wf()
    &&& blip.factor == STANDARD_FACTOR
    &&& blip.size() >= FRAME_SAMPLES
}

/// A buffer for `size` samples that has been made and set to the standard rates:
/// nothing is pending, and the first frame starts where a new buffer puts it.
pub open spec fn fresh_buffer(size: nat) -> BlipState {
    BlipState {
        factor: STANDARD_FACTOR,
        offset: (TIME_UNIT / crate::blip_buf::MAX_RATIO / 2) as u64,
        avail: 0,
        integrator: 0,
        deltas: Seq::new(size + crate::blip_buf::BUF_EXTRA as nat, |i: int| 0i64),
    }
}

impl Audio {
    /// A buffer ready for rendering.
    pub fn new_buffer(size: usize) -> (r: BlipBuf)
        requires
            FRAME_SAMPLES <= size,
            size + crate::blip_buf::BUF_EXTRA <= usize::MAX,
        ensures
            tuned(r@),
            r@ == fresh_buffer(size as nat),
    {
        let mut blip_buf = BlipBuf::new(size);
        blip_buf.set_rates(CLOCK_RATE, SAMPLE_RATE);
        proof {
            lemma_standard_factor();
            assert(blip_buf@.deltas =~= fresh_buffer(size as nat).deltas);
        }
        blip_buf
    }

    /// Whether `blip_buf` can take part in rendering.
    pub fn is_tuned(blip_buf: &BlipBuf) -> (r: bool)
        requires
            blip_buf.wf(),
        ensures
            r == tuned(blip_buf@),
    {
        blip_buf.factor() == STANDARD_FACTOR && blip_buf.size() >= FRAME_SAMPLES
    }

    /// Whether every tone that a channel may play is in `tones`.
    pub fn can_render(channels: &Vec<Channel>, tones: &Vec<Tone>) -> (r: bool)
        requires
            forall|i: int| 0 <= i < channels@.len() ==> (#[trigger] channels@[i]).wf(),
        ensures
            r == renderable(channel_views(channels@), tones@),
    {
        let ghost views = channel_views(channels@);
        let mut i: usize = 0;
        while i < channels.len()
            invariant
                i <= channels@.len(),
                views == channel_views(channels@),
                forall|j: int| 0 <= j < channels@.len() ==> (#[trigger] channels@[j]).wf(),
                forall|j: int|
                    0 <= j < i ==> (#[trigger] views[j]).wf() && views[j].tones_below(
                        tones@.len() as int,
                    ),
            decreases channels@.len() - i,
        {
            assert(views[i as int] == channels@[i as int]@);
            if !channels[i].tones_below(tones.len()) {
                assert(!views[i as int].tones_below(tones@.len() as int));
                return false;
            }
            i += 1;
        }
        true
    }

    /// Lets every channel play one tick into `blip_buf`, in index order.
    fn update_channels(channels: &mut Vec<Channel>, tones: &Vec<Tone>, blip_buf: &mut BlipBuf)
        requires
            renderable(channel_views(old(channels)@), tones@),
            old(blip_buf).wf(),
            old(blip_buf)@.fits(CLOCKS_PER_TICK as int),
        ensures
            renderable(channel_views(final(channels)@), tones@),
            final(blip_buf).wf(),
            final(blip_buf)@.same_frame(old(blip_buf)@),
            final(channels)@.len() == old(channels)@.len(),
            (channel_views(final(channels)@), final(blip_buf)@) == tick_channels(
                channel_views(old(channels)@),
                tones@,
                old(blip_buf)@,
                old(channels)@.len(),
            ),
    {
        let ghost first = channel_views(channels@);
        let ghost blip0 = blip_buf@;
        let n: usize = channels.len();
        let mut i: usize = 0;
        while i < n
            invariant
                i <= n,
                n == channels@.len(),
                first.len() == n,
                renderable(channel_views(channels@), tones@),
                blip_buf.wf(),
                blip_buf@.same_frame(blip0),
                blip0.fits(CLOCKS_PER_TICK as int),
                (channel_views(channels@), blip_buf@) == tick_channels(
                    first,
                    tones@,
                    blip0,
                    i as nat,
                ),
            decreases n - i,
        {
            let ghost before = channel_views(channels@);
            assert(before[i as int] == channels@[i as int]@);
            assert(before[i as int].wf());
            channels[i].update(tones, blip_buf);
            assert(channel_views(channels@) =~= before.update(i as int, channels@[i as int]@));
            i += 1;
        }
    }

    /// Fills `samples` from `blip_buf`, letting the channels play as many ticks as it takes.
    pub fn render_samples(
        channels: &mut Vec<Channel>,
        tones: &Vec<Tone>,
        blip_buf: &mut BlipBuf,
        samples: &mut [i16],
    )
        requires
            renderable(channel_views(old(channels)@), tones@),
            tuned(old(blip_buf)@),
        ensures
            renderable(channel_views(final(channels)@), tones@),
            tuned(final(blip_buf)@),
            final(channels)@.len() == old(channels)@.len(),
            final(samples)@.len() == old(samples)@.len(),
            final(blip_buf)@.size() == old(blip_buf)@.size(),
            (channel_views(final(channels)@), final(blip_buf)@, final(samples)@) == render(
                channel_views(old(channels)@),
                tones@,
                old(blip_buf)@,
                old(samples)@,
            ),
    {
        let ghost goal = render(channel_views(channels@), tones@, blip_buf@, samples@);
        let ghost blip0 = blip_buf@;
        let ghost samples0 = samples@;
        let len: usize = samples.len();
        let mut filled: usize = blip_buf.read_samples(samples);
        assert(samples@ =~= drain(blip0, samples0, 0));
        while filled < len
            invariant
                filled <= len,
                len == samples@.len(),
                len == old(samples)@.len(),
                channels@.len() == old(channels)@.len(),
                renderable(channel_views(channels@), tones@),
                tuned(blip_buf@),
                blip_buf@.size() == old(blip_buf)@.size(),
                filled < len ==> blip_buf@.avail == 0,
                render_from(channel_views(channels@), tones@, blip_buf@, samples@, filled as nat)
                    == goal,
            decreases len - filled,
        {
            let ghost before = blip_buf@;
            proof {
                lemma_frame_samples(before);
            }
            Self::update_channels(channels, tones, blip_buf);
            blip_buf.end_frame(CLOCKS_PER_TICK as u64);
            let ghost ended = blip_buf@;
            let ghost samples1 = samples@;
            let (_, rest) = samples.split_at_mut(filled);
            let count: usize = blip_buf.read_samples(rest);
            assert(samples@ =~= drain(ended, samples1, filled as nat));
            filled = filled + count;
        }
    }

    /// The file that holds `samples`: mono, 16 bits, at the sample rate. Only
    /// more samples than a file can hold are refused.
    pub fn save_samples(samples: &Vec<i16>) -> (r: Result<Vec<u8>, SaveError>)
        ensures
            samples@.len() > MAX_SAMPLES ==> r == Err::<Vec<u8>, SaveError>(SaveError::TooLong),
            samples@.len() <= MAX_SAMPLES ==> (r matches Ok(bytes) && bytes@ == wav_image(
                1,
                SAMPLE_RATE as int,
                16,
                samples@,
            )),
    {
        if samples.len() > MAX_SAMPLES {
            return Err(SaveError::TooLong);
        }
        match encode_wav(1, SAMPLE_RATE, 16, samples) {
            Ok(bytes) => Ok(bytes),
            Err(_) => vstd::pervasive::unreached(),
        }
    }
}

/// Copies of the sounds that `sequence` names, in order.
pub(crate) fn snapshot(sounds: &Vec<Sound>, sequence: &[u32]) -> (r: Vec<Sound>)
    requires
        playable(table_views(sounds@), sequence@),
    ensures
        sound_views(r@) == queue_of(table_views(sounds@), sequence@),
        r@.len() == sequence@.len(),
        forall|i: int| 0 <= i < r@.len() ==> (#[trigger] r@[i])@.steps() <= u32::MAX,
{
    let ghost table = table_views(sounds@);
    let mut r: Vec<Sound> = Vec::new();
    let mut i: usize = 0;
    while i < sequence.len()
        invariant
            i <= sequence@.len(),
            r@.len() == i,
            table == table_views(sounds@),
            playable(table, sequence@),
            forall|j: int| 0 <= j < i ==> (#[trigger] r@[j])@ == table[sequence@[j] as int],
        decreases sequence@.len() - i,
    {
        let index: usize = sequence[i] as usize;
        assert(table[index as int] == sounds@[index as int]@);
        r.push(sounds[index].clone());
        i += 1;
    }
    assert(sound_views(r@) =~= queue_of(table, sequence@));
    r
}

impl Pyxel {
    /// Whether every index in `sequence` names a sound that a channel can play.
    pub fn can_play(&self, sequence: &[u32]) -> (r: bool)
        ensures
            r == playable(self@.sounds, sequence@),
    {
        if sequence.len() > u32::MAX as usize {
            return false;
        }
        let ghost table = table_views(self.sounds@);
        let mut i: usize = 0;
        while i < sequence.len()
            invariant
                i <= sequence@.len(),
                sequence@.len() <= u32::MAX,
                table == table_views(self.sounds@),
                forall|j: int| 0 <= j < i ==> known(table, #[trigger] sequence@[j]),
            decreases sequence@.len() - i,
        {
            let index: usize = sequence[i] as usize;
            if index >= self.sounds.len() {
                assert(!known(table, sequence@[i as int]));
                return false;
            }
            assert(table[index as int] == self.sounds@[index as int]@);
            if self.sounds[index].notes.len() > u32::MAX as usize {
                assert(!known(table, sequence@[i as int]));
                return false;
            }
            i += 1;
        }
        true
    }

    /// Whether music `music_index` can be started.
    pub fn can_playm(&self, music_index: u32) -> (r: bool)
        ensures
            r == self@.can_playm(music_index as int),
    {
        if music_index as usize >= self.musics.len() {
            return false;
        }
        let music = &self.musics[music_index as usize];
        assert(music@ == self@.musics[music_index as int]);
        let tracks: usize = if music.seqs.len() <= self.channels.len() {
            music.seqs.len()
        } else {
            self.channels.len()
        };
        let mut i: usize = 0;
        while i < tracks
            invariant
                i <= tracks,
                tracks <= music.seqs@.len(),
                tracks == self@.tracks_played(music@),
                music@ == self@.musics[music_index as int],
                forall|j: int| 0 <= j < i ==> playable(self@.sounds, #[trigger] music@[j]),
            decreases tracks - i,
        {
            assert(music@[i as int] == music.seqs@[i as int]@);
            if !self.can_play(music.seqs[i].as_slice()) {
                return false;
            }
            i += 1;
        }
        true
    }

    /// Queues the sounds that `sequence` names on channel `channel_index`, as
    /// [`Channel::play`] does. The channel plays copies: later changes to
    /// the sounds do not reach it. An empty sequence changes nothing, and the
    /// channel need not exist.
    pub fn play(
        &mut self,
        channel_index: u32,
        sequence: &[u32],
        start_tick: Option<u32>,
        should_loop: bool,
        should_resume: bool,
    )
        requires
            old(self).wf(),
            sequence@.len() > 0 ==> channel_index < old(self)@.channels.len(),
            playable(old(self)@.sounds, sequence@),
        ensures
            final(self).wf(),
            final(self)@ == old(self)@.play(
                channel_index as int,
                sequence@,
                start_tick,
                should_loop,
                should_resume,
            ),
    {
        let ghost before = channel_views(self.channels@);
        if sequence.len() == 0 {
            return ;
        }
        let sounds = snapshot(&self.sounds, sequence);
        let index: usize = channel_index as usize;
        assert(before[index as int] == self.channels@[index as int]@);
        assert(before[index as int].wf());
        self.channels[index].play(sounds, start_tick, should_loop, should_resume);
        assert(channel_views(self.channels@) =~= before.update(
            index as int,
            self.channels@[index as int]@,
        ));
        assert forall|i: int| 0 <= i < self@.channels.len() implies (
        #[trigger] self@.channels[i]).wf() by {
            if i != index {
                assert(self@.channels[i] == before[i]);
            }
        }
    }

    /// Queues sound `sound_index` alone on channel `channel_index`.
    pub fn play1(
        &mut self,
        channel_index: u32,
        sound_index: u32,
        start_tick: Option<u32>,
        should_loop: bool,
        should_resume: bool,
    )
        requires
            old(self).wf(),
            channel_index < old(self)@.channels.len(),
            playable(old(self)@.sounds, seq![sound_index]),
        ensures
            final(self).wf(),
            final(self)@ == old(self)@.play(
                channel_index as int,
                seq![sound_index],
                start_tick,
                should_loop,
                should_resume,
            ),
    {
        let sequence: [u32; 1] = [sound_index];
        assert(sequence@ =~= seq![sound_index]);
        self.play(channel_index, sequence.as_slice(), start_tick, should_loop, should_resume);
    }

    /// Starts music `music_index`: queues each of its sequences on the channel of
    /// the same index, from `start_tick`. Sequences beyond the last channel are
    /// ignored, and channels beyond the last sequence are left as they are.
    pub fn playm(&mut self, music_index: u32, start_tick: Option<u32>, should_loop: bool)
        requires
            old(self).wf(),
            old(self)@.can_playm(music_index as int),
        ensures
            final(self).wf(),
            final(self)@ == old(self)@.playm(music_index as int, start_tick, should_loop),
    {
        let music = self.musics[music_index as usize].clone();
        assert(music@ == self@.musics[music_index as int]);
        let tracks: usize = if music.seqs.len() <= self.channels.len() {
            music.seqs.len()
        } else {
            self.channels.len()
        };
        let mut i: usize = 0;
        while i < tracks
            invariant
                i <= tracks,
                tracks <= music.seqs@.len(),
                tracks <= old(self)@.channels.len(),
                tracks == old(self)@.tracks_played(music@),
                self.wf(),
                self@.channels.len() == old(self)@.channels.len(),
                self@.sounds == old(self)@.sounds,
                forall|j: int|
                    0 <= j < tracks ==> playable(old(self)@.sounds, #[trigger] music@[j]),
                self@ == old(self)@.play_tracks(music@, i as nat, start_tick, should_loop),
            decreases tracks - i,
        {
            assert(music@[i as int] == music.seqs@[i as int]@);
            self.play(i as u32, music.seqs[i].as_slice(), start_tick, should_loop, false);
            i += 1;
        }
    }

    /// Stops channel `channel_index` at once.
    pub fn stop(&mut self, channel_index: u32)
        requires
            old(self).wf(),
            channel_index < old(self)@.channels.len(),
        ensures
            final(self).wf(),
            final(self)@ == old(self)@.stop(channel_index as int),
    {
        let ghost before = channel_views(self.channels@);
        let index: usize = channel_index as usize;
        assert(before[index as int] == self.channels@[index as int]@);
        assert(before[index as int].wf());
        self.channels[index].stop();
        assert(channel_views(self.channels@) =~= before.update(
            index as int,
            self.channels@[index as int]@,
        ));
        assert forall|i: int| 0 <= i < self@.channels.len() implies (
        #[trigger] self@.channels[i]).wf() by {
            if i != index {
                assert(self@.channels[i] == before[i]);
            }
        }
    }

    /// Stops every channel at once.
    pub fn stop0(&mut self)
        requires
            old(self).wf(),
        ensures
            final(self).wf(),
            final(self)@ == old(self)@.stop_all(),
    {
        let ghost before = self@;
        let n: usize = self.channels.len();
        let mut i: usize = 0;
        while i < n
            invariant
                i <= n,
                n <= u32::MAX,
                n == self@.channels.len(),
                n == before.channels.len(),
                self.wf(),
                self@.tones == before.tones,
                self@.sounds == before.sounds,
                self@.musics == before.musics,
                forall|j: int|
                    0 <= j < i ==> #[trigger] self@.channels[j] == before.channels[j].idle(),
                forall|j: int| i <= j < n ==> #[trigger] self@.channels[j] == before.channels[j],
            decreases n - i,
        {
            self.stop(i as u32);
            i += 1;
        }
        assert(self@.channels =~= before.stop_all().channels);
    }

    /// Index of the sound that channel `channel_index` plays and of the step in
    /// it, or `None` if the channel is not playing.
    pub fn play_pos(&self, channel_index: u32) -> (r: Option<(u32, u32)>)
        requires
            self.wf(),
            channel_index < self@.channels.len(),
        ensures
            r == self@.play_pos(channel_index as int),
    {
        let index: usize = channel_index as usize;
        assert(self@.channels[index as int] == self.channels@[index as int]@);
        self.channels[index].play_pos()
    }
}

/// One tick adds 183 or 184 samples to a buffer at the standard rates.
pub proof fn lemma_frame_samples(blip: BlipState)
    requires
        blip.factor == STANDARD_FACTOR,
        blip.offset < TIME_UNIT,
    ensures
        183 <= blip.position(CLOCKS_PER_TICK as int) <= FRAME_SAMPLES,
{
}

/// The standard factor is the one that the clock rate and the sample rate give.
pub proof fn lemma_standard_factor()
    ensures
        crate::blip_buf::rate_factor(CLOCK_RATE as int, SAMPLE_RATE as int) == STANDARD_FACTOR,
{
}

/// A tick leaves every channel in a state that can be rendered, and the buffer
/// with its sample boundaries where they were.
pub proof fn lemma_tick_channels_wf(
    channels: Seq<ChannelView>,
    tones: Seq<Tone>,
    blip: BlipState,
    n: nat,
)
    requires
        renderable(channels, tones),
        n <= channels.len(),
    ensures
        renderable(tick_channels(channels, tones, blip, n).0, tones),
        tick_channels(channels, tones, blip, n).0.len() == channels.len(),
        tick_channels(channels, tones, blip, n).1.same_frame(blip),
        blip.wf() ==> tick_channels(channels, tones, blip, n).1.wf(),
    decreases n,
{
    if n > 0 {
        lemma_tick_channels_wf(channels, tones, blip, (n - 1) as nat);
        let (before, b) = tick_channels(channels, tones, blip, (n - 1) as nat);
        crate::channel::lemma_tick_wf(before[n - 1], tones, b);
        assert(before[n - 1].tones_below(tones.len() as int));
    }
}

/// Rendering never runs short of samples: every tick ends at least one, so
/// each place of the output is written, whatever it held before, and the
/// channels and the buffer are left fit for rendering again.
pub proof fn lemma_render_from_fills(
    channels: Seq<ChannelView>,
    tones: Seq<Tone>,
    blip: BlipState,
    samples: Seq<i16>,
    other: Seq<i16>,
    filled: nat,
)
    requires
        renderable(channels, tones),
        tuned(blip),
        filled < samples.len() ==> blip.avail == 0,
        samples.len() == other.len(),
        forall|i: int| 0 <= i < filled && i < samples.len() ==> samples[i] == other[i],
    ensures
        render_from(channels, tones, blip, samples, filled) == render_from(
            channels,
            tones,
            blip,
            other,
            filled,
        ),
        renderable(render_from(channels, tones, blip, samples, filled).0, tones),
        render_from(channels, tones, blip, samples, filled).0.len() == channels.len(),
        tuned(render_from(channels, tones, blip, samples, filled).1),
    decreases samples.len() - filled,
{
    if filled >= samples.len() {
        assert(samples =~= other);
    } else {
        lemma_tick_channels_wf(channels, tones, blip, channels.len());
        lemma_frame_samples(blip);
        let (played, ended) = frame(channels, tones, blip);
        let count = drained(ended, samples.len() - filled);
        assert(count > 0);
        lemma_render_from_fills(
            played,
            tones,
            ended.consume(count),
            drain(ended, samples, filled),
            drain(ended, other, filled),
            filled + count,
        );
    }
}

/// Rendering never runs short of samples: each place of the output is
/// written, whatever it held before, and the channels and the buffer are left
/// fit for rendering again.
pub proof fn rendering_fills_the_output(
    channels: Seq<ChannelView>,
    tones: Seq<Tone>,
    blip: BlipState,
    samples: Seq<i16>,
    other: Seq<i16>,
)
    requires
        renderable(channels, tones),
        tuned(blip),
        samples.len() == other.len(),
    ensures
        render(channels, tones, blip, samples) == render(channels, tones, blip, other),
        renderable(render(channels, tones, blip, samples).0, tones),
        render(channels, tones, blip, samples).0.len() == channels.len(),
        tuned(render(channels, tones, blip, samples).1),
{
    let count = drained(blip, samples.len() as int);
    lemma_render_from_fills(
        channels,
        tones,
        blip.consume(count),
        drain(blip, samples, 0),
        drain(blip, other, 0),
        count,
    );
}

/// The channels are independent of each other: what a tick makes of a channel
/// is what it would make of it alone, whatever the others have put into the buffer.
pub proof fn channels_tick_independently(
    channels: Seq<ChannelView>,
    tones: Seq<Tone>,
    blip: BlipState,
    n: nat,
    i: int,
    alone: BlipState,
)
    requires
        forall|k: int| 0 <= k < channels.len() ==> (#[trigger] channels[k]).wf(),
        n <= channels.len(),
        0 <= i < channels.len(),
    ensures
        tick_channels(channels, tones, blip, n).0.len() == channels.len(),
        tick_channels(channels, tones, blip, n).0[i] == if i < n {
            channels[i].tick(tones, alone).0
        } else {
            channels[i]
        },
    decreases n,
{
    if n > 0 {
        channels_tick_independently(channels, tones, blip, (n - 1) as nat, i, alone);
        channels_tick_independently(channels, tones, blip, (n - 1) as nat, n - 1, alone);
        let (before, b) = tick_channels(channels, tones, blip, (n - 1) as nat);
        crate::channel::lemma_tick_ignores_buffer(channels[n - 1], tones, b, alone);
    }
}

/// Whether every channel is muted.
pub open spec fn all_muted(channels: Seq<ChannelView>, tones: Seq<Tone>) -> bool {
    forall|i: int| 0 <= i < channels.len() ==> (#[trigger] channels[i]).muted(tones)
}

/// The output has the length it had, whatever is rendered into it.
pub proof fn lemma_render_from_len(
    channels: Seq<ChannelView>,
    tones: Seq<Tone>,
    blip: BlipState,
    samples: Seq<i16>,
    filled: nat,
)
    ensures
        render_from(channels, tones, blip, samples, filled).2.len() == samples.len(),
    decreases samples.len() - filled,
{
    if filled < samples.len() {
        let (channels, blip) = frame(channels, tones, blip);
        let count = drained(blip, samples.len() - filled);
        if count != 0 {
            lemma_render_from_len(
                channels,
                tones,
                blip.consume(count),
                drain(blip, samples, filled),
                filled + count,
            );
        }
    }
}

/// The output has the length it had, whatever is rendered into it.
pub proof fn lemma_render_len(
    channels: Seq<ChannelView>,
    tones: Seq<Tone>,
    blip: BlipState,
    samples: Seq<i16>,
)
    ensures
        render(channels, tones, blip, samples).2.len() == samples.len(),
{
    let count = drained(blip, samples.len() as int);
    lemma_render_from_len(channels, tones, blip.consume(count), drain(blip, samples, 0), count);
}

/// A tick of muted channels leaves the buffer as it was and the channels muted.
pub proof fn lemma_tick_channels_muted(
    channels: Seq<ChannelView>,
    tones: Seq<Tone>,
    blip: BlipState,
    n: nat,
)
    requires
        all_muted(channels, tones),
        n <= channels.len(),
    ensures
        all_muted(tick_channels(channels, tones, blip, n).0, tones),
        tick_channels(channels, tones, blip, n).0.len() == channels.len(),
        tick_channels(channels, tones, blip, n).1 == blip,
    decreases n,
{
    if n > 0 {
        lemma_tick_channels_muted(channels, tones, blip, (n - 1) as nat);
        let before = tick_channels(channels, tones, blip, (n - 1) as nat).0;
        crate::channel::lemma_tick_muted(before[n - 1], tones, blip);
    }
}

/// Muted channels render zeros into what is left of the output.
pub proof fn lemma_render_from_silent(
    channels: Seq<ChannelView>,
    tones: Seq<Tone>,
    blip: BlipState,
    samples: Seq<i16>,
    filled: nat,
)
    requires
        all_muted(channels, tones),
        tuned(blip),
        blip.is_silent(),
        filled < samples.len() ==> blip.avail == 0,
        forall|i: int| 0 <= i < filled && i < samples.len() ==> samples[i] == 0,
    ensures
        ({
            let out = render_from(channels, tones, blip, samples, filled).2;
            out.len() == samples.len() && forall|i: int| 0 <= i < out.len() ==> out[i] == 0
        }),
    decreases samples.len() - filled,
{
    if filled < samples.len() {
        lemma_tick_channels_muted(channels, tones, blip, channels.len());
        lemma_frame_samples(blip);
        let (played, ended) = frame(channels, tones, blip);
        let count = drained(ended, samples.len() - filled);
        let out = drain(ended, samples, filled);
        crate::blip_buf::lemma_silent_consume(ended, count);
        assert(count > 0);
        lemma_render_from_silent(played, tones, ended.consume(count), out, filled + count);
    }
}

/// Channels that hold amplitude zero and play with flat tones render silence:
/// every sample of the output is zero.
pub proof fn flat_tones_render_silence(
    channels: Seq<ChannelView>,
    tones: Seq<Tone>,
    blip: BlipState,
    samples: Seq<i16>,
)
    requires
        all_muted(channels, tones),
        tuned(blip),
        blip.is_silent(),
    ensures
        ({
            let out = render(channels, tones, blip, samples).2;
            out.len() == samples.len() && forall|i: int| 0 <= i < out.len() ==> out[i] == 0
        }),
{
    let count = drained(blip, samples.len() as int);
    crate::blip_buf::lemma_silent_consume(blip, count);
    lemma_render_from_silent(channels, tones, blip.consume(count), drain(blip, samples, 0), count);
}

/// The channels, the buffer and the output once the output is full, given that
/// its first `filled` samples are in place and the buffer may hold finished
/// samples: those are moved first, then rendering goes on tick by tick.
pub open spec fn render_on(
    channels: Seq<ChannelView>,
    tones: Seq<Tone>,
    blip: BlipState,
    samples: Seq<i16>,
    filled: nat,
) -> (Seq<ChannelView>, BlipState, Seq<i16>) {
    let count = drained(blip, samples.len() - filled);
    render_from(channels, tones, blip.consume(count), drain(blip, samples, filled), filled + count)
}

/// Samples that are in place before rendering goes on are left in place.
pub proof fn lemma_render_from_shift(
    channels: Seq<ChannelView>,
    tones: Seq<Tone>,
    blip: BlipState,
    prefix: Seq<i16>,
    samples: Seq<i16>,
    filled: nat,
)
    ensures
        render_from(channels, tones, blip, prefix + samples, prefix.len() + filled) == ({
            let (c, b, s) = render_from(channels, tones, blip, samples, filled);
            (c, b, prefix + s)
        }),
    decreases samples.len() - filled,
{
    if filled < samples.len() {
        let (played, ended) = frame(channels, tones, blip);
        let count = drained(ended, samples.len() - filled);
        assert(drain(ended, prefix + samples, prefix.len() + filled) =~= prefix + drain(
            ended,
            samples,
            filled,
        ));
        if count != 0 {
            lemma_render_from_shift(
                played,
                tones,
                ended.consume(count),
                prefix,
                drain(ended, samples, filled),
                filled + count,
            );
        }
    }
}

/// Rendering into an output in two parts, the second where the first has
/// left off, gives what rendering into the whole output gives.
pub proof fn lemma_render_on_splits(
    channels: Seq<ChannelView>,
    tones: Seq<Tone>,
    blip: BlipState,
    first: Seq<i16>,
    second: Seq<i16>,
    filled: nat,
)
    requires
        renderable(channels, tones),
        tuned(blip),
        filled <= first.len(),
    ensures
        render_on(channels, tones, blip, first + second, filled) == ({
            let (c1, b1, s1) = render_on(channels, tones, blip, first, filled);
            let (c2, b2, s2) = render_on(c1, tones, b1, second, 0);
            (c2, b2, s1 + s2)
        }),
    decreases first.len() - filled, (if blip.avail == 0 { 1nat } else { 0nat }),
{
    let room = (first.len() - filled) as nat;
    let whole = first + second;
    if blip.avail >= room {
        let left = blip.consume(room);
        let done = drain(blip, first, filled);
        let more = drained(left, second.len() as int);
        assert(drained(blip, whole.len() - filled) == room + more);
        crate::blip_buf::lemma_consume_twice(blip, room, more);
        assert(drain(blip, whole, filled) =~= done + drain(left, second, 0)) by {
            assert forall|i: int| first.len() <= i < first.len() + more implies drain(
                blip,
                whole,
                filled,
            )[i] == (done + drain(left, second, 0))[i] by {
                crate::blip_buf::lemma_sample_resumes(blip, room, (i - first.len()) as nat);
            }
        }
        lemma_render_from_shift(
            channels,
            tones,
            left.consume(more),
            done,
            drain(left, second, 0),
            more,
        );
    } else {
        let count = blip.avail;
        let left = blip.consume(count);
        let done = drain(blip, first, filled);
        let at = filled + count;
        assert(drain(blip, whole, filled) =~= done + second);
        lemma_tick_channels_wf(channels, tones, left, channels.len());
        lemma_frame_samples(left);
        let (played, ended) = frame(channels, tones, left);
        assert(render_from(channels, tones, left, done, at) == render_on(
            played,
            tones,
            ended,
            done,
            at,
        ));
        assert(render_from(channels, tones, left, done + second, at) == render_on(
            played,
            tones,
            ended,
            done + second,
            at,
        ));
        lemma_render_on_splits(played, tones, ended, done, second, at);
    }
}

/// Rendering in two calls gives the samples of one call: the output of the
/// first followed by the output of the second is the output of rendering
/// into both at once, and the channels and the buffer end up the same.
pub proof fn rendering_in_two_calls(
    channels: Seq<ChannelView>,
    tones: Seq<Tone>,
    blip: BlipState,
    first: Seq<i16>,
    second: Seq<i16>,
)
    requires
        renderable(channels, tones),
        tuned(blip),
    ensures
        render(channels, tones, blip, first + second) == ({
            let (c1, b1, s1) = render(channels, tones, blip, first);
            let (c2, b2, s2) = render(c1, tones, b1, second);
            (c2, b2, s1 + s2)
        }),
{
    lemma_render_on_splits(channels, tones, blip, first, second, 0);
}

/// Muted channels add nothing to what is left of the output: it is what the
/// read filter makes of what the buffer held.
pub proof fn lemma_render_from_buffer(
    channels: Seq<ChannelView>,
    tones: Seq<Tone>,
    blip: BlipState,
    samples: Seq<i16>,
    filled: nat,
    held: Seq<i64>,
    start: i64,
)
    requires
        all_muted(channels, tones),
        tuned(blip),
        filled < samples.len() ==> blip.avail == 0,
        filled <= samples.len() <= held.len(),
        blip.deltas == held.skip(filled as int) + Seq::new(filled, |i: int| 0i64),
        blip.integrator == integrator_at(held, start as int, filled),
        forall|i: int| 0 <= i < filled ==> samples[i] == sample_at(held, start as int, i as nat),
    ensures
        ({
            let out = render_from(channels, tones, blip, samples, filled).2;
            out.len() == samples.len() && forall|i: int|
                0 <= i < out.len() ==> out[i] == sample_at(held, start as int, i as nat)
        }),
    decreases samples.len() - filled,
{
    if filled < samples.len() {
        lemma_tick_channels_muted(channels, tones, blip, channels.len());
        lemma_frame_samples(blip);
        let (played, ended) = frame(channels, tones, blip);
        let count = drained(ended, samples.len() - filled);
        let out = drain(ended, samples, filled);
        let left = ended.consume(count);
        assert(count > 0);
        assert forall|i: int| 0 <= i < filled + count implies out[i] == sample_at(
            held,
            start as int,
            i as nat,
        ) by {
            if i >= filled {
                crate::blip_buf::lemma_integrator_resumes(
                    held,
                    start as int,
                    filled,
                    (i - filled) as nat,
                );
            }
        }
        crate::blip_buf::lemma_integrator_resumes(held, start as int, filled, count);
        crate::blip_buf::lemma_integrator_range(held, start as int, filled + count);
        assert(left.deltas =~= held.skip((filled + count) as int) + Seq::new(
            filled + count,
            |i: int| 0i64,
        ));
        lemma_render_from_buffer(played, tones, left, out, filled + count, held, start);
    }
}

/// While every channel is muted, rendering is reading: each sample of the
/// output is what the read filter makes of what the buffer held, as far as
/// the buffer reaches.
pub proof fn muted_channels_render_the_buffer(
    channels: Seq<ChannelView>,
    tones: Seq<Tone>,
    blip: BlipState,
    samples: Seq<i16>,
)
    requires
        all_muted(channels, tones),
        tuned(blip),
        samples.len() <= blip.deltas.len(),
    ensures
        ({
            let out = render(channels, tones, blip, samples).2;
            out.len() == samples.len() && forall|i: int|
                0 <= i < out.len() ==> out[i] == sample_at(
                    blip.deltas,
                    blip.integrator as int,
                    i as nat,
                )
        }),
{
    let count = drained(blip, samples.len() as int);
    crate::blip_buf::lemma_integrator_range(blip.deltas, blip.integrator as int, count);
    lemma_render_from_buffer(
        channels,
        tones,
        blip.consume(count),
        drain(blip, samples, 0),
        count,
        blip.deltas,
        blip.integrator,
    );
}

/// One change of amplitude, with every channel muted, is rendered as the step
/// that the kernel makes of it: the output is what the read filter makes of
/// the sixteen weights of the change, spread over sixteen samples from the
/// sample that the change falls in, and of nothing else.
pub proof fn single_step_renders_the_kernel(
    channels: Seq<ChannelView>,
    tones: Seq<Tone>,
    blip: BlipState,
    time: int,
    delta: int,
    samples: Seq<i16>,
)
    requires
        all_muted(channels, tones),
        tuned(blip),
        blip.is_silent(),
        0 <= time,
        i32::MIN <= delta <= i32::MAX,
        samples.len() <= blip.deltas.len(),
    ensures
        ({
            let out = render(channels, tones, blip.add_delta(time, delta), samples).2;
            let step = crate::blip_buf::step_buffer(
                blip.deltas.len(),
                blip.avail + blip.position(time),
                blip.phase(time),
                blip.interp(time),
                delta,
            );
            out.len() == samples.len() && forall|i: int|
                0 <= i < out.len() ==> out[i] == sample_at(step, 0, i as nat)
        }),
{
    crate::blip_buf::lemma_delta_in_silence(blip, time, delta);
    crate::blip_buf::lemma_add_delta_frame(blip, time, delta);
    muted_channels_render_the_buffer(channels, tones, blip.add_delta(time, delta), samples);
}

/// One rising change of amplitude, with every channel muted, is rendered as
/// a step that is neither early nor lost: the output is zero up to the sample
/// that the change falls in, sixteen samples later it stands at the height of
/// the change, within 35 parts in 1024 and one level, and from then on it
/// never rises and never falls below zero.
pub proof fn single_step_settles(
    channels: Seq<ChannelView>,
    tones: Seq<Tone>,
    blip: BlipState,
    time: int,
    delta: int,
    samples: Seq<i16>,
)
    requires
        all_muted(channels, tones),
        tuned(blip),
        blip.is_silent(),
        blip.accepts(time),
        0 <= time,
        1 <= delta <= i32::MAX,
        samples.len() <= blip.deltas.len(),
    ensures
        ({
            let out = render(channels, tones, blip.add_delta(time, delta), samples).2;
            let first = blip.avail + blip.position(time);
            let settled = first + 16;
            &&& out.len() == samples.len()
            &&& forall|i: int| 0 <= i <= first && i < out.len() ==> #[trigger] out[i] == 0
            &&& settled < out.len() ==> 32768 * out[settled] <= 33888 * delta + 1120
            &&& settled < out.len() ==> out[settled] == i16::MAX || 32768 * (out[settled] + 1)
                > 31648 * delta - 1120
            &&& forall|i: int, j: int|
                settled <= i <= j < out.len() ==> 0 <= #[trigger] out[j] <= #[trigger] out[i]
        }),
{
    let out = render(channels, tones, blip.add_delta(time, delta), samples).2;
    let len = blip.deltas.len();
    let first = blip.avail + blip.position(time);
    let phase = blip.phase(time);
    let interp = blip.interp(time);
    let step = crate::blip_buf::step_buffer(len, first, phase, interp, delta);
    single_step_renders_the_kernel(channels, tones, blip, time, delta, samples);
    crate::blip_buf::lemma_delta_in_silence(blip, time, delta);
    crate::blip_buf::lemma_position_grows(blip, 0, time);
    assert forall|i: int| 0 <= i <= first && i < out.len() implies #[trigger] out[i] == 0 by {
        crate::blip_buf::step_comes_in_time(len, first, phase, interp, delta, i as nat);
    }
    if first + 16 < out.len() {
        crate::blip_buf::step_reaches_its_height(len, first, phase, interp, delta);
    }
    assert forall|i: int, j: int| first + 16 <= i <= j < out.len() implies 0 <= #[trigger] out[j]
        <= #[trigger] out[i] by {
        crate::blip_buf::step_never_rises(len, first, phase, interp, delta, i as nat, j as nat);
    }
}

/// Energy of the samples from index `from` up to index `to`: the sum of their squares.
pub open spec fn energy(samples: Seq<i16>, from: int, to: int) -> int
    decreases to - from,
{
    if to <= from {
        0
    } else {
        energy(samples, from, to - 1) + samples[to - 1] * samples[to - 1]
    }
}

/// Over a stretch where the samples never rise nor fall below zero, the
/// energy lies between that of the last sample held throughout and that of
/// the first.
pub proof fn lemma_energy_of_a_falling_stretch(samples: Seq<i16>, from: int, to: int)
    requires
        0 <= from < to <= samples.len(),
        forall|i: int, j: int|
            from <= i <= j < to ==> 0 <= #[trigger] samples[j] <= #[trigger] samples[i],
    ensures
        (to - from) * (samples[to - 1] * samples[to - 1]) <= energy(samples, from, to),
        energy(samples, from, to) <= (to - from) * (samples[from] * samples[from]),
    decreases to - from,
{
    let top = samples[from] as int;
    let last = samples[to - 1] as int;
    let n = to - from;
    assert(0 <= last <= top);
    assert(last * last <= top * top) by (nonlinear_arith)
        requires
            0 <= last <= top,
    ;
    if to - 1 > from {
        lemma_energy_of_a_falling_stretch(samples, from, to - 1);
        let before = samples[to - 2] as int;
        assert(0 <= last <= before);
        assert(last * last <= before * before) by (nonlinear_arith)
            requires
                0 <= last <= before,
        ;
        assert((n - 1) * (last * last) <= (n - 1) * (before * before)) by (nonlinear_arith)
            requires
                n - 1 >= 0,
                last * last <= before * before,
        ;
        assert((n - 1) * (last * last) + last * last == n * (last * last)) by (nonlinear_arith);
        assert((n - 1) * (top * top) + top * top == n * (top * top)) by (nonlinear_arith);
    } else {
        assert(energy(samples, from, from) == 0);
        assert(1 * (last * last) == last * last) by (nonlinear_arith);
    }
}

/// One rising change of amplitude, with every channel muted, keeps its
/// energy as far as the read filter lets it. Over `n` samples from where the
/// step has settled, a hard step of height `delta` would have the energy
/// `n * delta * delta`. The output has at most `n` times the square of its
/// first sample there, which is the height within 35 parts in 1024 and one
/// level, and at least `n` times the square of its last, which is lower by no
/// more than one part in 512 for each sample that has passed.
pub proof fn single_step_keeps_its_energy(
    channels: Seq<ChannelView>,
    tones: Seq<Tone>,
    blip: BlipState,
    time: int,
    delta: int,
    samples: Seq<i16>,
    n: nat,
)
    requires
        all_muted(channels, tones),
        tuned(blip),
        blip.is_silent(),
        blip.accepts(time),
        0 <= time,
        1 <= delta <= i32::MAX,
        samples.len() <= blip.deltas.len(),
        1 <= n <= 512,
        blip.avail + blip.position(time) + 16 + n <= samples.len(),
    ensures
        ({
            let out = render(channels, tones, blip.add_delta(time, delta), samples).2;
            let settled = blip.avail + blip.position(time) + 16;
            let top = out[settled] as int;
            let last = out[settled + n - 1] as int;
            &&& out.len() == samples.len()
            &&& n * (last * last) <= energy(out, settled, settled + n) <= n * (top * top)
            &&& 0 <= last <= top
            &&& 32768 * top <= 33888 * delta + 1120
            &&& last == i16::MAX || 32768 * 512 * (last + 1) > (31648 * delta - 1120) * (513 - n)
        }),
{
    let out = render(channels, tones, blip.add_delta(time, delta), samples).2;
    let len = blip.deltas.len();
    let first = blip.avail + blip.position(time);
    let phase = blip.phase(time);
    let interp = blip.interp(time);
    let step = crate::blip_buf::step_buffer(len, first, phase, interp, delta);
    single_step_settles(channels, tones, blip, time, delta, samples);
    single_step_renders_the_kernel(channels, tones, blip, time, delta, samples);
    crate::blip_buf::lemma_delta_in_silence(blip, time, delta);
    crate::blip_buf::lemma_position_grows(blip, 0, time);
    lemma_energy_of_a_falling_stretch(out, first + 16, first + 16 + n);
    crate::blip_buf::step_settles(len, first, phase, interp, delta);
    crate::blip_buf::step_sinks_slowly(len, first, phase, interp, delta, (n - 1) as nat);
    let settled = integrator_at(step, 0, (first + 16) as nat);
    let held = integrator_at(step, 0, (first + 16 + n - 1) as nat);
    let last = out[first + 16 + n - 1] as int;
    assert(last == sample_at(step, 0, (first + 16 + n - 1) as nat));
    let floor = (31648 * delta - 1120) * (513 - n);
    assert(512 * held >= floor) by (nonlinear_arith)
        requires
            512 * held >= settled * (512 - (n - 1)),
            settled >= 31648 * delta - 1120,
            1 <= n <= 512,
            floor == (31648 * delta - 1120) * (513 - n),
    ;
    assert(last == i16::MAX || 32768 * (last + 1) > held);
    if last != i16::MAX {
        let above = 32768 * (last + 1);
        assert(above > held);
        assert(32768 * 512 * (last + 1) == 512 * above) by (nonlinear_arith)
            requires
                above == 32768 * (last + 1),
        ;
        assert(512 * above > floor);
    }
    let top = out[first + 16] as int;
    assert(n * (last * last) <= energy(out, first + 16, first + 16 + n) <= n * (top * top));
    assert(0 <= last <= top);
}

} // verus!
