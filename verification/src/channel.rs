//! Channels: independently playable voices, each a cursor over a queue of sounds.

use vstd::prelude::*;
use crate::blip_buf::{BlipBuf, BlipState};
use crate::oscillator::{
    is_rest, lemma_emit_ignores_buffer, lemma_play_flat, lemma_play_wf,
    lemma_step_frequency_range, OscState, Oscillator, Step, STEP_CLOCKS,
};
use crate::settings::{Gain, CLOCKS_PER_TICK, INITIAL_CHANNEL_GAIN, REST};
use crate::sound::{Sound, SoundView};
use crate::timeline::{
    elapsed, lemma_locate_elapsed, lemma_locate_on_step, lemma_located, lemma_tick_in_sound,
    lemma_ticks_before_grows, lemma_ticks_nonnegative, locate, locate_from, on_step,
    ticks_before, total_ticks, Cursor,
};
use crate::tone::Tone;

verus! {

/// What a channel is doing.
#[derive(Clone, Copy, Debug, PartialEq, Eq, Structural)]
pub enum PlayState {
    /// Nothing is queued.
    Idle,
    /// The queue is played once.
    Playing,
    /// The queue is played over and over.
    PlayingLooped,
}

/// The abstract values of a run of sounds.
pub open spec fn sound_views(sounds: Seq<Sound>) -> Seq<SoundView> {
    sounds.map_values(|s: Sound| s@)
}

/// Abstract state of a [`Channel`].
pub struct ChannelView {
    /// Snapshots of the sounds being played, in order.
    pub queue: Seq<SoundView>,
    pub playing: bool,
    pub looping: bool,
    /// The tick to be played next, while playing.
    pub cursor: Cursor,
    pub gain: Gain,
    pub oscillator: OscState,
}

impl ChannelView {
    /// Whether the state is one that a channel can be in: while it plays, the
    /// cursor is on a tick of the queue; while it is idle, nothing is queued.
    pub open spec fn wf(self) -> bool {
        &&& self.oscillator.wf()
        &&& self.queue.len() <= u32::MAX
        &&& forall|i: int|
            0 <= i < self.queue.len() ==> (#[trigger] self.queue[i]).steps() <= u32::MAX
        &&& self.playing ==> on_step(self.queue, self.cursor)
        &&& !self.playing ==> self.queue.len() == 0 && !self.looping && self.cursor == (Cursor {
            sound: 0,
            step: 0,
            tick: 0,
        })
    }

    pub open spec fn state(self) -> PlayState {
        if !self.playing {
            PlayState::Idle
        } else if self.looping {
            PlayState::PlayingLooped
        } else {
            PlayState::Playing
        }
    }

    /// Index of the current sound and of the current step in it, while playing.
    pub open spec fn play_pos(self) -> Option<(u32, u32)> {
        if self.playing {
            Some((self.cursor.sound as u32, self.cursor.step as u32))
        } else {
            None
        }
    }

    /// Whether every tone that a queued sound names lies below `limit`.
    pub open spec fn tones_below(self, limit: int) -> bool {
        forall|i: int| 0 <= i < self.queue.len() ==> (#[trigger] self.queue[i]).tones_below(limit)
    }

    /// The state of a new channel.
    pub open spec fn fresh() -> ChannelView {
        ChannelView {
            queue: Seq::empty(),
            playing: false,
            looping: false,
            cursor: Cursor { sound: 0, step: 0, tick: 0 },
            gain: INITIAL_CHANNEL_GAIN,
            oscillator: OscState::fresh(),
        }
    }

    /// The channel with nothing queued.
    pub open spec fn idle(self) -> ChannelView {
        ChannelView {
            queue: Seq::empty(),
            playing: false,
            looping: false,
            cursor: Cursor { sound: 0, step: 0, tick: 0 },
            ..self
        }
    }

    /// The channel as a new one at the same gain: idle, its oscillator as if
    /// it had played nothing.
    pub open spec fn reset(self) -> ChannelView {
        ChannelView { oscillator: OscState::fresh(), ..self.idle() }
    }

    /// The channel playing `queue` from `place`, or idle if there is no such place.
    pub open spec fn placed(self, queue: Seq<SoundView>, looping: bool, place: Option<Cursor>)
        -> ChannelView {
        match place {
            Some(cursor) => ChannelView { queue, playing: true, looping, cursor, ..self },
            None => self.idle(),
        }
    }

    /// Whether `sounds` can take the place of the queue without moving the cursor:
    /// the channel is playing, and `sounds` agrees with the queue up to the current sound.
    pub open spec fn resumes(self, sounds: Seq<SoundView>) -> bool {
        &&& self.playing
        &&& self.cursor.sound < sounds.len()
        &&& forall|k: int| 0 <= k <= self.cursor.sound ==> #[trigger] sounds[k] == self.queue[k]
    }

    /// The channel after `sounds` has been queued. An empty run changes nothing.
    /// A resuming run replaces the queue and keeps the cursor. Any other run is
    /// played from `start_tick` ticks after its start, from the start if none is given.
    pub open spec fn play(
        self,
        sounds: Seq<SoundView>,
        start_tick: Option<u32>,
        should_loop: bool,
        should_resume: bool,
    ) -> ChannelView {
        if sounds.len() == 0 {
            self
        } else if should_resume && self.resumes(sounds) {
            ChannelView { queue: sounds, looping: should_loop, ..self }
        } else {
            let start = match start_tick {
                Some(t) => t as int,
                None => 0,
            };
            self.placed(sounds, should_loop, locate(sounds, start, should_loop))
        }
    }

    /// What the oscillator plays at the cursor.
    pub open spec fn step(self) -> Step {
        let sound = self.queue[self.cursor.sound as int];
        let step = self.cursor.step as int;
        Step {
            note: sound.notes[step],
            prev_note: if step > 0 {
                sound.notes[step - 1]
            } else {
                REST
            },
            tone: sound.tone_at(step),
            volume: sound.volume_at(step),
            effect: sound.effect_at(step),
            elapsed: self.cursor.tick as u32,
            duration: sound.speed,
        }
    }

    /// The channel after the tick at the cursor has passed.
    pub open spec fn advance(self) -> ChannelView {
        self.placed(
            self.queue,
            self.looping,
            locate(self.queue, elapsed(self.queue, self.cursor) + 1, self.looping),
        )
    }

    /// The channel and the buffer after one tick: an idle channel brings its
    /// oscillator to rest, a playing one plays the tick at the cursor and moves on.
    pub open spec fn tick(self, tones: Seq<Tone>, blip: BlipState) -> (ChannelView, BlipState) {
        if self.playing {
            let step = self.step();
            let (oscillator, blip) = self.oscillator.play(
                step,
                tones[step.tone as int],
                self.gain,
                blip,
            );
            (ChannelView { oscillator, ..self.advance() }, blip)
        } else {
            let (oscillator, blip) = self.oscillator.rest(blip);
            (ChannelView { oscillator, ..self }, blip)
        }
    }

    /// The channel and the buffer after `n` ticks.
    pub open spec fn run(self, tones: Seq<Tone>, blip: BlipState, n: nat) -> (
        ChannelView,
        BlipState,
    )
        decreases n,
    {
        if n == 0 {
            (self, blip)
        } else {
            let (channel, blip) = self.run(tones, blip, (n - 1) as nat);
            channel.tick(tones, blip)
        }
    }

    /// Whether the channel plays `queue` and stands `t` ticks after its start.
    pub open spec fn stands_at(self, queue: Seq<SoundView>, t: int) -> bool {
        &&& self.playing
        &&& self.queue == queue
        &&& on_step(queue, self.cursor)
        &&& elapsed(queue, self.cursor) == t
    }

    /// Whether every tone that a queued sound plays a step with is flat in `tones`.
    pub open spec fn plays_flat(self, tones: Seq<Tone>) -> bool {
        forall|i: int, k: int|
            0 <= i < self.queue.len() && 0 <= k ==> tones[(#[trigger] self.queue[i].tone_at(
                k,
            )) as int].is_flat()
    }

    /// Whether the channel is silent and bound to stay so: it holds amplitude
    /// zero, and whatever it plays, it plays with flat tones.
    pub open spec fn muted(self, tones: Seq<Tone>) -> bool {
        &&& self.wf()
        &&& self.oscillator.amplitude == 0
        &&& self.plays_flat(tones)
    }
}

/// A voice of the synthesizer.
#[derive(Debug)]
pub struct Channel {
    oscillator: Oscillator,
    sounds: Vec<Sound>,
    is_playing: bool,
    should_loop: bool,
    sound_index: usize,
    note_index: usize,
    tick_count: u32,
    gain: Gain,
}

impl View for Channel {
    type V = ChannelView;

    closed spec fn view(&self) -> ChannelView {
        ChannelView {
            queue: sound_views(self.sounds@),
            playing: self.is_playing,
            looping: self.should_loop,
            cursor: Cursor {
                sound: self.sound_index as nat,
                step: self.note_index as nat,
                tick: self.tick_count as nat,
            },
            gain: self.gain,
            oscillator: self.oscillator@,
        }
    }
}

/// The place `t` ticks into `sounds` played once, or the ticks that `sounds` lasts if fewer.
fn find_place(sounds: &Vec<Sound>, t: u64) -> (r: Result<(usize, usize, u32), u64>)
    requires
        forall|i: int| 0 <= i < sounds@.len() ==> (#[trigger] sounds@[i])@.steps() <= u32::MAX,
    ensures
        match r {
            Ok((sound, step, tick)) => t < total_ticks(sound_views(sounds@)) && locate_from(
                sound_views(sounds@),
                0,
                t as int,
            ) == Some(Cursor { sound: sound as nat, step: step as nat, tick: tick as nat }),
            Err(total) => total == total_ticks(sound_views(sounds@)) && total <= t,
        },
{
    let ghost queue = sound_views(sounds@);
    let mut left: u64 = t;
    let mut i: usize = 0;
    while i < sounds.len()
        invariant
            i <= sounds@.len(),
            queue == sound_views(sounds@),
            forall|j: int| 0 <= j < sounds@.len() ==> (#[trigger] sounds@[j])@.steps() <= u32::MAX,
            left == t - ticks_before(queue, i as nat),
            left <= t,
            locate_from(queue, 0, t as int) == locate_from(queue, i as nat, left as int),
        decreases sounds@.len() - i,
    {
        let sound = &sounds[i];
        assert(queue[i as int] == sound@);
        let ticks: u64 = sound.ticks();
        proof {
            lemma_ticks_nonnegative(sound@);
            lemma_ticks_before_grows(queue, i as nat + 1, queue.len());
        }
        if left < ticks {
            proof {
                lemma_tick_in_sound(sound@, left as int);
            }
            let speed: u64 = sound.speed as u64;
            return Ok((i, (left / speed) as usize, (left % speed) as u32));
        }
        left = left - ticks;
        i += 1;
    }
    Err(t - left)
}

impl Channel {
    /// Whether the channel is in a state that its methods leave it in.
    pub open spec fn wf(&self) -> bool {
        self@.wf()
    }

    /// An idle channel at the initial gain.
    pub fn new() -> (r: Channel)
        ensures
            r.wf(),
            r@ == ChannelView::fresh(),
    {
        let r = Channel {
            oscillator: Oscillator::new(),
            sounds: Vec::new(),
            is_playing: false,
            should_loop: false,
            sound_index: 0,
            note_index: 0,
            tick_count: 0,
            gain: INITIAL_CHANNEL_GAIN,
        };
        assert(sound_views(r.sounds@) =~= Seq::empty());
        r
    }

    /// The gain of the channel, in thousandths.
    pub fn gain(&self) -> (r: Gain)
        ensures
            r == self@.gain,
    {
        self.gain
    }

    /// Sets the gain of the channel, in thousandths.
    pub fn set_gain(&mut self, gain: Gain)
        ensures
            final(self)@ == (ChannelView { gain, ..old(self)@ }),
    {
        self.gain = gain;
    }

    /// What the channel is doing.
    pub fn state(&self) -> (r: PlayState)
        ensures
            r == self@.state(),
    {
        if !self.is_playing {
            PlayState::Idle
        } else if self.should_loop {
            PlayState::PlayingLooped
        } else {
            PlayState::Playing
        }
    }

    /// Index of the current sound and of the current step in it, or `None` while idle.
    pub fn play_pos(&self) -> (r: Option<(u32, u32)>)
        requires
            self.wf(),
        ensures
            r == self@.play_pos(),
    {
        if self.is_playing {
            assert(self@.queue[self.sound_index as int] == self.sounds@[self.sound_index as int]@);
            Some((self.sound_index as u32, self.note_index as u32))
        } else {
            None
        }
    }

    /// Whether every tone that a queued sound names lies below `limit`.
    pub fn tones_below(&self, limit: usize) -> (r: bool)
        ensures
            r == self@.tones_below(limit as int),
    {
        let ghost queue = sound_views(self.sounds@);
        let mut i: usize = 0;
        while i < self.sounds.len()
            invariant
                i <= self.sounds@.len(),
                queue == sound_views(self.sounds@),
                forall|j: int| 0 <= j < i ==> (#[trigger] queue[j]).tones_below(limit as int),
            decreases self.sounds@.len() - i,
        {
            assert(queue[i as int] == self.sounds@[i as int]@);
            if !self.sounds[i].tones_below(limit) {
                assert(!self@.queue[i as int].tones_below(limit as int));
                return false;
            }
            i += 1;
        }
        true
    }

    /// Stops playback at once and discards the queue.
    pub fn stop(&mut self)
        requires
            old(self).wf(),
        ensures
            final(self).wf(),
            final(self)@ == old(self)@.idle(),
    {
        self.sounds = Vec::new();
        self.is_playing = false;
        self.should_loop = false;
        self.sound_index = 0;
        self.note_index = 0;
        self.tick_count = 0;
        assert(sound_views(self.sounds@) =~= Seq::empty());
    }

    /// Stops playback and returns the oscillator to the state of a new one, for
    /// playing into a buffer that holds nothing of what the channel has played.
    pub fn reset(&mut self)
        requires
            old(self).wf(),
        ensures
            final(self).wf(),
            final(self)@ == old(self)@.reset(),
    {
        self.stop();
        self.oscillator.reset();
    }

    /// Whether `sounds` agrees with the queue up to the current sound.
    fn resumes(&self, sounds: &Vec<Sound>) -> (r: bool)
        requires
            self.wf(),
        ensures
            r == self@.resumes(sound_views(sounds@)),
    {
        if !self.is_playing || self.sound_index >= sounds.len() {
            return false;
        }
        let ghost queue = sound_views(self.sounds@);
        let ghost other = sound_views(sounds@);
        let m: usize = sounds.len();
        let mut k: usize = 0;
        while k <= self.sound_index
            invariant
                k <= self.sound_index + 1,
                self.sound_index < m,
                m == sounds@.len(),
                self.sound_index < self.sounds@.len(),
                queue == sound_views(self.sounds@),
                other == sound_views(sounds@),
                forall|j: int| 0 <= j < k ==> #[trigger] other[j] == queue[j],
            decreases self.sound_index + 1 - k,
        {
            assert(queue[k as int] == self.sounds@[k as int]@);
            assert(other[k as int] == sounds@[k as int]@);
            if !sounds[k].same(&self.sounds[k]) {
                return false;
            }
            k += 1;
        }
        true
    }

    /// Queues `sounds`. An empty run changes nothing. With `should_resume`, a run
    /// that agrees with the queue up to the current sound replaces the queue while
    /// playback goes on where it is. Any other run is played from `start_tick`
    /// ticks after its start, from the start if none is given.
    pub fn play(
        &mut self,
        sounds: Vec<Sound>,
        start_tick: Option<u32>,
        should_loop: bool,
        should_resume: bool,
    )
        requires
            old(self).wf(),
            sounds@.len() <= u32::MAX,
            forall|i: int| 0 <= i < sounds@.len() ==> (#[trigger] sounds@[i])@.steps() <= u32::MAX,
        ensures
            final(self).wf(),
            final(self)@ == old(self)@.play(
                sound_views(sounds@),
                start_tick,
                should_loop,
                should_resume,
            ),
    {
        let ghost queue = sound_views(sounds@);
        assert forall|i: int| 0 <= i < queue.len() implies (#[trigger] queue[i]).steps()
            <= u32::MAX by {
            assert(queue[i] == sounds@[i]@);
        }
        if sounds.len() == 0 {
            return ;
        }
        if should_resume && self.resumes(&sounds) {
            assert(queue[self.sound_index as int] == self@.queue[self.sound_index as int]);
            self.sounds = sounds;
            self.should_loop = should_loop;
            return ;
        }
        let start: u64 = match start_tick {
            Some(t) => t as u64,
            None => 0,
        };
        proof {
            lemma_locate_on_step(queue, start as int, should_loop);
        }
        let place: Option<(usize, usize, u32)> = match find_place(&sounds, start) {
            Ok(found) => Some(found),
            Err(total) => {
                if should_loop && total > 0 {
                    proof {
                        vstd::arithmetic::div_mod::lemma_mod_bound(start as int, total as int);
                    }
                    match find_place(&sounds, start % total) {
                        Ok(found) => Some(found),
                        Err(_) => None,
                    }
                } else {
                    None
                }
            },
        };
        match place {
            Some((sound, step, tick)) => {
                self.sounds = sounds;
                self.is_playing = true;
                self.should_loop = should_loop;
                self.sound_index = sound;
                self.note_index = step;
                self.tick_count = tick;
            },
            None => {
                self.stop();
            },
        }
    }

    /// Queues a single sound, as [`Channel::play`] does a run.
    pub fn play1(
        &mut self,
        sound: Sound,
        start_tick: Option<u32>,
        should_loop: bool,
        should_resume: bool,
    )
        requires
            old(self).wf(),
            sound@.steps() <= u32::MAX,
        ensures
            final(self).wf(),
            final(self)@ == old(self)@.play(seq![sound@], start_tick, should_loop, should_resume),
    {
        let mut sounds: Vec<Sound> = Vec::new();
        sounds.push(sound);
        assert(sound_views(sounds@) =~= seq![sound@]);
        self.play(sounds, start_tick, should_loop, should_resume);
    }

    /// What the oscillator plays at the cursor.
    fn step(&self) -> (r: Step)
        requires
            self.wf(),
            self@.playing,
        ensures
            r == self@.step(),
            r.elapsed < r.duration,
    {
        let sound = &self.sounds[self.sound_index];
        assert(sound_views(self.sounds@)[self.sound_index as int] == sound@);
        let step: usize = self.note_index;
        Step {
            note: sound.notes[step],
            prev_note: if step > 0 {
                sound.notes[step - 1]
            } else {
                REST
            },
            tone: sound.tone_at(step),
            volume: sound.volume_at(step),
            effect: sound.effect_at(step),
            elapsed: self.tick_count,
            duration: sound.speed,
        }
    }

    /// Moves the cursor past the tick it is at.
    #[verifier::loop_isolation(false)]
    fn advance(&mut self)
        requires
            old(self).wf(),
            old(self)@.playing,
        ensures
            final(self).wf(),
            final(self)@ == old(self)@.advance(),
    {
        let ghost queue = sound_views(self.sounds@);
        let ghost before = self@.cursor;
        let ghost now = elapsed(queue, before);
        let n: usize = self.sounds.len();
        proof {
            lemma_locate_elapsed(queue, before);
            assert(queue[self.sound_index as int] == self.sounds@[self.sound_index as int]@);
            assert forall|i: int| 0 <= i < queue.len() implies queue[i] == (
            #[trigger] self.sounds@[i])@ by {}
        }
        let speed: u32 = self.sounds[self.sound_index].speed;
        let steps: usize = self.sounds[self.sound_index].notes.len();
        if self.tick_count + 1 < speed {
            proof {
                let next = Cursor { tick: before.tick + 1, ..before };
                lemma_locate_elapsed(queue, next);
            }
            self.tick_count = self.tick_count + 1;
            return ;
        }
        if self.note_index + 1 < steps {
            proof {
                let next = Cursor { step: before.step + 1, tick: 0, ..before };
                lemma_locate_elapsed(queue, next);
                assert((before.step + 1) * speed == before.step * speed + speed)
                    by (nonlinear_arith);
            }
            self.note_index = self.note_index + 1;
            self.tick_count = 0;
            return ;
        }
        assert(now + 1 == ticks_before(queue, (self.sound_index + 1) as nat)) by {
            assert(steps * speed == (steps - 1) * speed + speed) by (nonlinear_arith);
        }
        let mut i: usize = self.sound_index + 1;
        while i < n
            invariant
                self.sound_index < i <= n,
                n == self.sounds@.len(),
                queue == sound_views(self.sounds@),
                forall|j: int| 0 <= j < n ==> (#[trigger] self.sounds@[j])@.steps() <= u32::MAX,
                forall|j: int| 0 <= j < n ==> queue[j] == (#[trigger] self.sounds@[j])@,
                now + 1 == ticks_before(queue, i as nat),
                *self == *old(self),
            decreases n - i,
        {
            if self.sounds[i].ticks() > 0 {
                proof {
                    let next = Cursor { sound: i as nat, step: 0, tick: 0 };
                    lemma_ticks_nonnegative(queue[i as int]);
                    lemma_locate_elapsed(queue, next);
                    assert(next.step * queue[i as int].speed == 0) by (nonlinear_arith)
                        requires
                            next.step == 0,
                    ;
                }
                self.sound_index = i;
                self.note_index = 0;
                self.tick_count = 0;
                return ;
            }
            i += 1;
        }
        assert(now + 1 == total_ticks(queue));
        if !self.should_loop {
            self.stop();
            return ;
        }
        proof {
            vstd::arithmetic::div_mod::lemma_mod_self_0(total_ticks(queue));
        }
        let mut i: usize = 0;
        while i < n
            invariant
                i <= self.sound_index,
                self.sound_index < n,
                n == self.sounds@.len(),
                queue == sound_views(self.sounds@),
                forall|j: int| 0 <= j < n ==> (#[trigger] self.sounds@[j])@.steps() <= u32::MAX,
                forall|j: int| 0 <= j < n ==> queue[j] == (#[trigger] self.sounds@[j])@,
                ticks_before(queue, i as nat) == 0,
                queue[self.sound_index as int].ticks() > 0,
                *self == *old(self),
            decreases n - i,
        {
            if self.sounds[i].ticks() > 0 {
                proof {
                    let next = Cursor { sound: i as nat, step: 0, tick: 0 };
                    lemma_ticks_nonnegative(queue[i as int]);
                    lemma_locate_elapsed(queue, next);
                    assert(next.step * queue[i as int].speed == 0) by (nonlinear_arith)
                        requires
                            next.step == 0,
                    ;
                }
                self.sound_index = i;
                self.note_index = 0;
                self.tick_count = 0;
                return ;
            }
            i += 1;
        }
    }

    /// Plays one tick into `blip_buf`: an idle channel brings its oscillator to
    /// rest, a playing one plays the tick at the cursor and moves on.
    pub fn update(&mut self, tones: &Vec<Tone>, blip_buf: &mut BlipBuf)
        requires
            old(self).wf(),
            old(self)@.tones_below(tones@.len() as int),
            old(blip_buf).wf(),
            old(blip_buf)@.fits(CLOCKS_PER_TICK as int),
        ensures
            final(self).wf(),
            final(self)@.tones_below(tones@.len() as int),
            final(blip_buf).wf(),
            final(blip_buf)@.same_frame(old(blip_buf)@),
            (final(self)@, final(blip_buf)@) == old(self)@.tick(tones@, old(blip_buf)@),
    {
        if !self.is_playing {
            self.oscillator.rest(blip_buf);
            return ;
        }
        let step = self.step();
        proof {
            let sound = self@.queue[self@.cursor.sound as int];
            assert(sound.tones_below(tones@.len() as int));
            if sound.tones.len() > 0 {
                vstd::arithmetic::div_mod::lemma_mod_bound(
                    self@.cursor.step as int,
                    sound.tones.len() as int,
                );
            }
        }
        let tone = &tones[step.tone as usize];
        self.oscillator.update(&step, tone, self.gain, blip_buf);
        self.advance();
    }
}

/// A tick of a muted channel leaves the buffer as it was and the channel muted.
pub proof fn lemma_tick_muted(channel: ChannelView, tones: Seq<Tone>, blip: BlipState)
    requires
        channel.muted(tones),
    ensures
        channel.tick(tones, blip).0.muted(tones),
        channel.tick(tones, blip).1 == blip,
{
    if channel.playing {
        let queue = channel.queue;
        let sound = queue[channel.cursor.sound as int];
        let step = channel.step();
        assert(step.tone == sound.tone_at(channel.cursor.step as int));
        lemma_play_flat(channel.oscillator, step, tones[step.tone as int], channel.gain, blip);
        lemma_locate_elapsed(queue, channel.cursor);
        lemma_locate_on_step(queue, elapsed(queue, channel.cursor) + 1, channel.looping);
    }
}

/// A tick leaves a channel in a state that a channel can be in, with no other
/// sounds queued than before, and the buffer with its sample boundaries where
/// they were.
pub proof fn lemma_tick_wf(channel: ChannelView, tones: Seq<Tone>, blip: BlipState)
    requires
        channel.wf(),
    ensures
        channel.tick(tones, blip).0.wf(),
        forall|limit: int|
            channel.tones_below(limit) ==> #[trigger] channel.tick(tones, blip).0.tones_below(
                limit,
            ),
        channel.tick(tones, blip).1.same_frame(blip),
        blip.wf() ==> channel.tick(tones, blip).1.wf(),
{
    if channel.playing {
        let queue = channel.queue;
        let step = channel.step();
        lemma_play_wf(channel.oscillator, step, tones[step.tone as int], channel.gain, blip);
        lemma_locate_elapsed(queue, channel.cursor);
        lemma_locate_on_step(queue, elapsed(queue, channel.cursor) + 1, channel.looping);
    } else {
        crate::blip_buf::lemma_add_delta_frame(blip, 0, -channel.oscillator.amplitude);
    }
}

/// What a tick makes of a channel does not depend on what the buffer holds.
pub proof fn lemma_tick_ignores_buffer(
    channel: ChannelView,
    tones: Seq<Tone>,
    blip: BlipState,
    other: BlipState,
)
    requires
        channel.wf(),
    ensures
        channel.tick(tones, blip).0 == channel.tick(tones, other).0,
{
    if channel.playing {
        let step = channel.step();
        if !is_rest(step.note) {
            lemma_step_frequency_range(step);
            let frequency = step.spec_frequency();
            let period = STEP_CLOCKS as int / frequency;
            assert(1 <= period <= STEP_CLOCKS) by (nonlinear_arith)
                requires
                    period == 64_000_000int / frequency,
                    1 <= frequency <= 4_000_000,
            ;
            let tone = tones[step.tone as int];
            let seeded = if step.elapsed == 0 {
                OscState { noise_reg: crate::settings::INITIAL_NOISE_REG, ..channel.oscillator }
            } else {
                channel.oscillator
            };
            lemma_emit_ignores_buffer(
                seeded,
                blip,
                other,
                tone,
                period,
                step.spec_peak(tone.gain, channel.gain),
            );
        }
    }
}

/// A tick moves a playing channel one tick on in its queue. At the end of the
/// queue a looping channel starts over, and any other falls idle.
pub proof fn lemma_tick_moves_on(
    channel: ChannelView,
    tones: Seq<Tone>,
    blip: BlipState,
    t: int,
)
    requires
        channel.stands_at(channel.queue, t),
    ensures
        ({
            let after = channel.tick(tones, blip).0;
            let total = total_ticks(channel.queue);
            &&& t < total
            &&& after.looping == (channel.looping && after.playing)
            &&& t + 1 < total ==> after.stands_at(channel.queue, t + 1)
            &&& t + 1 == total && channel.looping ==> after.stands_at(channel.queue, 0)
            &&& t + 1 == total && !channel.looping ==> !after.playing
        }),
{
    let queue = channel.queue;
    let total = total_ticks(queue);
    lemma_locate_elapsed(queue, channel.cursor);
    lemma_located(queue, 0, t + 1);
    if t + 1 == total {
        vstd::arithmetic::div_mod::lemma_mod_self_0(total);
        lemma_located(queue, 0, 0);
    }
}

/// An idle channel stays idle.
pub proof fn lemma_idle_stays(channel: ChannelView, tones: Seq<Tone>, blip: BlipState, n: nat)
    requires
        !channel.playing,
    ensures
        !channel.run(tones, blip, n).0.playing,
    decreases n,
{
    if n > 0 {
        lemma_idle_stays(channel, tones, blip, (n - 1) as nat);
    }
}

/// A channel that plays its queue once stands `n` ticks further after `n`
/// ticks, until the queue has run out; from then on it is idle.
pub proof fn lemma_run_once(
    channel: ChannelView,
    tones: Seq<Tone>,
    blip: BlipState,
    t: int,
    n: nat,
)
    requires
        channel.stands_at(channel.queue, t),
        !channel.looping,
    ensures
        ({
            let after = channel.run(tones, blip, n).0;
            if t + n < total_ticks(channel.queue) {
                after.stands_at(channel.queue, t + n) && !after.looping
            } else {
                !after.playing
            }
        }),
    decreases n,
{
    if n == 0 {
        lemma_locate_elapsed(channel.queue, channel.cursor);
    } else {
        lemma_run_once(channel, tones, blip, t, (n - 1) as nat);
        let (before, b) = channel.run(tones, blip, (n - 1) as nat);
        if t + n - 1 < total_ticks(channel.queue) {
            lemma_tick_moves_on(before, tones, b, t + n - 1);
        }
    }
}

/// A channel that plays its queue in a loop never stops: after `n` ticks it
/// stands where the queue is `n` ticks further on, counted round the loop.
pub proof fn lemma_run_looped(
    channel: ChannelView,
    tones: Seq<Tone>,
    blip: BlipState,
    t: int,
    n: nat,
)
    requires
        channel.stands_at(channel.queue, t),
        channel.looping,
    ensures
        ({
            let after = channel.run(tones, blip, n).0;
            after.stands_at(channel.queue, (t + n) % total_ticks(channel.queue)) && after.looping
        }),
    decreases n,
{
    let total = total_ticks(channel.queue);
    lemma_locate_elapsed(channel.queue, channel.cursor);
    if n == 0 {
        vstd::arithmetic::div_mod::lemma_small_mod(t as nat, total as nat);
    } else {
        lemma_run_looped(channel, tones, blip, t, (n - 1) as nat);
        let (before, b) = channel.run(tones, blip, (n - 1) as nat);
        let at = (t + n - 1) % total;
        lemma_tick_moves_on(before, tones, b, at);
        vstd::arithmetic::div_mod::lemma_mod_bound(t + n - 1, total);
        vstd::arithmetic::div_mod::lemma_add_mod_noop(t + n - 1, 1, total);
        if at + 1 == total {
            vstd::arithmetic::div_mod::lemma_mod_self_0(total);
        } else {
            vstd::arithmetic::div_mod::lemma_small_mod((at + 1) as nat, total as nat);
        }
        if total > 1 {
            vstd::arithmetic::div_mod::lemma_small_mod(1, total as nat);
        }
    }
}

/// Played once from its start, a run of sounds keeps the channel playing for
/// exactly as many ticks as the run lasts: after fewer ticks the channel stands
/// that many ticks into the run, after that many or more it is idle.
pub proof fn play_once_lasts_total_ticks(
    channel: ChannelView,
    sounds: Seq<SoundView>,
    tones: Seq<Tone>,
    blip: BlipState,
    n: nat,
)
    requires
        sounds.len() > 0,
    ensures
        ({
            let after = channel.play(sounds, None, false, false).run(tones, blip, n).0;
            if n < total_ticks(sounds) {
                after.state() == PlayState::Playing && after.stands_at(sounds, n as int)
            } else {
                after.state() == PlayState::Idle
            }
        }),
{
    let started = channel.play(sounds, None, false, false);
    lemma_ticks_before_grows(sounds, 0, sounds.len());
    if 0 < total_ticks(sounds) {
        lemma_located(sounds, 0, 0);
        lemma_run_once(started, tones, blip, 0, n);
    } else {
        lemma_idle_stays(started, tones, blip, n);
    }
}

/// A sound of `N` steps at speed `S`, played once from its start, keeps the
/// channel playing for exactly `S * N` ticks.
pub proof fn sound_played_once_lasts_speed_times_steps(
    channel: ChannelView,
    sound: SoundView,
    tones: Seq<Tone>,
    blip: BlipState,
    n: nat,
)
    ensures
        channel.play(seq![sound], None, false, false).run(tones, blip, n).0.state() == (if n
            < sound.speed * sound.steps() {
            PlayState::Playing
        } else {
            PlayState::Idle
        }),
{
    let sounds = seq![sound];
    assert(total_ticks(sounds) == sound.ticks()) by {
        assert(ticks_before(sounds, 1) == ticks_before(sounds, 0) + sounds[0].ticks());
    }
    assert(sound.ticks() == sound.speed * sound.steps()) by (nonlinear_arith)
        requires
            sound.ticks() == sound.steps() * sound.speed,
    ;
    play_once_lasts_total_ticks(channel, sounds, tones, blip, n);
}

/// Played in a loop from its start, a run of sounds that takes time is at its
/// first tick again after as many ticks as it lasts, and the channel still loops.
pub proof fn looped_play_wraps(
    channel: ChannelView,
    sounds: Seq<SoundView>,
    tones: Seq<Tone>,
    blip: BlipState,
)
    requires
        sounds.len() > 0,
        total_ticks(sounds) > 0,
    ensures
        ({
            let started = channel.play(sounds, None, true, false);
            let after = started.run(tones, blip, total_ticks(sounds) as nat).0;
            &&& after.state() == PlayState::PlayingLooped
            &&& after.cursor == started.cursor
            &&& after.stands_at(sounds, 0)
        }),
{
    let started = channel.play(sounds, None, true, false);
    let total = total_ticks(sounds);
    lemma_located(sounds, 0, 0);
    lemma_run_looped(started, tones, blip, 0, total as nat);
    vstd::arithmetic::div_mod::lemma_mod_self_0(total);
    let after = started.run(tones, blip, total as nat).0;
    lemma_locate_elapsed(sounds, after.cursor);
}

/// A sound of `N` steps at speed `S`, played in a loop from its start, is at
/// step 0 of sound 0 again after `S * N` ticks.
pub proof fn looped_sound_wraps_to_first_step(
    channel: ChannelView,
    sound: SoundView,
    tones: Seq<Tone>,
    blip: BlipState,
)
    requires
        sound.speed * sound.steps() > 0,
    ensures
        ({
            let after = channel.play(seq![sound], None, true, false).run(
                tones,
                blip,
                (sound.speed * sound.steps()) as nat,
            ).0;
            after.state() == PlayState::PlayingLooped && after.play_pos() == Some((0u32, 0u32))
        }),
{
    let sounds = seq![sound];
    assert(total_ticks(sounds) == sound.ticks()) by {
        assert(ticks_before(sounds, 1) == ticks_before(sounds, 0) + sounds[0].ticks());
    }
    assert(sound.ticks() == sound.speed * sound.steps()) by (nonlinear_arith)
        requires
            sound.ticks() == sound.steps() * sound.speed,
    ;
    looped_play_wraps(channel, sounds, tones, blip);
    lemma_tick_in_sound(sound, 0);
}

/// Queued again with `should_resume`, the queue that a channel is playing goes
/// on from the tick it has reached, whatever `start_tick` says.
pub proof fn resume_keeps_position(
    channel: ChannelView,
    start_tick: Option<u32>,
    should_loop: bool,
)
    requires
        channel.wf(),
        channel.playing,
    ensures
        ({
            let after = channel.play(channel.queue, start_tick, should_loop, true);
            &&& after.playing
            &&& after.queue == channel.queue
            &&& after.cursor == channel.cursor
            &&& elapsed(after.queue, after.cursor) == elapsed(channel.queue, channel.cursor)
        }),
{
}

/// Queued without `should_resume`, a run of sounds starts `start_tick` ticks
/// after its start, from its start if none is given, wherever the channel stood.
pub proof fn restart_resets_position(
    channel: ChannelView,
    sounds: Seq<SoundView>,
    start_tick: Option<u32>,
    should_loop: bool,
)
    requires
        sounds.len() > 0,
    ensures
        ({
            let after = channel.play(sounds, start_tick, should_loop, false);
            let start = match start_tick {
                Some(t) => t as int,
                None => 0,
            };
            &&& start < total_ticks(sounds) ==> after.stands_at(sounds, start)
            &&& start >= total_ticks(sounds) && !should_loop ==> !after.playing
            &&& start >= total_ticks(sounds) > 0 && should_loop ==> after.stands_at(
                sounds,
                start % total_ticks(sounds),
            )
            &&& after.playing ==> after.looping == should_loop
        }),
{
    let start = match start_tick {
        Some(t) => t as int,
        None => 0,
    };
    let total = total_ticks(sounds);
    if start < total {
        lemma_located(sounds, 0, start);
    } else if should_loop && total > 0 {
        vstd::arithmetic::div_mod::lemma_mod_bound(start, total);
        lemma_located(sounds, 0, start % total);
    }
}

/// Queued without `should_resume` and without a start tick, a run of sounds
/// whose first sound takes time starts at step 0 of sound 0. A first sound
/// that takes no time, for want of steps or of speed, is passed over.
pub proof fn restart_begins_at_the_first_step(
    channel: ChannelView,
    sounds: Seq<SoundView>,
    should_loop: bool,
)
    requires
        sounds.len() > 0,
        sounds[0].ticks() > 0,
    ensures
        channel.play(sounds, None, should_loop, false).play_pos() == Some((0u32, 0u32)),
        channel.play(sounds, None, should_loop, false).cursor.tick == 0,
{
    lemma_ticks_before_grows(sounds, 1, sounds.len());
    assert(ticks_before(sounds, 1) == ticks_before(sounds, 0) + sounds[0].ticks());
    lemma_tick_in_sound(sounds[0], 0);
}

} // verus!
