//! Sounds: the smallest playable unit, a run of steps at one speed.

use vstd::prelude::*;
use crate::settings::{
    Effect, Note, Speed, ToneIndex, Volume, EFFECT_NONE, INITIAL_SOUND_SPEED, MAX_VOLUME,
    TONE_TRIANGLE,
};

verus! {

/// A sequence of steps. The notes column gives the number of steps; the other
/// columns are read cyclically and may be shorter, longer or empty.
#[derive(Debug)]
pub struct Sound {
    pub notes: Vec<Note>,
    pub tones: Vec<ToneIndex>,
    pub volumes: Vec<Volume>,
    pub effects: Vec<Effect>,
    pub speed: Speed,
}

/// Abstract value of a [`Sound`].
pub struct SoundView {
    pub notes: Seq<Note>,
    pub tones: Seq<ToneIndex>,
    pub volumes: Seq<Volume>,
    pub effects: Seq<Effect>,
    pub speed: Speed,
}

impl SoundView {
    /// The value of a new sound: no steps, the initial speed.
    pub open spec fn empty() -> SoundView {
        SoundView {
            notes: Seq::empty(),
            tones: Seq::empty(),
            volumes: Seq::empty(),
            effects: Seq::empty(),
            speed: INITIAL_SOUND_SPEED,
        }
    }

    /// Number of steps.
    pub open spec fn steps(self) -> nat {
        self.notes.len()
    }

    /// Ticks the sound lasts: each step takes `speed` ticks.
    pub open spec fn ticks(self) -> int {
        self.notes.len() * self.speed
    }

    /// Tone of step `step`; the triangle tone when the column is empty.
    pub open spec fn tone_at(self, step: int) -> ToneIndex {
        if self.tones.len() == 0 {
            TONE_TRIANGLE
        } else {
            self.tones[step % self.tones.len() as int]
        }
    }

    /// Volume of step `step`; full volume when the column is empty.
    pub open spec fn volume_at(self, step: int) -> Volume {
        if self.volumes.len() == 0 {
            MAX_VOLUME
        } else {
            self.volumes[step % self.volumes.len() as int]
        }
    }

    /// Effect of step `step`; none when the column is empty.
    pub open spec fn effect_at(self, step: int) -> Effect {
        if self.effects.len() == 0 {
            EFFECT_NONE
        } else {
            self.effects[step % self.effects.len() as int]
        }
    }

    /// Whether every tone the sound names lies below `limit`.
    pub open spec fn tones_below(self, limit: int) -> bool {
        &&& TONE_TRIANGLE < limit
        &&& forall|i: int| 0 <= i < self.tones.len() ==> #[trigger] self.tones[i] < limit
    }
}

impl View for Sound {
    type V = SoundView;

    open spec fn view(&self) -> SoundView {
        SoundView {
            notes: self.notes@,
            tones: self.tones@,
            volumes: self.volumes@,
            effects: self.effects@,
            speed: self.speed,
        }
    }
}

impl Clone for Sound {
    fn clone(&self) -> (r: Sound)
        ensures
            r@ == self@,
    {
        Sound {
            notes: self.notes.clone(),
            tones: self.tones.clone(),
            volumes: self.volumes.clone(),
            effects: self.effects.clone(),
            speed: self.speed,
        }
    }
}

/// A fresh vector with the items of `src`.
fn copy_of<T: Copy>(src: &[T]) -> (r: Vec<T>)
    ensures
        r@ == src@,
{
    let mut r: Vec<T> = Vec::new();
    let mut i: usize = 0;
    while i < src.len()
        invariant
            i <= src@.len(),
            r@ == src@.take(i as int),
        decreases src@.len() - i,
    {
        r.push(src[i]);
        assert(src@.take(i + 1) =~= src@.take(i as int).push(src@[i as int]));
        i += 1;
    }
    assert(src@.take(src@.len() as int) =~= src@);
    r
}

impl Sound {
    /// A sound without steps at the initial speed.
    pub fn new() -> (r: Sound)
        ensures
            r@ == SoundView::empty(),
    {
        Sound {
            notes: Vec::new(),
            tones: Vec::new(),
            volumes: Vec::new(),
            effects: Vec::new(),
            speed: INITIAL_SOUND_SPEED,
        }
    }

    /// Replaces every column and the speed.
    pub fn set(
        &mut self,
        notes: &[Note],
        tones: &[ToneIndex],
        volumes: &[Volume],
        effects: &[Effect],
        speed: Speed,
    )
        ensures
            final(self)@ == (SoundView {
                notes: notes@,
                tones: tones@,
                volumes: volumes@,
                effects: effects@,
                speed,
            }),
    {
        self.notes = copy_of(notes);
        self.tones = copy_of(tones);
        self.volumes = copy_of(volumes);
        self.effects = copy_of(effects);
        self.speed = speed;
    }

    /// Whether the two sounds have the same steps and speed.
    pub fn same(&self, other: &Sound) -> (r: bool)
        ensures
            r == (self@ == other@),
    {
        let r = self.speed == other.speed && self.notes == other.notes && self.tones
            == other.tones && self.volumes == other.volumes && self.effects == other.effects;
        proof {
            if r {
                assert(self.notes@ =~= other.notes@);
                assert(self.tones@ =~= other.tones@);
                assert(self.volumes@ =~= other.volumes@);
                assert(self.effects@ =~= other.effects@);
            }
        }
        r
    }

    /// Ticks the sound lasts.
    pub fn ticks(&self) -> (r: u64)
        requires
            self@.steps() <= u32::MAX,
        ensures
            r == self@.ticks(),
    {
        let steps: u64 = self.notes.len() as u64;
        assert(steps * self.speed <= 0xffff_ffff * 0xffff_ffff) by (nonlinear_arith)
            requires
                0 <= steps <= 0xffff_ffff,
                0 <= self.speed <= 0xffff_ffff,
        ;
        steps * (self.speed as u64)
    }

    /// Tone of step `step`.
    pub fn tone_at(&self, step: usize) -> (r: ToneIndex)
        ensures
            r == self@.tone_at(step as int),
    {
        if self.tones.len() == 0 {
            TONE_TRIANGLE
        } else {
            self.tones[step % self.tones.len()]
        }
    }

    /// Volume of step `step`.
    pub fn volume_at(&self, step: usize) -> (r: Volume)
        ensures
            r == self@.volume_at(step as int),
    {
        if self.volumes.len() == 0 {
            MAX_VOLUME
        } else {
            self.volumes[step % self.volumes.len()]
        }
    }

    /// Effect of step `step`.
    pub fn effect_at(&self, step: usize) -> (r: Effect)
        ensures
            r == self@.effect_at(step as int),
    {
        if self.effects.len() == 0 {
            EFFECT_NONE
        } else {
            self.effects[step % self.effects.len()]
        }
    }

    /// Whether every tone the sound names lies below `limit`.
    pub fn tones_below(&self, limit: usize) -> (r: bool)
        ensures
            r == self@.tones_below(limit as int),
    {
        if limit == 0 {
            return false;
        }
        let mut i: usize = 0;
        while i < self.tones.len()
            invariant
                i <= self.tones@.len(),
                forall|j: int| 0 <= j < i ==> #[trigger] self.tones@[j] < limit,
            decreases self.tones@.len() - i,
        {
            if self.tones[i] as usize >= limit {
                assert(!(self@.tones[i as int] < limit));
                return false;
            }
            i += 1;
        }
        true
    }
}

} // verus!
