//! Positions in a queue of sounds, counted in ticks.
//!
//! A queue plays its sounds one after another, each step of a sound for as many
//! ticks as the sound's speed. A sound without steps, or with speed zero, takes
//! no time and is passed over.

use vstd::prelude::*;
use vstd::arithmetic::div_mod::{
    lemma_fundamental_div_mod, lemma_fundamental_div_mod_converse, lemma_mod_bound,
};
use crate::sound::SoundView;

verus! {

/// A place in a queue: a step of one of its sounds, and a tick within that step.
pub struct Cursor {
    pub sound: nat,
    pub step: nat,
    pub tick: nat,
}

/// Ticks that the first `n` sounds of `queue` last together.
pub open spec fn ticks_before(queue: Seq<SoundView>, n: nat) -> int
    decreases n,
{
    if n == 0 {
        0
    } else {
        ticks_before(queue, (n - 1) as nat) + queue[n - 1].ticks()
    }
}

/// Ticks that `queue` lasts when played once.
pub open spec fn total_ticks(queue: Seq<SoundView>) -> int {
    ticks_before(queue, queue.len())
}

/// Whether `cursor` names a tick that `queue` plays.
pub open spec fn on_step(queue: Seq<SoundView>, cursor: Cursor) -> bool {
    &&& cursor.sound < queue.len()
    &&& cursor.step < queue[cursor.sound as int].steps()
    &&& cursor.tick < queue[cursor.sound as int].speed
}

/// Ticks that `queue` plays before it reaches `cursor`.
pub open spec fn elapsed(queue: Seq<SoundView>, cursor: Cursor) -> int {
    ticks_before(queue, cursor.sound) + cursor.step * queue[cursor.sound as int].speed
        + cursor.tick
}

/// The place `t` ticks after the start of sound `from`, if the queue lasts that long.
pub open spec fn locate_from(queue: Seq<SoundView>, from: nat, t: int) -> Option<Cursor>
    decreases queue.len() - from,
{
    if from >= queue.len() {
        None
    } else if t < queue[from as int].ticks() {
        let speed = queue[from as int].speed as int;
        Some(Cursor { sound: from, step: (t / speed) as nat, tick: (t % speed) as nat })
    } else {
        locate_from(queue, from + 1, t - queue[from as int].ticks())
    }
}

/// The place that playback has reached `t` ticks after its start, if it is still
/// going on: a looping queue starts over each time it ends, any other ends for good.
/// A queue that takes no time plays nothing.
pub open spec fn locate(queue: Seq<SoundView>, t: int, looping: bool) -> Option<Cursor> {
    let total = total_ticks(queue);
    if t < total {
        locate_from(queue, 0, t)
    } else if looping && total > 0 {
        locate_from(queue, 0, t % total)
    } else {
        None
    }
}

/// No sound lasts a negative time.
pub proof fn lemma_ticks_nonnegative(sound: SoundView)
    ensures
        sound.ticks() >= 0,
        sound.ticks() > 0 <==> sound.steps() > 0 && sound.speed > 0,
{
    let n = sound.notes.len() as int;
    let s = sound.speed as int;
    assert(n * s >= 0 && (n * s > 0 <==> n > 0 && s > 0)) by (nonlinear_arith)
        requires
            n >= 0,
            s >= 0,
    ;
}

/// The time before a sound grows with its index.
pub proof fn lemma_ticks_before_grows(queue: Seq<SoundView>, i: nat, j: nat)
    requires
        i <= j,
    ensures
        0 <= ticks_before(queue, i) <= ticks_before(queue, j),
    decreases j,
{
    if j == 0 {
    } else if i == j {
        lemma_ticks_before_grows(queue, (i - 1) as nat, (j - 1) as nat);
        lemma_ticks_nonnegative(queue[j - 1]);
    } else {
        lemma_ticks_before_grows(queue, i, (j - 1) as nat);
        lemma_ticks_nonnegative(queue[j - 1]);
    }
}

/// A step of `speed` ticks: the tick `step * speed + tick` lies in step `step` at tick `tick`.
pub proof fn lemma_step_split(step: int, tick: int, speed: int)
    requires
        0 <= step,
        0 <= tick < speed,
    ensures
        (step * speed + tick) / speed == step,
        (step * speed + tick) % speed == tick,
{
    lemma_fundamental_div_mod_converse(step * speed + tick, speed, step, tick);
}

/// Every tick within a sound lies in one of its steps.
pub proof fn lemma_tick_in_sound(sound: SoundView, t: int)
    requires
        0 <= t < sound.ticks(),
    ensures
        sound.speed > 0,
        0 <= t / (sound.speed as int) < sound.steps(),
        0 <= t % (sound.speed as int) < sound.speed,
        t == (t / (sound.speed as int)) * sound.speed + t % (sound.speed as int),
{
    lemma_ticks_nonnegative(sound);
    let s = sound.speed as int;
    let n = sound.notes.len() as int;
    lemma_fundamental_div_mod(t, s);
    lemma_mod_bound(t, s);
    let q = t / s;
    assert(s * q == q * s) by (nonlinear_arith);
    assert(0 <= q < n) by (nonlinear_arith)
        requires
            0 <= t < n * s,
            t == q * s + t % s,
            0 <= t % s < s,
            s > 0,
    ;
}

/// What `locate_from` finds is a tick of the queue, as far from the start as asked.
pub proof fn lemma_located(queue: Seq<SoundView>, from: nat, t: int)
    requires
        0 <= t,
    ensures
        locate_from(queue, from, t) matches Some(c) ==> {
            &&& on_step(queue, c)
            &&& c.sound >= from
            &&& elapsed(queue, c) == ticks_before(queue, from) + t
        },
        locate_from(queue, from, t).is_some() <==> from <= queue.len() && t < total_ticks(queue)
            - ticks_before(queue, from),
    decreases queue.len() - from,
{
    if from >= queue.len() {
        if from == queue.len() {
        }
    } else {
        let sound = queue[from as int];
        lemma_ticks_nonnegative(sound);
        lemma_ticks_before_grows(queue, from + 1, queue.len());
        if t < sound.ticks() {
            lemma_tick_in_sound(sound, t);
        } else {
            lemma_located(queue, from + 1, t - sound.ticks());
        }
    }
}

/// Counting from a later sound gives the same place, once the time before it is taken off.
pub proof fn lemma_locate_skips(queue: Seq<SoundView>, from: nat, to: nat, t: int)
    requires
        from <= to <= queue.len(),
        0 <= t,
    ensures
        locate_from(queue, from, ticks_before(queue, to) - ticks_before(queue, from) + t)
            == locate_from(queue, to, t),
    decreases to - from,
{
    if from < to {
        let sound = queue[from as int];
        lemma_ticks_nonnegative(sound);
        lemma_ticks_before_grows(queue, from + 1, to);
        lemma_locate_skips(queue, from + 1, to, t);
    }
}

/// A tick of the queue is found again from the time that passes before it.
pub proof fn lemma_locate_elapsed(queue: Seq<SoundView>, cursor: Cursor)
    requires
        on_step(queue, cursor),
    ensures
        0 <= elapsed(queue, cursor) < total_ticks(queue),
        locate_from(queue, 0, elapsed(queue, cursor)) == Some(cursor),
{
    let sound = queue[cursor.sound as int];
    let s = sound.speed as int;
    let within = cursor.step * s + cursor.tick;
    lemma_step_split(cursor.step as int, cursor.tick as int, s);
    assert(0 <= cursor.step * s) by (nonlinear_arith)
        requires
            0 <= cursor.step,
            0 <= s,
    ;
    assert(within < sound.ticks()) by {
        let n = sound.notes.len() as int;
        assert((cursor.step + 1) * s <= n * s) by (nonlinear_arith)
            requires
                cursor.step + 1 <= n,
                0 <= s,
        ;
        assert((cursor.step + 1) * s == cursor.step * s + s) by (nonlinear_arith);
    }
    lemma_ticks_before_grows(queue, 0, cursor.sound);
    lemma_ticks_before_grows(queue, cursor.sound + 1, queue.len());
    lemma_locate_skips(queue, 0, cursor.sound, within);
}

/// Where playback stands, it plays a tick of the queue.
pub proof fn lemma_locate_on_step(queue: Seq<SoundView>, t: int, looping: bool)
    requires
        0 <= t,
    ensures
        locate(queue, t, looping) matches Some(c) ==> on_step(queue, c),
        locate(queue, t, looping).is_none() <==> t >= total_ticks(queue) && !(looping
            && total_ticks(queue) > 0),
{
    let total = total_ticks(queue);
    lemma_ticks_before_grows(queue, 0, queue.len());
    if t < total {
        lemma_located(queue, 0, t);
    } else if looping && total > 0 {
        lemma_mod_bound(t, total);
        lemma_located(queue, 0, t % total);
    }
}

} // verus!
