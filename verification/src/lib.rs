//! A chiptune synthesizer: sounds made of notes are queued on channels, and
//! the channels are rendered together into one stream of PCM samples.
//!
//! Leaves first: a [`tone::Tone`] is a waveform shape; an
//! [`oscillator::Oscillator`] turns the step being played into amplitude
//! changes on a fast clock; a [`blip_buf::BlipBuf`] turns those into samples
//! without aliasing; a [`sound::Sound`] is a run of steps; a
//! [`channel::Channel`] is a cursor over a queue of sounds, with the positions
//! in such a queue worked out in [`timeline`]; a [`music::Music`] is a set of
//! sequences to be played together; [`pyxel::Pyxel`] owns the tables, and
//! [`audio`] holds the playback commands and the render loop. [`wav`] is the
//! file format that recordings are saved in.

pub mod audio;
pub mod blip_buf;
pub mod channel;
pub mod music;
pub mod oscillator;
pub mod pyxel;
pub mod settings;
pub mod sound;
pub mod timeline;
pub mod tone;
pub mod wav;
