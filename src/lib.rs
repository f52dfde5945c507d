//! Turns the frames of a piano-roll video, one pixel column per keyboard key,
//! into the note-on / note-off events of a MIDI track.
//!
//! Each frame is decoded to a pixel grid ([`image`]), its columns are
//! labelled with the nearest reference color ([`color`], [`colormatch`]),
//! the columns are shared out among the keys of a note range ([`keyboard`]),
//! and consecutive key states are diffed into timed events ([`sequencer`]);
//! [`midi`] chains these steps and [`notes`] reads note names.

pub mod color;
pub mod colormatch;
pub mod image;
pub mod keyboard;
pub mod midi;
pub mod notes;
pub mod sequencer;
