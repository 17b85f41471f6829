//! A verified playback engine for MIDI file data.
//!
//! Given a structured representation of a MIDI file and a sequence of
//! caller-supplied elapsed-time increments, the engine emits correctly
//! time-spaced outgoing MIDI messages and supports pause, resume, seeking,
//! looping, and hot-swapping the active file without leaking stuck notes.
//!
//! All timing arithmetic is exact: the engine keeps the microseconds-per-tick
//! ratio as the pair (tempo in microseconds per quarter note, pulses per
//! quarter note) and scales its timer accordingly, so no rounding occurs.
//! Times given by callers are plain microsecond counts.
//!
//! Output is modelled as data: every operation that sends MIDI messages
//! returns the encoded messages, in order, for the caller to transmit.
//! `model` holds the abstract engine state and its transition functions,
//! together with the proved laws of the engine; `file` proves the executable
//! engine against that model, `events` holds the event payloads and the
//! safety broadcast, `parse` loads raw bytes through the external parser,
//! and `player` wraps it all behind optional-file semantics.

pub mod events;
pub mod model;
pub mod file;
pub mod parse;
pub mod player;

pub use events::{
    all_sound_off, LoadError, OwnedTrackEvent, OwnedTrackEventKind, ParsedEvent, ParsedEventKind,
    ParsedFile, ParsedFormat, ParsedTiming,
};
pub use file::{MidiFile, MidiFileFormat, TrackProgress};
pub use player::MidiPlayer;
