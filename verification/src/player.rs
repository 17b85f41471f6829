//! The player adapter: wraps the playback engine with optional-file
//! semantics and a wall-clock-to-delta conversion, so a caller only hands in
//! the current time in microseconds once per frame. With no file loaded
//! every operation is a no-op and the player reports finished.

use vstd::prelude::*;

use crate::events::{all_sound_off, all_sound_off_messages};
use crate::file::MidiFile;
use crate::model::{update_run, EngineView};

verus! {

/// Abstract state of the player: the loaded engine state, if any, and the
/// time of the last update in microseconds.
pub struct PlayerView {
    /// The engine state of the loaded file, if one is loaded.
    pub file: Option<EngineView>,
    /// The caller-supplied time of the last update, in microseconds.
    pub last_update_time: int,
}

impl PlayerView {
    /// Every loaded file is a well-formed engine state.
    pub open spec fn wf(self) -> bool {
        self.file matches Some(f) ==> f.wf()
    }
}

/// The elapsed time an update covers: the current time minus the time of the
/// last update, or zero if the clock went backwards.
pub open spec fn player_delta(last_update_time: int, now: int) -> int {
    if now >= last_update_time {
        now - last_update_time
    } else {
        0
    }
}

/// A playback engine behind optional-file semantics, driven by a caller
/// clock.
pub struct MidiPlayer {
    maybe_midi_file: Option<MidiFile>,
    last_update_time: u64,
}

impl View for MidiPlayer {
    type V = PlayerView;

    closed spec fn view(&self) -> PlayerView {
        PlayerView {
            file: match &self.maybe_midi_file {
                Some(f) => Some(f@),
                None => None,
            },
            last_update_time: self.last_update_time as int,
        }
    }
}

impl MidiPlayer {
    /// A player with no file loaded, starting its clock at the given time in
    /// microseconds.
    pub fn new(now_micros: u64) -> (r: MidiPlayer)
        ensures
            r@.file is None,
            r@.last_update_time == now_micros as int,
            r@.wf(),
    {
        MidiPlayer { maybe_midi_file: None, last_update_time: now_micros }
    }

    /// Replaces the loaded file. The safety broadcast is returned first (and
    /// is all this operation sends), so no note of the previous file stays
    /// stuck. The paused flag is preserved across the replacement, and the
    /// clock resets to the given time so no backlog of unaccounted time is
    /// applied to the new file.
    pub fn set_midi_file(&mut self, midi_file: MidiFile, now_micros: u64) -> (out: Vec<Vec<u8>>)
        requires
            old(self)@.wf(),
            midi_file@.wf(),
        ensures
            final(self)@.wf(),
            final(self)@.last_update_time == now_micros as int,
            final(self)@.file == Some(
                EngineView {
                    paused: match old(self)@.file {
                        Some(f) => f.paused,
                        None => midi_file@.paused,
                    },
                    ..midi_file@
                },
            ),
            out.deep_view() == all_sound_off_messages(),
    {
        let out = all_sound_off();
        let mut midi_file = midi_file;
        match &self.maybe_midi_file {
            Some(old_file) => {
                let was_paused = old_file.paused();
                midi_file.set_paused_flag(was_paused);
            },
            None => {},
        }
        self.maybe_midi_file = Some(midi_file);
        self.last_update_time = now_micros;
        out
    }

    /// Sets or clears the paused flag of the loaded file; a no-op with no
    /// file loaded. When transitioning to paused the safety broadcast is
    /// returned. The clock resets to the given time either way, so resuming
    /// does not catch up on elapsed real time.
    pub fn set_paused(&mut self, paused: bool, now_micros: u64) -> (out: Vec<Vec<u8>>)
        requires
            old(self)@.wf(),
        ensures
            final(self)@.wf(),
            final(self)@.last_update_time == now_micros as int,
            old(self)@.file is None ==> final(self)@.file is None && out.deep_view() == Seq::<
                Seq<u8>,
            >::empty(),
            old(self)@.file matches Some(f) ==> final(self)@.file == Some(
                EngineView { paused, ..f },
            ) && out.deep_view() == if paused {
                all_sound_off_messages()
            } else {
                Seq::<Seq<u8>>::empty()
            },
    {
        let out = match &mut self.maybe_midi_file {
            Some(file) => file.set_paused(paused),
            None => {
                let empty_out: Vec<Vec<u8>> = Vec::new();
                proof {
                    assert(empty_out.deep_view() =~= Seq::<Seq<u8>>::empty());
                }
                empty_out
            },
        };
        self.last_update_time = now_micros;
        out
    }

    /// True iff no file is loaded, or the loaded file is finished.
    pub fn is_finished(&self) -> (r: bool)
        requires
            self@.wf(),
        ensures
            r == match self@.file {
                Some(f) => f.finished(),
                None => true,
            },
    {
        match &self.maybe_midi_file {
            Some(file) => file.is_finished(),
            None => true,
        }
    }

    /// Sets or clears the loop point of the loaded file, in microseconds; a
    /// no-op with no file loaded.
    pub fn set_loop_point(&mut self, loop_point: Option<u64>)
        requires
            old(self)@.wf(),
        ensures
            final(self)@.wf(),
            final(self)@.last_update_time == old(self)@.last_update_time,
            old(self)@.file is None ==> final(self)@.file is None,
            old(self)@.file matches Some(f) ==> final(self)@.file == Some(
                EngineView {
                    loop_point: match loop_point {
                        Some(lp) => Some(lp as int),
                        None => None,
                    },
                    ..f
                },
            ),
    {
        match &mut self.maybe_midi_file {
            Some(file) => file.set_loop_point(loop_point),
            None => {},
        }
    }

    /// Seeks the loaded file to the given time in microseconds; a no-op with
    /// no file loaded. The safety broadcast is returned first, as with every
    /// seek.
    pub fn seek_to(&mut self, micros: u64) -> (out: Vec<Vec<u8>>)
        requires
            old(self)@.wf(),
        ensures
            final(self)@.wf(),
            final(self)@.last_update_time == old(self)@.last_update_time,
            old(self)@.file is None ==> final(self)@.file is None && out.deep_view() == Seq::<
                Seq<u8>,
            >::empty(),
            old(self)@.file matches Some(f) ==> final(self)@.file == Some(
                crate::model::seek_state(f, micros as int),
            ) && out.deep_view() == all_sound_off_messages(),
    {
        let out = match &mut self.maybe_midi_file {
            Some(file) => file.seek_to(micros),
            None => {
                let empty_out: Vec<Vec<u8>> = Vec::new();
                proof {
                    assert(empty_out.deep_view() =~= Seq::<Seq<u8>>::empty());
                }
                empty_out
            },
        };
        out
    }

    /// Advances the loaded file by the time elapsed since the last update
    /// (zero if the clock went backwards), then remembers the given time; a
    /// no-op, apart from the clock, with no file loaded.
    pub fn update(&mut self, now_micros: u64) -> (out: Vec<Vec<u8>>)
        requires
            old(self)@.wf(),
        ensures
            final(self)@.wf(),
            final(self)@.last_update_time == now_micros as int,
            old(self)@.file is None ==> final(self)@.file is None && out.deep_view() == Seq::<
                Seq<u8>,
            >::empty(),
            old(self)@.file matches Some(f) ==> ({
                let delta = player_delta(old(self)@.last_update_time, now_micros as int);
                &&& (f.paused || f.finished() ==> final(self)@.file == Some(f) && out.deep_view()
                    == Seq::<Seq<u8>>::empty())
                &&& (!(f.paused || f.finished()) ==> ({
                    &&& final(self)@.file matches Some(f2)
                    &&& exists|n: nat| update_run(f, delta, n, f2, out.deep_view())
                }))
            }),
    {
        let delta_micros = if now_micros >= self.last_update_time {
            now_micros - self.last_update_time
        } else {
            0
        };
        proof {
            assert(delta_micros as int == player_delta(
                old(self)@.last_update_time,
                now_micros as int,
            ));
        }
        let out = match &mut self.maybe_midi_file {
            Some(file) => {
                let ghost f_old = file@;
                let o = file.update(delta_micros);
                proof {
                    if !(f_old.paused || f_old.finished()) {
                        assert(exists|n: nat|
                            update_run(f_old, delta_micros as int, n, file@, o.deep_view()));
                    }
                }
                o
            },
            None => {
                let empty_out: Vec<Vec<u8>> = Vec::new();
                proof {
                    assert(empty_out.deep_view() =~= Seq::<Seq<u8>>::empty());
                }
                empty_out
            },
        };
        self.last_update_time = now_micros;
        out
    }
}

} // verus!
