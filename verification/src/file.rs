//! The playback engine: a loaded MIDI file with its timing state, cursors and
//! layout, and the operations that drive it. Every operation is proved to
//! implement the model in `model`.

use vstd::prelude::*;

use crate::events::{
    all_sound_off, all_sound_off_messages, convert_kind, EventView, LoadError, OwnedTrackEvent,
    OwnedTrackEventKind, ParsedEventKind, ParsedEventView, ParsedFile, ParsedFileView,
    ParsedFormat, ParsedTiming, SYSEX_STATUS,
};
use crate::model::{
    feed_timer, fire_due_events, inc_ticks, lemma_run_ticks_snoc, run_ticks, seek_index,
    seek_remainder, seek_state, seek_target, tick_once, tick_parallel, tick_sched, tick_track,
    update_run, EngineView, FormatView, ProgressView, SchedOutcome, TickOutcome,
};

verus! {

/// The track layout of a loaded file, fixed at load time apart from the
/// sequential cursor.
#[derive(Clone, Copy)]
pub enum MidiFileFormat {
    /// One track plays at a time. `current` may legally equal the track
    /// count: that is the sentinel for "all tracks finished".
    Sequential { current: usize },
    /// All tracks play simultaneously.
    Parallel,
}

impl View for MidiFileFormat {
    type V = FormatView;

    open spec fn view(&self) -> FormatView {
        match self {
            MidiFileFormat::Sequential { current } => FormatView::Sequential {
                current: *current as int,
            },
            MidiFileFormat::Parallel => FormatView::Parallel,
        }
    }
}

/// Per-track cursor: ticks accumulated since the last fired event and the
/// index of the next pending event.
#[derive(Clone, Copy)]
pub struct TrackProgress {
    /// Ticks since the last event of this track fired.
    pub ticks_since_last_update: u32,
    /// Index of the next pending event; the track length means exhausted.
    pub next_event: usize,
}

impl View for TrackProgress {
    type V = ProgressView;

    open spec fn view(&self) -> ProgressView {
        ProgressView { ticks: self.ticks_since_last_update as int, next: self.next_event as int }
    }
}

/// The spec-level image of one engine-owned track.
pub open spec fn track_view(track: Vec<OwnedTrackEvent>) -> Seq<EventView> {
    Seq::new(track@.len(), |j: int| track@[j]@)
}

/// A loaded MIDI file together with all playback state.
pub struct MidiFile {
    ticks_per_beat: u16,
    tempo: u32,
    timer: i128,
    loop_point: Option<u64>,
    format: MidiFileFormat,
    tracks: Vec<Vec<OwnedTrackEvent>>,
    progress: Vec<TrackProgress>,
    paused: bool,
}

impl View for MidiFile {
    type V = EngineView;

    closed spec fn view(&self) -> EngineView {
        EngineView {
            ticks_per_beat: self.ticks_per_beat as int,
            tempo: self.tempo as int,
            timer: self.timer as int,
            loop_point: match self.loop_point {
                Some(lp) => Some(lp as int),
                None => None,
            },
            format: self.format@,
            tracks: Seq::new(self.tracks@.len(), |i: int| track_view(self.tracks@[i])),
            progress: Seq::new(self.progress@.len(), |i: int| self.progress@[i]@),
            paused: self.paused,
        }
    }
}

/// True when no track of the pre-parsed file holds an escape event.
pub open spec fn parsed_tracks_ok(tracks: Seq<Seq<ParsedEventView>>) -> bool {
    forall|i: int, j: int|
        0 <= i < tracks.len() && 0 <= j < tracks[i].len() ==> !((#[trigger] tracks[i][j]).kind
            is Escape)
}

/// True when loading accepts the pre-parsed file: metrical timing and no
/// escape events.
pub open spec fn parsed_ok(file: ParsedFileView) -> bool {
    &&& file.timing is Metrical
    &&& parsed_tracks_ok(file.tracks)
}

/// The error loading reports for a rejected pre-parsed file: timecode timing
/// is checked first, then escape events.
pub open spec fn load_error(file: ParsedFileView) -> LoadError {
    if !(file.timing is Metrical) {
        LoadError::UnsupportedTimecode
    } else {
        LoadError::UnsupportedEscape
    }
}

/// The layout state a freshly loaded file starts in.
pub open spec fn initial_format(format: ParsedFormat) -> FormatView {
    match format {
        ParsedFormat::Parallel => FormatView::Parallel,
        _ => FormatView::Sequential { current: 0 },
    }
}

/// The engine-owned image of the pre-parsed tracks.
pub open spec fn loaded_tracks(tracks: Seq<Seq<ParsedEventView>>) -> Seq<Seq<EventView>> {
    Seq::new(
        tracks.len(),
        |i: int|
            Seq::new(
                tracks[i].len(),
                |j: int|
                    EventView {
                        delta: tracks[i][j].delta as int,
                        kind: convert_kind(tracks[i][j].kind),
                    },
            ),
    )
}

/// The full engine state a freshly loaded file starts in: timer zero, no
/// tempo in force yet, no loop point, cursors at the start, not paused.
pub open spec fn load_view(file: ParsedFileView) -> EngineView {
    EngineView {
        ticks_per_beat: match file.timing {
            ParsedTiming::Metrical(t) => t as int,
            ParsedTiming::Timecode => 0,
        },
        tempo: 0,
        timer: 0,
        loop_point: None,
        format: initial_format(file.format),
        tracks: loaded_tracks(file.tracks),
        progress: Seq::new(file.tracks.len(), |i: int| ProgressView { ticks: 0, next: 0 }),
        paused: false,
    }
}

/// Copies a byte vector element by element.
fn copy_bytes(bytes: &Vec<u8>) -> (r: Vec<u8>)
    ensures
        r@ == bytes@,
{
    let mut r: Vec<u8> = Vec::new();
    let mut k: usize = 0;
    while k < bytes.len()
        invariant
            k <= bytes@.len(),
            r@ == bytes@.take(k as int),
        decreases bytes@.len() - k,
    {
        r.push(bytes[k]);
        proof {
            assert(r@ =~= bytes@.take(k + 1));
        }
        k = k + 1;
    }
    proof {
        assert(r@ =~= bytes@);
    }
    r
}

/// Restores the leading status byte in front of a system-exclusive payload.
fn sysex_with_status(bytes: &Vec<u8>) -> (r: Vec<u8>)
    ensures
        r@ == seq![SYSEX_STATUS] + bytes@,
{
    let mut r: Vec<u8> = Vec::new();
    r.push(SYSEX_STATUS);
    let mut k: usize = 0;
    while k < bytes.len()
        invariant
            k <= bytes@.len(),
            r@ == seq![SYSEX_STATUS] + bytes@.take(k as int),
        decreases bytes@.len() - k,
    {
        r.push(bytes[k]);
        proof {
            assert(r@ =~= seq![SYSEX_STATUS] + bytes@.take(k + 1));
        }
        k = k + 1;
    }
    proof {
        assert(r@ =~= seq![SYSEX_STATUS] + bytes@);
    }
    r
}

/// A seek target whose scaled time overflows 64 bits lies beyond the largest
/// tick counter value.
proof fn lemma_overflowing_seek_target(micros: int, ppqn: int, tempo: int)
    requires
        0 < tempo <= u32::MAX as int,
        micros * ppqn > u64::MAX as int,
    ensures
        micros * ppqn / tempo > u32::MAX as int,
{
    let product = micros * ppqn;
    let cap = 0x1_0000_0000int;
    assert(tempo * cap <= u32::MAX as int * cap) by (nonlinear_arith)
        requires
            0 < tempo <= u32::MAX as int,
            cap == 0x1_0000_0000int,
    ;
    vstd::arithmetic::div_mod::lemma_div_is_ordered(tempo * cap, product, tempo);
    vstd::arithmetic::div_mod::lemma_div_multiples_vanish(cap, tempo);
}

/// Rescans one track for a seek: returns the index of the first event whose
/// cumulative tick offset exceeds the target (or the track length if none
/// does), and the part of the target not consumed by the skipped events.
fn scan_track(track: &Vec<OwnedTrackEvent>, target: u32) -> (r: (usize, u32))
    ensures
        r.0 as int == seek_index(track_view(*track), target as int),
        r.1 as int == seek_remainder(track_view(*track), target as int),
        r.0 <= track@.len(),
{
    let len = track.len();
    let ghost tv = track_view(*track);
    let mut idx: usize = 0;
    let mut rem: u64 = target as u64;
    proof {
        assert(tv.skip(0) =~= tv);
    }
    while idx < len && (track[idx].delta as u64) <= rem
        invariant
            idx <= len,
            len == tv.len(),
            tv == track_view(*track),
            rem <= target,
            seek_index(tv, target as int) == idx + seek_index(tv.skip(idx as int), rem as int),
            seek_remainder(tv, target as int) == seek_remainder(tv.skip(idx as int), rem as int),
        decreases len - idx,
    {
        proof {
            assert(tv.skip(idx as int)[0] == tv[idx as int]);
            assert(tv.skip(idx as int).drop_first() =~= tv.skip(idx as int + 1));
        }
        rem = rem - (track[idx].delta as u64);
        idx = idx + 1;
    }
    proof {
        if idx == len {
            assert(tv.skip(len as int) =~= Seq::<EventView>::empty());
        }
        assert(seek_index(tv.skip(idx as int), rem as int) == 0);
        assert(seek_remainder(tv.skip(idx as int), rem as int) == rem as int);
    }
    (idx, rem as u32)
}

impl MidiFile {
    /// Loads a pre-parsed file, rejecting timecode timing and escape events
    /// (escape events also stand in for continuation packets of split
    /// system-exclusive messages, which playback does not support). On
    /// success the engine starts fresh: timer zero, no tempo in force, no
    /// loop point, every cursor at the start of its track, not paused.
    /// System-exclusive payloads get their leading status byte restored.
    pub fn from_parsed(file: ParsedFile) -> (r: Result<MidiFile, LoadError>)
        ensures
            r is Ok <==> parsed_ok(file@),
            r matches Ok(f) ==> f@ == load_view(file@) && f@.wf(),
            r matches Err(e) ==> e == load_error(file@),
    {
        let ticks_per_beat: u16 = match file.timing {
            ParsedTiming::Metrical(t) => t,
            ParsedTiming::Timecode => {
                return Err(LoadError::UnsupportedTimecode);
            },
        };
        let mut tracks: Vec<Vec<OwnedTrackEvent>> = Vec::new();
        let mut progress: Vec<TrackProgress> = Vec::new();
        let mut i: usize = 0;
        while i < file.tracks.len()
            invariant
                file.timing is Metrical,
                i <= file.tracks@.len(),
                tracks@.len() == i as int,
                progress@.len() == i as int,
                forall|k: int|
                    0 <= k < i as int ==> track_view(#[trigger] tracks@[k]) == loaded_tracks(
                        file@.tracks,
                    )[k],
                forall|k: int|
                    0 <= k < i as int ==> (#[trigger] progress@[k])@ == (ProgressView {
                        ticks: 0,
                        next: 0,
                    }),
                forall|k: int, q: int|
                    0 <= k < i as int && 0 <= q < file@.tracks[k].len() ==> !((
                    #[trigger] file@.tracks[k][q]).kind is Escape),
            decreases file.tracks@.len() - i,
        {
            let mut owned: Vec<OwnedTrackEvent> = Vec::new();
            let mut j: usize = 0;
            while j < file.tracks[i].len()
                invariant
                    file.timing is Metrical,
                    i < file.tracks@.len(),
                    j <= file.tracks@[i as int]@.len(),
                    owned@.len() == j as int,
                    forall|q: int|
                        0 <= q < j as int ==> (#[trigger] owned@[q])@ == loaded_tracks(
                            file@.tracks,
                        )[i as int][q],
                    forall|q: int|
                        0 <= q < j as int ==> !((#[trigger] file@.tracks[i as int][q]).kind
                            is Escape),
                decreases file.tracks@[i as int]@.len() - j,
            {
                let ev = &file.tracks[i][j];
                proof {
                    assert(file@.tracks[i as int][j as int] == ev@);
                }
                let kind: OwnedTrackEventKind = match &ev.kind {
                    ParsedEventKind::ChannelVoice(bytes) => OwnedTrackEventKind::ToSynth(
                        copy_bytes(bytes),
                    ),
                    ParsedEventKind::SysEx(bytes) => OwnedTrackEventKind::ToSynth(
                        sysex_with_status(bytes),
                    ),
                    ParsedEventKind::Escape(_) => {
                        proof {
                            assert(file@.tracks[i as int][j as int].kind is Escape);
                            assert(!parsed_tracks_ok(file@.tracks));
                        }
                        return Err(LoadError::UnsupportedEscape);
                    },
                    ParsedEventKind::Tempo(t) => OwnedTrackEventKind::Tempo(*t),
                    ParsedEventKind::OtherMeta => OwnedTrackEventKind::InessentialMeta,
                };
                owned.push(OwnedTrackEvent { delta: ev.delta, kind });
                j = j + 1;
            }
            tracks.push(owned);
            progress.push(TrackProgress { ticks_since_last_update: 0, next_event: 0 });
            proof {
                assert(track_view(tracks@[i as int]) =~= loaded_tracks(file@.tracks)[i as int]);
            }
            i = i + 1;
        }
        let loaded = MidiFile {
            ticks_per_beat,
            tempo: 0,
            timer: 0,
            loop_point: None,
            format: match file.format {
                ParsedFormat::Parallel => MidiFileFormat::Parallel,
                _ => MidiFileFormat::Sequential { current: 0 },
            },
            tracks,
            progress,
            paused: false,
        };
        proof {
            assert(loaded@ =~~= load_view(file@));
        }
        Ok(loaded)
    }

    /// Sets or clears the paused flag. When transitioning to paused the
    /// safety broadcast is returned, to be sent before anything else, so no
    /// note stays stuck.
    pub fn set_paused(&mut self, paused: bool) -> (out: Vec<Vec<u8>>)
        ensures
            final(self)@ == (EngineView { paused, ..old(self)@ }),
            out.deep_view() == if paused {
                all_sound_off_messages()
            } else {
                Seq::<Seq<u8>>::empty()
            },
    {
        self.paused = paused;
        proof {
            assert(self@ =~~= (EngineView { paused, ..old(self)@ }));
        }
        if paused {
            all_sound_off()
        } else {
            let out: Vec<Vec<u8>> = Vec::new();
            proof {
                assert(out.deep_view() =~~= Seq::<Seq<u8>>::empty());
            }
            out
        }
    }

    /// Whether playback is paused.
    pub fn paused(&self) -> (r: bool)
        ensures
            r == self@.paused,
    {
        self.paused
    }

    /// Sets the paused flag without the safety broadcast; used when the flag
    /// is carried over from a replaced file rather than toggled live.
    pub(crate) fn set_paused_flag(&mut self, paused: bool)
        ensures
            final(self)@ == (EngineView { paused, ..old(self)@ }),
    {
        self.paused = paused;
        proof {
            assert(self@ =~~= (EngineView { paused, ..old(self)@ }));
        }
    }

    /// Stores or clears the loop target, given in microseconds. While a loop
    /// point is set, the file never reports finished.
    pub fn set_loop_point(&mut self, loop_point: Option<u64>)
        ensures
            final(self)@ == (EngineView {
                loop_point: match loop_point {
                    Some(lp) => Some(lp as int),
                    None => None,
                },
                ..old(self)@
            }),
    {
        self.loop_point = loop_point;
        proof {
            assert(self@ =~~= (EngineView {
                loop_point: match loop_point {
                    Some(lp) => Some(lp as int),
                    None => None,
                },
                ..old(self)@
            }));
        }
    }

    /// Seeks to the given time in microseconds. The safety broadcast comes
    /// first in the returned messages (it is all a seek sends). Every track's
    /// cursor is rescanned from the start: the next pending event becomes the
    /// first event whose cumulative tick offset exceeds the target tick
    /// count, and the tick counter becomes the time already consumed towards
    /// that event. The target is derived from the single tempo in force at
    /// the moment of seeking, not from a tempo-map integration over the seek
    /// distance.
    pub fn seek_to(&mut self, micros: u64) -> (out: Vec<Vec<u8>>)
        requires
            old(self)@.wf_core(),
        ensures
            final(self)@ == seek_state(old(self)@, micros as int),
            final(self)@.wf_core(),
            out.deep_view() == all_sound_off_messages(),
    {
        let out = all_sound_off();
        let target: u32 = if self.tempo == 0 {
            if micros == 0 {
                0
            } else {
                u32::MAX
            }
        } else {
            match micros.checked_mul(self.ticks_per_beat as u64) {
                Some(scaled) => {
                    let t = scaled / (self.tempo as u64);
                    if t > u32::MAX as u64 {
                        u32::MAX
                    } else {
                        t as u32
                    }
                },
                None => {
                    proof {
                        lemma_overflowing_seek_target(
                            micros as int,
                            self.ticks_per_beat as int,
                            self.tempo as int,
                        );
                    }
                    u32::MAX
                },
            }
        };
        proof {
            assert(target as int == seek_target(old(self)@, micros as int));
        }
        let track_count = self.tracks.len();
        let mut tid: usize = 0;
        while tid < track_count
            invariant
                self@.wf_core(),
                tid <= track_count,
                track_count == self@.tracks.len(),
                target as int == seek_target(old(self)@, micros as int),
                self@.ticks_per_beat == old(self)@.ticks_per_beat,
                self@.tempo == old(self)@.tempo,
                self@.timer == old(self)@.timer,
                self@.loop_point == old(self)@.loop_point,
                self@.format == old(self)@.format,
                self@.tracks == old(self)@.tracks,
                self@.paused == old(self)@.paused,
                self@.progress.len() == old(self)@.progress.len(),
                forall|k: int|
                    0 <= k < tid as int ==> #[trigger] self@.progress[k] == seek_state(
                        old(self)@,
                        micros as int,
                    ).progress[k],
                forall|k: int|
                    tid as int <= k < track_count as int ==> #[trigger] self@.progress[k] == old(
                        self,
                    )@.progress[k],
            decreases track_count - tid,
        {
            let ghost prev = self@;
            let (next_event, ticks) = scan_track(&self.tracks[tid], target);
            self.progress.set(
                tid,
                TrackProgress { ticks_since_last_update: ticks, next_event },
            );
            proof {
                assert(self@.tracks =~~= prev.tracks);
                assert(self@.progress =~= prev.progress.update(
                    tid as int,
                    ProgressView { ticks: ticks as int, next: next_event as int },
                ));
                assert(prev.tracks[tid as int] == track_view(self.tracks@[tid as int]));
                assert(self@.progress[tid as int] == seek_state(
                    old(self)@,
                    micros as int,
                ).progress[tid as int]);
            }
            tid = tid + 1;
        }
        proof {
            assert(self@ =~~= seek_state(old(self)@, micros as int));
        }
        out
    }

    /// Advances one track by one tick: its tick counter goes up by one
    /// (saturating), then every due event fires in order — its message is
    /// appended to the returned list, or the tempo changes, and the counter
    /// resets while the cursor advances — until the next pending event is not
    /// yet due or the track is exhausted.
    fn update_track(&mut self, track_id: usize) -> (out: Vec<Vec<u8>>)
        requires
            old(self)@.wf_core(),
            track_id < old(self)@.tracks.len(),
        ensures
            final(self)@.wf_core(),
            ({
                let r = tick_track(
                    old(self)@.tracks[track_id as int],
                    old(self)@.progress[track_id as int],
                    old(self)@.tempo,
                );
                &&& final(self)@ == (EngineView {
                    tempo: r.tempo,
                    progress: old(self)@.progress.update(
                        track_id as int,
                        ProgressView { ticks: r.ticks, next: r.next },
                    ),
                    ..old(self)@
                })
                &&& out.deep_view() == r.out
            }),
    {
        let mut out: Vec<Vec<u8>> = Vec::new();
        let mut prog = self.progress[track_id];
        prog.ticks_since_last_update = prog.ticks_since_last_update.saturating_add(1);
        let ghost track = self@.tracks[track_id as int];
        let ghost goal = tick_track(
            self@.tracks[track_id as int],
            self@.progress[track_id as int],
            self@.tempo,
        );
        proof {
            assert(prog@.ticks == inc_ticks(old(self)@.progress[track_id as int].ticks));
            assert(prog@.next == old(self)@.progress[track_id as int].next);
            assert(out.deep_view() + goal.out =~= goal.out);
        }
        while prog.next_event < self.tracks[track_id].len() && self.tracks[track_id][
            prog.next_event].delta <= prog.ticks_since_last_update
            invariant
                self@.wf_core(),
                track_id < self@.tracks.len(),
                track == self@.tracks[track_id as int],
                prog.next_event as int <= track.len(),
                prog.ticks_since_last_update as int <= u32::MAX,
                self@.ticks_per_beat == old(self)@.ticks_per_beat,
                self@.timer == old(self)@.timer,
                self@.loop_point == old(self)@.loop_point,
                self@.format == old(self)@.format,
                self@.tracks == old(self)@.tracks,
                self@.progress == old(self)@.progress,
                self@.paused == old(self)@.paused,
                goal == ({
                    let rest = fire_due_events(
                        track,
                        prog@.ticks,
                        prog@.next,
                        self@.tempo,
                    );
                    TickOutcome {
                        ticks: rest.ticks,
                        next: rest.next,
                        tempo: rest.tempo,
                        out: out.deep_view() + rest.out,
                    }
                }),
            decreases track.len() - prog.next_event,
        {
            let ghost out_before = out.deep_view();
            let ghost tempo_before = self@.tempo;
            let ghost next_before = prog@.next;
            let ev = &self.tracks[track_id][prog.next_event];
            prog.ticks_since_last_update = 0;
            prog.next_event = prog.next_event + 1;
            match &ev.kind {
                OwnedTrackEventKind::ToSynth(bytes) => {
                    let message = copy_bytes(bytes);
                    out.push(message);
                },
                OwnedTrackEventKind::Tempo(t) => {
                    self.tempo = *t;
                },
                OwnedTrackEventKind::InessentialMeta => {},
            }
            proof {
                assert(track[next_before] == ev@);
                let rest = fire_due_events(track, 0, next_before + 1, self@.tempo);
                assert(out.deep_view() =~~= out_before + crate::model::emitted(ev@.kind));
                assert(out.deep_view() + rest.out =~~= out_before + (crate::model::emitted(
                    ev@.kind,
                ) + rest.out));
            }
        }
        self.progress.set(track_id, prog);
        proof {
            let rest = fire_due_events(track, prog@.ticks, prog@.next, self@.tempo);
            assert(rest == (TickOutcome {
                ticks: prog@.ticks,
                next: prog@.next,
                tempo: self@.tempo,
                out: Seq::<Seq<u8>>::empty(),
            }));
            assert(out.deep_view() + rest.out =~= out.deep_view());
            assert(self@ =~~= (EngineView {
                tempo: goal.tempo,
                progress: old(self)@.progress.update(
                    track_id as int,
                    ProgressView { ticks: goal.ticks, next: goal.next },
                ),
                ..old(self)@
            }));
        }
        out
    }

    /// Advances every track by one tick, in track order, threading tempo
    /// changes through.
    fn update_all_tracks(&mut self) -> (out: Vec<Vec<u8>>)
        requires
            old(self)@.wf_core(),
            old(self)@.format is Parallel,
        ensures
            final(self)@.wf_core(),
            ({
                let r = tick_parallel(
                    old(self)@.tracks,
                    old(self)@.progress,
                    old(self)@.tempo,
                    0,
                );
                &&& final(self)@ == (EngineView {
                    tempo: r.tempo,
                    progress: r.progress,
                    ..old(self)@
                })
                &&& out.deep_view() == r.out
            }),
    {
        let mut out: Vec<Vec<u8>> = Vec::new();
        let ghost goal = tick_parallel(
            old(self)@.tracks,
            old(self)@.progress,
            old(self)@.tempo,
            0,
        );
        let track_count = self.tracks.len();
        let mut i: usize = 0;
        proof {
            assert(out.deep_view() + goal.out =~= goal.out);
            assert(out.deep_view() =~= Seq::<Seq<u8>>::empty());
        }
        while i < track_count
            invariant
                self@.wf_core(),
                i <= track_count,
                track_count == self@.tracks.len(),
                self@.ticks_per_beat == old(self)@.ticks_per_beat,
                self@.timer == old(self)@.timer,
                self@.loop_point == old(self)@.loop_point,
                self@.format == old(self)@.format,
                self@.tracks == old(self)@.tracks,
                self@.paused == old(self)@.paused,
                goal == ({
                    let rest = tick_parallel(self@.tracks, self@.progress, self@.tempo, i as int);
                    SchedOutcome {
                        progress: rest.progress,
                        tempo: rest.tempo,
                        out: out.deep_view() + rest.out,
                    }
                }),
            decreases track_count - i,
        {
            let ghost prev = self@;
            let ghost out_before = out.deep_view();
            let mut o = self.update_track(i);
            out.append(&mut o);
            proof {
                let r = tick_track(prev.tracks[i as int], prev.progress[i as int], prev.tempo);
                assert(self@.progress =~= prev.progress.update(
                    i as int,
                    ProgressView { ticks: r.ticks, next: r.next },
                ));
                let rest = tick_parallel(self@.tracks, self@.progress, self@.tempo, i + 1);
                assert(out.deep_view() =~~= out_before + r.out);
                assert(out.deep_view() + rest.out =~~= out_before + (r.out + rest.out));
            }
            i = i + 1;
        }
        proof {
            let rest = tick_parallel(self@.tracks, self@.progress, self@.tempo, i as int);
            assert(rest.out =~= Seq::<Seq<u8>>::empty());
            assert(out.deep_view() + rest.out =~= out.deep_view());
            assert(self@ =~~= (EngineView {
                tempo: goal.tempo,
                progress: goal.progress,
                ..old(self)@
            }));
        }
        out
    }

    /// Advances playback by the given elapsed time in microseconds. Does
    /// nothing while paused or finished. Otherwise the elapsed time, scaled
    /// by pulses per quarter note, enters the timer, and as long as the timer
    /// exceeds one tick's worth of time (the tempo in force, in the same
    /// scale) one tick happens: the scheduler advances its track or tracks,
    /// then, if the layout reports finished and a loop point is set, the
    /// engine seeks to the loop point, and one tick's worth of time leaves
    /// the timer. The returned messages are everything the ticks emitted, in
    /// order. An update of zero microseconds changes nothing and emits
    /// nothing. While no tempo is in force a tick lasts zero microseconds, so
    /// after such a tick the remaining budget is discarded: at most one tick
    /// happens per update call until a tempo event fires. The layout never
    /// changes apart from the sequential current-track increment, so a
    /// sequential file whose loop point brings it back keeps its finished
    /// layout and re-seeks on every following tick; looping is effective
    /// under the parallel layout, whose finished predicate rests on the
    /// cursors that the seek resets.
    pub fn update(&mut self, delta_micros: u64) -> (out: Vec<Vec<u8>>)
        requires
            old(self)@.wf(),
        ensures
            final(self)@.wf(),
            old(self)@.paused || old(self)@.finished() ==> final(self)@ == old(self)@
                && out.deep_view() == Seq::<Seq<u8>>::empty(),
            !(old(self)@.paused || old(self)@.finished()) ==> exists|n: nat|
                update_run(old(self)@, delta_micros as int, n, final(self)@, out.deep_view()),
            delta_micros == 0 ==> final(self)@ == old(self)@ && out.deep_view() == Seq::<
                Seq<u8>,
            >::empty(),
    {
        let mut out: Vec<Vec<u8>> = Vec::new();
        proof {
            assert(out.deep_view() =~= Seq::<Seq<u8>>::empty());
        }
        if self.paused {
            return out;
        }
        if self.is_finished() {
            return out;
        }
        proof {
            assert((delta_micros as int) * (self.ticks_per_beat as int) <= (u64::MAX as int) * (
            u16::MAX as int) && (delta_micros as int) * (self.ticks_per_beat as int)
                >= 0) by (nonlinear_arith)
                requires
                    0 <= delta_micros <= u64::MAX,
                    0 <= self.ticks_per_beat <= u16::MAX,
            ;
        }
        let add: i128 = (delta_micros as i128) * (self.ticks_per_beat as i128);
        self.timer = self.timer + add;
        let ghost s0 = self@;
        let ghost mut n: nat = 0;
        proof {
            assert(s0 =~~= feed_timer(old(self)@, delta_micros as int));
        }
        while self.timer > (self.tempo as i128)
            invariant
                self@.wf_core(),
                self@.timer >= -(u32::MAX as int),
                run_ticks(s0, n).0 == self@,
                run_ticks(s0, n).1 == out.deep_view(),
                forall|m: nat|
                    m < n ==> (#[trigger] run_ticks(s0, m)).0.timer > run_ticks(s0, m).0.tempo,
            decreases vstd::math::max(self.timer as int, 0),
        {
            let ghost s_pre = self@;
            let ghost out_pre = out.deep_view();
            let mut o: Vec<Vec<u8>> = match self.format {
                MidiFileFormat::Sequential { current } => {
                    if current < self.tracks.len() {
                        let ghost r = tick_track(
                            s_pre.tracks[current as int],
                            s_pre.progress[current as int],
                            s_pre.tempo,
                        );
                        let o = self.update_track(current);
                        proof {
                            assert(self@.progress[current as int] == (ProgressView {
                                ticks: r.ticks,
                                next: r.next,
                            }));
                        }
                        if self.progress[current].next_event >= self.tracks[current].len() {
                            self.format = MidiFileFormat::Sequential { current: current + 1 };
                        }
                        proof {
                            assert(self@ =~~= tick_sched(s_pre).0);
                        }
                        o
                    } else {
                        let o: Vec<Vec<u8>> = Vec::new();
                        proof {
                            assert(self@ =~~= tick_sched(s_pre).0);
                            assert(o.deep_view() =~= Seq::<Seq<u8>>::empty());
                        }
                        o
                    }
                },
                MidiFileFormat::Parallel => self.update_all_tracks(),
            };
            proof {
                assert(self@ =~~= tick_sched(s_pre).0);
                assert(o.deep_view() =~~= tick_sched(s_pre).1);
            }
            if self.at_end_of_track() {
                if let Some(lp) = self.loop_point {
                    let mut o2 = self.seek_to(lp);
                    o.append(&mut o2);
                    proof {
                        assert(o.deep_view() =~~= tick_sched(s_pre).1 + all_sound_off_messages());
                    }
                }
            }
            proof {
                assert(self@.timer == s_pre.timer);
                assert(s_pre.timer > s_pre.tempo >= 0);
            }
            if self.tempo == 0 {
                self.timer = 0;
            } else {
                self.timer = self.timer - (self.tempo as i128);
            }
            out.append(&mut o);
            proof {
                assert(self@ =~~= tick_once(s_pre).0);
                assert(out.deep_view() =~~= out_pre + tick_once(s_pre).1);
                lemma_run_ticks_snoc(s0, n);
                n = n + 1;
                assert(run_ticks(s0, n).1 =~~= out.deep_view());
            }
        }
        proof {
            if delta_micros == 0 {
                let ppqn = old(self)@.ticks_per_beat;
                assert((delta_micros as int) * ppqn == 0) by (nonlinear_arith)
                    requires
                        delta_micros == 0,
                ;
                assert(s0.timer == old(self)@.timer);
                if n != 0 {
                    assert(run_ticks(s0, 0).0.timer > run_ticks(s0, 0).0.tempo);
                    assert(false);
                }
                assert(self@ =~~= old(self)@);
            }
            assert(update_run(old(self)@, delta_micros as int, n, self@, out.deep_view()));
        }
        out
    }

    /// Like `is_finished`, but ignores the loop point.
    fn at_end_of_track(&self) -> (r: bool)
        requires
            self@.wf_core(),
        ensures
            r == self@.at_end(),
    {
        match self.format {
            MidiFileFormat::Sequential { current } => self.tracks.len() <= current,
            MidiFileFormat::Parallel => {
                let mut i: usize = 0;
                while i < self.tracks.len()
                    invariant
                        self@.wf_core(),
                        self@.format is Parallel,
                        i <= self.tracks@.len(),
                        forall|k: int|
                            0 <= k < i as int ==> (#[trigger] self@.progress[k]).next
                                >= self@.tracks[k].len(),
                    decreases self.tracks@.len() - i,
                {
                    if self.progress[i].next_event < self.tracks[i].len() {
                        proof {
                            assert(self@.progress[i as int].next < self@.tracks[i as int].len());
                        }
                        return false;
                    }
                    i = i + 1;
                }
                true
            },
        }
    }

    /// True iff no loop point is set and the layout reports all tracks
    /// finished.
    pub fn is_finished(&self) -> (r: bool)
        requires
            self@.wf_core(),
        ensures
            r == self@.finished(),
    {
        if self.loop_point.is_some() {
            return false;
        }
        self.at_end_of_track()
    }
}

} // verus!
