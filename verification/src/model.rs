//! The mathematical model of the playback engine: an abstract engine state,
//! the per-tick transition function, and the seek rescan, all as spec
//! functions. The executable engine in `file` is proved to implement this
//! model step by step.

use vstd::prelude::*;

use crate::events::{all_sound_off_messages, EventKindView, EventView};

verus! {

/// Abstract per-track cursor: ticks accumulated since the last fired event,
/// and the index of the next pending event.
#[verifier::ext_equal]
pub struct ProgressView {
    /// Ticks since the last event of this track fired.
    pub ticks: int,
    /// Index of the next pending event; the track length means exhausted.
    pub next: int,
}

/// Abstract track layout state.
pub enum FormatView {
    /// One track plays at a time; `current` may equal the track count,
    /// the sentinel for "all tracks finished".
    Sequential { current: int },
    /// All tracks play simultaneously.
    Parallel,
}

/// Abstract state of the playback engine.
#[verifier::ext_equal]
pub struct EngineView {
    /// Pulses per quarter note, fixed at load time.
    pub ticks_per_beat: int,
    /// Microseconds per quarter note; 0 until the first tempo event fires.
    /// One tick lasts `tempo / ticks_per_beat` microseconds.
    pub tempo: int,
    /// Accumulated time not yet converted to ticks, in units of
    /// microseconds times `ticks_per_beat`.
    pub timer: int,
    /// The loop target in microseconds, if looping is enabled.
    pub loop_point: Option<int>,
    /// The track layout.
    pub format: FormatView,
    /// Per track, the ordered event list.
    pub tracks: Seq<Seq<EventView>>,
    /// Per track, the cursor.
    pub progress: Seq<ProgressView>,
    /// Whether playback is paused.
    pub paused: bool,
}

/// The largest value the per-track tick counter can hold.
pub open spec fn ticks_cap() -> int {
    u32::MAX as int
}

impl EngineView {
    /// Ranges and shape that every reachable engine state keeps, apart from
    /// the at-rest bound on the timer.
    pub open spec fn wf_core(self) -> bool {
        &&& 0 <= self.ticks_per_beat <= u16::MAX
        &&& 0 <= self.tempo <= u32::MAX
        &&& (self.loop_point matches Some(lp) ==> 0 <= lp <= u64::MAX)
        &&& self.progress.len() == self.tracks.len()
        &&& (self.format matches FormatView::Sequential { current } ==> 0 <= current
            <= self.tracks.len())
        &&& forall|i: int|
            0 <= i < self.tracks.len() ==> {
                &&& 0 <= (#[trigger] self.progress[i]).ticks <= ticks_cap()
                &&& 0 <= self.progress[i].next <= self.tracks[i].len()
            }
        &&& forall|i: int, j: int|
            0 <= i < self.tracks.len() && 0 <= j < self.tracks[i].len() ==> {
                &&& 0 <= (#[trigger] self.tracks[i][j]).delta <= u32::MAX
                &&& (self.tracks[i][j].kind matches EventKindView::Tempo(t) ==> 0 <= t
                    <= u32::MAX)
            }
    }

    /// Well-formedness of an engine state at rest: between operations the
    /// timer never exceeds the tempo (the update loop drains it) and never
    /// owes more than one tick's worth of time.
    pub open spec fn wf(self) -> bool {
        &&& self.wf_core()
        &&& -(u32::MAX as int) <= self.timer <= self.tempo
    }

    /// True when the layout reports all tracks finished, ignoring the loop
    /// point.
    pub open spec fn at_end(self) -> bool {
        match self.format {
            FormatView::Sequential { current } => current >= self.tracks.len(),
            FormatView::Parallel => forall|i: int|
                0 <= i < self.tracks.len() ==> (#[trigger] self.progress[i]).next
                    >= self.tracks[i].len(),
        }
    }

    /// True when playback is finished: no loop point is set and the layout
    /// reports all tracks finished. While a loop point is set the file is
    /// conceptually infinite.
    pub open spec fn finished(self) -> bool {
        self.loop_point is None && self.at_end()
    }
}

/// The tempo in force after an event payload fires.
pub open spec fn apply_tempo(kind: EventKindView, tempo: int) -> int {
    match kind {
        EventKindView::Tempo(t) => t,
        _ => tempo,
    }
}

/// The messages an event payload emits when it fires.
pub open spec fn emitted(kind: EventKindView) -> Seq<Seq<u8>> {
    match kind {
        EventKindView::ToSynth(bytes) => seq![bytes],
        _ => seq![],
    }
}

/// Outcome of advancing one track by one tick: the new cursor, the tempo in
/// force afterwards, and the messages emitted, in order.
#[verifier::ext_equal]
pub struct TickOutcome {
    /// Ticks since the last fired event, afterwards.
    pub ticks: int,
    /// Index of the next pending event, afterwards.
    pub next: int,
    /// Microseconds per quarter note in force afterwards.
    pub tempo: int,
    /// The emitted messages, in order.
    pub out: Seq<Seq<u8>>,
}

/// Fires every due event of a track in order: while the next pending event
/// exists and its delta does not exceed the ticks accumulated since the last
/// fired event, it fires (emitting its message or changing the tempo), the
/// tick counter resets to zero and the cursor advances.
pub open spec fn fire_due_events(track: Seq<EventView>, ticks: int, next: int, tempo: int)
    -> TickOutcome
    decreases track.len() - next,
{
    if next < 0 || next >= track.len() || track[next].delta > ticks {
        TickOutcome { ticks, next, tempo, out: seq![] }
    } else {
        let rest = fire_due_events(track, 0, next + 1, apply_tempo(track[next].kind, tempo));
        TickOutcome { out: emitted(track[next].kind) + rest.out, ..rest }
    }
}

/// The saturating increment of a per-track tick counter.
pub open spec fn inc_ticks(ticks: int) -> int {
    if ticks + 1 > ticks_cap() {
        ticks_cap()
    } else {
        ticks + 1
    }
}

/// Advances one track by one tick: the tick counter goes up by one, then
/// every due event fires.
pub open spec fn tick_track(track: Seq<EventView>, progress: ProgressView, tempo: int)
    -> TickOutcome {
    fire_due_events(track, inc_ticks(progress.ticks), progress.next, tempo)
}

/// Outcome of one scheduler tick over several tracks.
#[verifier::ext_equal]
pub struct SchedOutcome {
    /// All cursors, afterwards.
    pub progress: Seq<ProgressView>,
    /// Microseconds per quarter note in force afterwards.
    pub tempo: int,
    /// The emitted messages, in order.
    pub out: Seq<Seq<u8>>,
}

/// Advances every track from index `i` on by one tick, in track order,
/// threading the tempo through.
pub open spec fn tick_parallel(
    tracks: Seq<Seq<EventView>>,
    progress: Seq<ProgressView>,
    tempo: int,
    i: int,
) -> SchedOutcome
    decreases tracks.len() - i,
{
    if i < 0 || i >= tracks.len() {
        SchedOutcome { progress, tempo, out: seq![] }
    } else {
        let r = tick_track(tracks[i], progress[i], tempo);
        let rest = tick_parallel(
            tracks,
            progress.update(i, ProgressView { ticks: r.ticks, next: r.next }),
            r.tempo,
            i + 1,
        );
        SchedOutcome { out: r.out + rest.out, ..rest }
    }
}

/// One tick of the format scheduler: sequential advances only the current
/// track and moves to the next track once the current one is exhausted;
/// parallel advances every track. A sequential state whose current index has
/// reached the track count is finished and ticks do nothing.
pub open spec fn tick_sched(s: EngineView) -> (EngineView, Seq<Seq<u8>>) {
    match s.format {
        FormatView::Sequential { current } => {
            if 0 <= current < s.tracks.len() {
                let r = tick_track(s.tracks[current], s.progress[current], s.tempo);
                let format = if r.next >= s.tracks[current].len() {
                    FormatView::Sequential { current: current + 1 }
                } else {
                    s.format
                };
                (
                    EngineView {
                        tempo: r.tempo,
                        progress: s.progress.update(
                            current,
                            ProgressView { ticks: r.ticks, next: r.next },
                        ),
                        format,
                        ..s
                    },
                    r.out,
                )
            } else {
                (s, seq![])
            }
        },
        FormatView::Parallel => {
            let r = tick_parallel(s.tracks, s.progress, s.tempo, 0);
            (EngineView { tempo: r.tempo, progress: r.progress, ..s }, r.out)
        },
    }
}

/// The tick index a seek to the given time aims at: microseconds divided by
/// the microseconds-per-tick ratio, capped at the largest tick counter value.
/// With no tempo in force one tick lasts zero microseconds, so any positive
/// time lies beyond every tick.
pub open spec fn seek_target(s: EngineView, micros: int) -> int {
    if s.tempo == 0 {
        if micros == 0 {
            0
        } else {
            ticks_cap()
        }
    } else {
        let t = micros * s.ticks_per_beat / s.tempo;
        if t > ticks_cap() {
            ticks_cap()
        } else {
            t
        }
    }
}

/// The cursor index a seek lands on: the first event whose cumulative tick
/// offset exceeds the target, or the track length if none does.
pub open spec fn seek_index(track: Seq<EventView>, target: int) -> int
    decreases track.len(),
{
    if track.len() == 0 {
        0
    } else if track[0].delta > target {
        0
    } else {
        1 + seek_index(track.drop_first(), target - track[0].delta)
    }
}

/// The tick counter a seek leaves behind: the target minus the cumulative
/// tick offset consumed by the events skipped over.
pub open spec fn seek_remainder(track: Seq<EventView>, target: int) -> int
    decreases track.len(),
{
    if track.len() == 0 {
        target
    } else if track[0].delta > target {
        target
    } else {
        seek_remainder(track.drop_first(), target - track[0].delta)
    }
}

/// The state after a seek to the given time in microseconds: every cursor is
/// rescanned from the start of its track; nothing else changes.
pub open spec fn seek_state(s: EngineView, micros: int) -> EngineView {
    let target = seek_target(s, micros);
    EngineView {
        progress: Seq::new(
            s.tracks.len(),
            |i: int|
                ProgressView {
                    ticks: seek_remainder(s.tracks[i], target),
                    next: seek_index(s.tracks[i], target),
                },
        ),
        ..s
    }
}

/// One full tick of the engine: the scheduler advances, then, if the layout
/// reports finished and a loop point is set, the engine seeks to the loop
/// point (emitting the safety broadcast first), and finally one tick's worth
/// of time leaves the timer. While no tempo is in force a tick lasts zero
/// microseconds, so the remaining budget is discarded instead: at most one
/// tick happens per update call until a tempo event fires, which keeps
/// updates finite on files that never set a tempo.
pub open spec fn tick_once(s: EngineView) -> (EngineView, Seq<Seq<u8>>) {
    let (s1, out1) = tick_sched(s);
    let (s2, out2) = if s1.at_end() && s1.loop_point is Some {
        (seek_state(s1, s1.loop_point->Some_0), out1 + all_sound_off_messages())
    } else {
        (s1, out1)
    };
    (
        EngineView {
            timer: if s2.tempo == 0 {
                0
            } else {
                s2.timer - s2.tempo
            },
            ..s2
        },
        out2,
    )
}

/// `n` full ticks of the engine, with all emitted messages concatenated in
/// order.
pub open spec fn run_ticks(s: EngineView, n: nat) -> (EngineView, Seq<Seq<u8>>)
    decreases n,
{
    if n == 0 {
        (s, seq![])
    } else {
        let (s1, out1) = tick_once(s);
        let (s2, out2) = run_ticks(s1, (n - 1) as nat);
        (s2, out1 + out2)
    }
}

/// The cumulative tick offset of a track prefix: the sum of the delta times
/// of its first `m` events.
pub open spec fn prefix_delta(track: Seq<EventView>, m: int) -> int
    decreases m,
{
    if m <= 0 {
        0
    } else {
        prefix_delta(track, m - 1) + track[m - 1].delta
    }
}

/// Dropping the first event shifts prefix sums by that event's delta.
pub proof fn lemma_prefix_delta_drop_first(track: Seq<EventView>, m: int)
    requires
        track.len() > 0,
        0 <= m <= track.len() - 1,
    ensures
        prefix_delta(track.drop_first(), m) == prefix_delta(track, m + 1) - track[0].delta,
    decreases m,
{
    if m > 0 {
        lemma_prefix_delta_drop_first(track, m - 1);
        assert(track.drop_first()[m - 1] == track[m]);
    } else {
        assert(prefix_delta(track.drop_first(), 0) == 0);
        assert(prefix_delta(track, 0) == 0);
    }
}

/// Where a seek lands: the cursor index is the first event whose cumulative
/// tick offset exceeds the target — every event before it stays within the
/// target, and the event itself, if the track holds one, exceeds it.
pub proof fn lemma_seek_index_is_first_exceeding(track: Seq<EventView>, target: int)
    requires
        target >= 0,
        forall|j: int| 0 <= j < track.len() ==> (#[trigger] track[j]).delta >= 0,
    ensures
        0 <= seek_index(track, target) <= track.len(),
        forall|j: int|
            0 <= j < seek_index(track, target) ==> #[trigger] prefix_delta(track, j + 1)
                <= target,
        seek_index(track, target) < track.len() ==> prefix_delta(
            track,
            seek_index(track, target) + 1,
        ) > target,
    decreases track.len(),
{
    if track.len() == 0 {
    } else if track[0].delta > target {
        assert(prefix_delta(track, 0) == 0);
        assert(prefix_delta(track, 1) == track[0].delta);
    } else {
        let rest = track.drop_first();
        assert(forall|j: int|
            0 <= j < rest.len() ==> (#[trigger] rest[j]).delta == track[j + 1].delta >= 0);
        lemma_seek_index_is_first_exceeding(rest, target - track[0].delta);
        let k = seek_index(track, target);
        assert(k == 1 + seek_index(rest, target - track[0].delta));
        assert forall|j: int| 0 <= j < k implies #[trigger] prefix_delta(track, j + 1)
            <= target by {
            if j > 0 {
                lemma_prefix_delta_drop_first(track, j);
            } else {
                assert(prefix_delta(track, 0) == 0);
                assert(prefix_delta(track, 1) == track[0].delta);
            }
        }
        if k < track.len() {
            lemma_prefix_delta_drop_first(track, k);
        }
    }
}

/// What a seek leaves on the tick counter: the target minus the cumulative
/// tick offset of the events skipped over.
pub proof fn lemma_seek_remainder_consumed(track: Seq<EventView>, target: int)
    requires
        target >= 0,
        forall|j: int| 0 <= j < track.len() ==> (#[trigger] track[j]).delta >= 0,
    ensures
        seek_remainder(track, target) == target - prefix_delta(track, seek_index(track, target)),
    decreases track.len(),
{
    if track.len() == 0 {
    } else if track[0].delta > target {
    } else {
        let rest = track.drop_first();
        assert(forall|j: int|
            0 <= j < rest.len() ==> (#[trigger] rest[j]).delta == track[j + 1].delta >= 0);
        lemma_seek_remainder_consumed(rest, target - track[0].delta);
        let k = seek_index(track, target);
        assert(k == 1 + seek_index(rest, target - track[0].delta));
        lemma_seek_index_is_first_exceeding(rest, target - track[0].delta);
        lemma_prefix_delta_drop_first(track, k - 1);
    }
}

/// While a loop point is set, the engine never reports finished: the file is
/// conceptually infinite.
pub proof fn lemma_loop_point_never_finished(s: EngineView)
    requires
        s.loop_point is Some,
    ensures
        !s.finished(),
{
}

/// Firing due events never moves a cursor backwards.
pub proof fn lemma_fire_due_monotonic(track: Seq<EventView>, ticks: int, next: int, tempo: int)
    ensures
        fire_due_events(track, ticks, next, tempo).next >= next,
    decreases track.len() - next,
{
    if !(next < 0 || next >= track.len() || track[next].delta > ticks) {
        lemma_fire_due_monotonic(track, 0, next + 1, apply_tempo(track[next].kind, tempo));
    }
}

/// A parallel scheduler tick keeps the cursor list's length and never moves
/// any cursor backwards.
pub proof fn lemma_tick_parallel_monotonic(
    tracks: Seq<Seq<EventView>>,
    progress: Seq<ProgressView>,
    tempo: int,
    i: int,
)
    requires
        progress.len() == tracks.len(),
    ensures
        tick_parallel(tracks, progress, tempo, i).progress.len() == progress.len(),
        forall|k: int|
            0 <= k < progress.len() ==> (#[trigger] tick_parallel(
                tracks,
                progress,
                tempo,
                i,
            ).progress[k]).next >= progress[k].next,
    decreases tracks.len() - i,
{
    if 0 <= i < tracks.len() {
        let r = tick_track(tracks[i], progress[i], tempo);
        lemma_fire_due_monotonic(tracks[i], inc_ticks(progress[i].ticks), progress[i].next, tempo);
        lemma_tick_parallel_monotonic(
            tracks,
            progress.update(i, ProgressView { ticks: r.ticks, next: r.next }),
            r.tempo,
            i + 1,
        );
    }
}

/// One full tick without a loop point set keeps the tracks, keeps the loop
/// point clear, keeps the cursor list's length and never moves any cursor
/// backwards.
pub proof fn lemma_tick_once_monotonic(s: EngineView)
    requires
        s.progress.len() == s.tracks.len(),
        s.loop_point is None,
    ensures
        tick_once(s).0.tracks == s.tracks,
        tick_once(s).0.loop_point is None,
        tick_once(s).0.progress.len() == s.progress.len(),
        forall|i: int|
            0 <= i < s.progress.len() ==> (#[trigger] tick_once(s).0.progress[i]).next
                >= s.progress[i].next,
{
    match s.format {
        FormatView::Sequential { current } => {
            if 0 <= current < s.tracks.len() {
                lemma_fire_due_monotonic(
                    s.tracks[current],
                    inc_ticks(s.progress[current].ticks),
                    s.progress[current].next,
                    s.tempo,
                );
            }
        },
        FormatView::Parallel => {
            lemma_tick_parallel_monotonic(s.tracks, s.progress, s.tempo, 0);
        },
    }
}

/// Between two states of one update run that cannot cross a seek or loop
/// boundary (no loop point is set, so no automatic seek can happen), every
/// track's next-event cursor is non-decreasing, however many ticks pass.
pub proof fn lemma_progress_monotonic(s: EngineView, n: nat)
    requires
        s.progress.len() == s.tracks.len(),
        s.loop_point is None,
    ensures
        run_ticks(s, n).0.tracks == s.tracks,
        run_ticks(s, n).0.loop_point is None,
        run_ticks(s, n).0.progress.len() == s.progress.len(),
        forall|i: int|
            0 <= i < s.progress.len() ==> (#[trigger] run_ticks(s, n).0.progress[i]).next
                >= s.progress[i].next,
    decreases n,
{
    if n > 0 {
        lemma_tick_once_monotonic(s);
        lemma_progress_monotonic(tick_once(s).0, (n - 1) as nat);
    }
}

/// The image of one tick under a sequential layout with a playable current
/// track: only the current track advances and emits, the tempo follows that
/// track's fired events, and the scheduler moves to the next track exactly
/// when the current track's cursor reaches its end. Together with the
/// monotonicity of the current index this is why, under a sequential layout,
/// every message of one track is emitted before any message of a later
/// track.
pub proof fn lemma_sequential_tick(s: EngineView, current: int)
    requires
        s.progress.len() == s.tracks.len(),
        s.format == (FormatView::Sequential { current }),
        0 <= current < s.tracks.len(),
    ensures
        ({
            let r = tick_track(s.tracks[current], s.progress[current], s.tempo);
            &&& tick_sched(s).1 == r.out
            &&& tick_sched(s).0.progress[current] == (ProgressView {
                ticks: r.ticks,
                next: r.next,
            })
            &&& forall|k: int|
                0 <= k < s.progress.len() && k != current ==> #[trigger] tick_sched(
                    s,
                ).0.progress[k] == s.progress[k]
            &&& tick_sched(s).0.format == if r.next >= s.tracks[current].len() {
                FormatView::Sequential { current: current + 1 }
            } else {
                s.format
            }
        }),
{
}

/// The scheduler's current index under a sequential layout, or zero under a
/// parallel one.
pub open spec fn sequential_current(format: FormatView) -> int {
    match format {
        FormatView::Sequential { current } => current,
        FormatView::Parallel => 0,
    }
}

/// Under a sequential layout with no loop point set, the current track index
/// never decreases: once the scheduler has moved past a track, that track is
/// never played again.
pub proof fn lemma_sequential_current_monotonic(s: EngineView, n: nat)
    requires
        s.progress.len() == s.tracks.len(),
        s.loop_point is None,
        s.format is Sequential,
    ensures
        run_ticks(s, n).0.format is Sequential,
        sequential_current(run_ticks(s, n).0.format) >= sequential_current(s.format),
    decreases n,
{
    if n > 0 {
        lemma_tick_once_monotonic(s);
        lemma_sequential_current_monotonic(tick_once(s).0, (n - 1) as nat);
    }
}

/// Running one more tick is the same as running the ticks so far and then
/// one tick from where they ended.
pub proof fn lemma_run_ticks_snoc(s: EngineView, n: nat)
    ensures
        run_ticks(s, n + 1).0 == tick_once(run_ticks(s, n).0).0,
        run_ticks(s, n + 1).1 == run_ticks(s, n).1 + tick_once(run_ticks(s, n).0).1,
    decreases n,
{
    let (s1, out1) = tick_once(s);
    if n == 0 {
        assert(run_ticks(s1, 0).1 =~= Seq::<Seq<u8>>::empty());
        assert(out1 + run_ticks(s1, 0).1 =~= out1);
        assert(run_ticks(s, 0).1 + tick_once(s).1 =~= out1);
    } else {
        lemma_run_ticks_snoc(s1, (n - 1) as nat);
        assert(run_ticks(s, n + 1).1 =~= run_ticks(s, n).1 + tick_once(run_ticks(s, n).0).1);
    }
}

/// Ticks touch the timer but never the clock resolution, the event lists,
/// the loop point or the paused flag.
pub proof fn lemma_run_ticks_preserves_settings(s: EngineView, n: nat)
    ensures
        run_ticks(s, n).0.ticks_per_beat == s.ticks_per_beat,
        run_ticks(s, n).0.tracks == s.tracks,
        run_ticks(s, n).0.loop_point == s.loop_point,
        run_ticks(s, n).0.paused == s.paused,
    decreases n,
{
    if n > 0 {
        lemma_run_ticks_preserves_settings(tick_once(s).0, (n - 1) as nat);
    }
}

/// True when every tempo payload in the event lists is non-negative, as any
/// payload a loaded file holds is.
pub open spec fn tempo_payloads_nonneg(tracks: Seq<Seq<EventView>>) -> bool {
    forall|i: int, j: int|
        0 <= i < tracks.len() && 0 <= j < tracks[i].len() ==> ((#[trigger] tracks[i][j]).kind
            matches EventKindView::Tempo(t) ==> t >= 0)
}

/// Firing due events keeps the tempo non-negative when every payload is.
proof fn lemma_fire_due_tempo_nonneg(track: Seq<EventView>, ticks: int, next: int, tempo: int)
    requires
        tempo >= 0,
        forall|j: int|
            0 <= j < track.len() ==> ((#[trigger] track[j]).kind matches EventKindView::Tempo(t)
                ==> t >= 0),
    ensures
        fire_due_events(track, ticks, next, tempo).tempo >= 0,
    decreases track.len() - next,
{
    if !(next < 0 || next >= track.len() || track[next].delta > ticks) {
        lemma_fire_due_tempo_nonneg(track, 0, next + 1, apply_tempo(track[next].kind, tempo));
    }
}

/// A parallel scheduler tick keeps the tempo non-negative when every payload
/// is.
proof fn lemma_tick_parallel_tempo_nonneg(
    tracks: Seq<Seq<EventView>>,
    progress: Seq<ProgressView>,
    tempo: int,
    i: int,
)
    requires
        tempo >= 0,
        tempo_payloads_nonneg(tracks),
    ensures
        tick_parallel(tracks, progress, tempo, i).tempo >= 0,
    decreases tracks.len() - i,
{
    if 0 <= i < tracks.len() {
        let r = tick_track(tracks[i], progress[i], tempo);
        lemma_fire_due_tempo_nonneg(tracks[i], inc_ticks(progress[i].ticks), progress[i].next, tempo);
        lemma_tick_parallel_tempo_nonneg(
            tracks,
            progress.update(i, ProgressView { ticks: r.ticks, next: r.next }),
            r.tempo,
            i + 1,
        );
    }
}

/// Any number of ticks keeps the tempo non-negative when every payload is.
pub proof fn lemma_run_ticks_tempo_nonneg(s: EngineView, n: nat)
    requires
        s.tempo >= 0,
        tempo_payloads_nonneg(s.tracks),
    ensures
        run_ticks(s, n).0.tempo >= 0,
        tick_sched(run_ticks(s, n).0).0.tempo >= 0,
    decreases n,
{
    lemma_run_ticks_preserves_settings(s, n);
    if n == 0 {
        lemma_tick_sched_tempo_nonneg(s);
    } else {
        lemma_tick_sched_tempo_nonneg(s);
        lemma_run_ticks_tempo_nonneg(tick_once(s).0, (n - 1) as nat);
    }
}

/// One scheduler tick keeps the tempo non-negative when every payload is.
proof fn lemma_tick_sched_tempo_nonneg(s: EngineView)
    requires
        s.tempo >= 0,
        tempo_payloads_nonneg(s.tracks),
    ensures
        tick_sched(s).0.tempo >= 0,
        tick_once(s).0.tempo >= 0,
        tick_once(s).0.tracks == s.tracks,
{
    match s.format {
        FormatView::Sequential { current } => {
            if 0 <= current < s.tracks.len() {
                lemma_fire_due_tempo_nonneg(
                    s.tracks[current],
                    inc_ticks(s.progress[current].ticks),
                    s.progress[current].next,
                    s.tempo,
                );
            }
        },
        FormatView::Parallel => {
            lemma_tick_parallel_tempo_nonneg(s.tracks, s.progress, s.tempo, 0);
        },
    }
}

/// Running ticks in two legs is the same as running their sum, with the
/// emitted messages concatenated.
pub proof fn lemma_run_ticks_add(s: EngineView, n1: nat, n2: nat)
    ensures
        run_ticks(s, n1 + n2).0 == run_ticks(run_ticks(s, n1).0, n2).0,
        run_ticks(s, n1 + n2).1 == run_ticks(s, n1).1 + run_ticks(run_ticks(s, n1).0, n2).1,
    decreases n1,
{
    if n1 == 0 {
        assert(run_ticks(s, 0).1 + run_ticks(run_ticks(s, 0).0, n2).1 =~= run_ticks(s, n2).1);
    } else {
        let (s1, out1) = tick_once(s);
        lemma_run_ticks_add(s1, (n1 - 1) as nat, n2);
        assert(run_ticks(s, n1 + n2).1 =~= run_ticks(s, n1).1 + run_ticks(
            run_ticks(s, n1).0,
            n2,
        ).1);
    }
}

/// One tick commutes with adding time to the timer, as long as the tick does
/// not end with the tempo unset: the scheduler and the seek never read the
/// timer, so only the closing timer arithmetic matters, and with a tempo in
/// force it just subtracts.
pub proof fn lemma_tick_once_timer_shift(s: EngineView, extra: int)
    requires
        tick_once(s).0.tempo > 0,
    ensures
        tick_once(EngineView { timer: s.timer + extra, ..s }).0 == (EngineView {
            timer: tick_once(s).0.timer + extra,
            ..tick_once(s).0
        }),
        tick_once(EngineView { timer: s.timer + extra, ..s }).1 == tick_once(s).1,
{
    let s_shift = EngineView { timer: s.timer + extra, ..s };
    match s.format {
        FormatView::Sequential { current } => {
            assert(tick_sched(s_shift).0 =~~= (EngineView {
                timer: s.timer + extra,
                ..tick_sched(s).0
            }));
            assert(tick_sched(s_shift).1 == tick_sched(s).1);
        },
        FormatView::Parallel => {
            assert(tick_sched(s_shift).0 =~~= (EngineView {
                timer: s.timer + extra,
                ..tick_sched(s).0
            }));
            assert(tick_sched(s_shift).1 == tick_sched(s).1);
        },
    }
    let s1 = tick_sched(s).0;
    let s1x = tick_sched(s_shift).0;
    assert(s1x.format == s1.format && s1x.progress == s1.progress && s1x.tracks == s1.tracks
        && s1x.tempo == s1.tempo && s1x.loop_point == s1.loop_point);
    assert(s1x.at_end() == s1.at_end());
    let s2 = if s1.at_end() && s1.loop_point is Some {
        seek_state(s1, s1.loop_point->Some_0)
    } else {
        s1
    };
    let s2x = if s1x.at_end() && s1x.loop_point is Some {
        seek_state(s1x, s1x.loop_point->Some_0)
    } else {
        s1x
    };
    if s1.at_end() && s1.loop_point is Some {
        assert(seek_state(s1x, s1x.loop_point->Some_0) =~~= (EngineView {
            timer: s.timer + extra,
            ..seek_state(s1, s1.loop_point->Some_0)
        }));
    }
    assert(s2x =~~= (EngineView { timer: s.timer + extra, ..s2 }));
    assert(tick_once(s).0 == (EngineView {
        timer: if s2.tempo == 0 {
            0
        } else {
            s2.timer - s2.tempo
        },
        ..s2
    }));
    assert(s2.tempo > 0);
    assert(tick_once(s_shift).0 =~~= (EngineView {
        timer: tick_once(s).0.timer + extra,
        ..tick_once(s).0
    }));
}

/// Any number of ticks commutes with adding time to the timer, while no tick
/// ends with the tempo unset.
pub proof fn lemma_run_ticks_timer_shift(s: EngineView, extra: int, n: nat)
    requires
        forall|m: nat| 1 <= m <= n ==> (#[trigger] run_ticks(s, m)).0.tempo > 0,
    ensures
        run_ticks(EngineView { timer: s.timer + extra, ..s }, n).0 == (EngineView {
            timer: run_ticks(s, n).0.timer + extra,
            ..run_ticks(s, n).0
        }),
        run_ticks(EngineView { timer: s.timer + extra, ..s }, n).1 == run_ticks(s, n).1,
    decreases n,
{
    if n == 0 {
        assert(run_ticks(EngineView { timer: s.timer + extra, ..s }, 0).0 =~~= (EngineView {
            timer: run_ticks(s, 0).0.timer + extra,
            ..run_ticks(s, 0).0
        }));
    } else {
        assert(run_ticks(tick_once(s).0, 0).0 == tick_once(s).0);
        assert(run_ticks(s, 1).0 == tick_once(s).0);
        lemma_tick_once_timer_shift(s, extra);
        let s1 = tick_once(s).0;
        assert(forall|m: nat|
            1 <= m <= n - 1 ==> (#[trigger] run_ticks(s1, m)).0 == run_ticks(s, (m + 1) as nat).0);
        lemma_run_ticks_timer_shift(s1, extra, (n - 1) as nat);
        assert(run_ticks(EngineView { timer: s.timer + extra, ..s }, n).1 =~= run_ticks(s, n).1);
    }
}

/// Supplying elapsed time in two update calls is the same as supplying the
/// sum in one call: the same ticks happen, in the same order, and the same
/// messages are emitted — playback does not depend on how the caller groups
/// its time increments. The one proviso: no tick of the first call may end
/// with the tempo unset, for such a tick discards the remaining budget and a
/// later increment cannot restore it.
pub proof fn lemma_update_runs_compose(
    s: EngineView,
    a: int,
    b: int,
    n1: nat,
    n2: nat,
    s1: EngineView,
    s2: EngineView,
    out1: Seq<Seq<u8>>,
    out2: Seq<Seq<u8>>,
)
    requires
        a >= 0,
        b >= 0,
        s.ticks_per_beat >= 0,
        update_run(s, a, n1, s1, out1),
        update_run(s1, b, n2, s2, out2),
        forall|m: nat|
            1 <= m <= n1 ==> (#[trigger] run_ticks(feed_timer(s, a), m)).0.tempo > 0,
    ensures
        update_run(s, a + b, n1 + n2, s2, out1 + out2),
{
    let ppqn = s.ticks_per_beat;
    let extra = b * ppqn;
    assert(extra >= 0 && (a + b) * ppqn == a * ppqn + extra) by (nonlinear_arith)
        requires
            a >= 0,
            b >= 0,
            ppqn >= 0,
            extra == b * ppqn,
    ;
    let s_a = feed_timer(s, a);
    let s_ab = feed_timer(s, a + b);
    assert(s_ab =~~= (EngineView { timer: s_a.timer + extra, ..s_a }));
    lemma_run_ticks_timer_shift(s_a, extra, n1);
    lemma_run_ticks_preserves_settings(s_a, n1);
    assert(run_ticks(s_a, n1).0 == s1 && run_ticks(s_a, n1).1 == out1);
    assert(s1.ticks_per_beat == ppqn);
    assert(run_ticks(s_ab, n1).0 =~~= feed_timer(s1, b));
    assert(run_ticks(s_ab, n1).1 == out1);
    lemma_run_ticks_add(s_ab, n1, n2);
    assert(run_ticks(feed_timer(s1, b), n2).0 == s2 && run_ticks(feed_timer(s1, b), n2).1
        == out2);
    assert(run_ticks(s_ab, n1 + n2).0 == s2);
    assert(run_ticks(s_ab, n1 + n2).1 =~= out1 + out2);
    assert forall|m: nat| m < n1 + n2 implies (#[trigger] run_ticks(s_ab, m)).0.timer
        > run_ticks(s_ab, m).0.tempo by {
        if m < n1 {
            lemma_run_ticks_timer_shift(s_a, extra, m);
            assert(run_ticks(s_a, m).0.timer > run_ticks(s_a, m).0.tempo);
        } else {
            lemma_run_ticks_add(s_ab, n1, (m - n1) as nat);
            assert(run_ticks(s_ab, m).0 == run_ticks(feed_timer(s1, b), (m - n1) as nat).0);
            assert(run_ticks(feed_timer(s1, b), (m - n1) as nat).0.timer > run_ticks(
                feed_timer(s1, b),
                (m - n1) as nat,
            ).0.tempo);
        }
    }
}

/// The state an update call starts from: the elapsed microseconds, scaled by
/// pulses per quarter note, enter the timer.
pub open spec fn feed_timer(s: EngineView, delta_micros: int) -> EngineView {
    EngineView { timer: s.timer + delta_micros * s.ticks_per_beat, ..s }
}

/// What an update call on a state that is neither paused nor finished does:
/// the elapsed time enters the timer, and then ticks happen exactly as long
/// as the timer exceeds one tick's worth of time. The tick count `n` is
/// uniquely determined: every proper prefix of the run still meets the tick
/// condition, and after the last tick the timer no longer does.
pub open spec fn update_run(
    s: EngineView,
    delta_micros: int,
    n: nat,
    s_end: EngineView,
    out: Seq<Seq<u8>>,
) -> bool {
    let s0 = feed_timer(s, delta_micros);
    &&& run_ticks(s0, n) == (s_end, out)
    &&& s_end.timer <= s_end.tempo
    &&& forall|m: nat|
        m < n ==> (#[trigger] run_ticks(s0, m)).0.timer > run_ticks(s0, m).0.tempo
}

/// Tempo arithmetic: when the event a tick fires is a tempo change, the new
/// value applies at once — to the remainder of that very tick's firing chain
/// and to every later tick-duration decision. When the event after it is not
/// yet due, the tick's outcome tempo is exactly the payload: with pulses per
/// quarter note 480 and payload 500000, one tick then lasts 500000/480
/// microseconds (see `lemma_tick_threshold` for the exact boundary).
pub proof fn lemma_tempo_applies_immediately(
    track: Seq<EventView>,
    progress: ProgressView,
    tempo: int,
    t: int,
)
    requires
        0 <= progress.next < track.len(),
        track[progress.next].kind == EventKindView::Tempo(t),
        track[progress.next].delta <= inc_ticks(progress.ticks),
        progress.next + 1 < track.len() ==> track[progress.next + 1].delta > 0,
    ensures
        tick_track(track, progress, tempo).tempo == t,
        tick_track(track, progress, tempo).next == progress.next + 1,
{
    assert(fire_due_events(track, 0, progress.next + 1, t).tempo == t);
    assert(fire_due_events(track, 0, progress.next + 1, t).next == progress.next + 1);
}

/// One tick's worth of time is exactly tempo / ticks_per_beat microseconds,
/// with no rounding: an update produces at least one tick if and only if the
/// timer, scaled by pulses per quarter note, strictly passes the tempo. With
/// 480 pulses per quarter note, tempo 500000 and a zero timer, a tick
/// completes exactly when delta * 480 > 500000 — beyond 1041 and within
/// 1042 microseconds, the integer bracket of 500000/480.
pub proof fn lemma_tick_threshold(
    s: EngineView,
    delta: int,
    n: nat,
    s_end: EngineView,
    out: Seq<Seq<u8>>,
)
    requires
        update_run(s, delta, n, s_end, out),
    ensures
        n >= 1 <==> s.timer + delta * s.ticks_per_beat > s.tempo,
{
    let s0 = feed_timer(s, delta);
    if n >= 1 {
        assert(run_ticks(s0, 0).0.timer > run_ticks(s0, 0).0.tempo);
    } else {
        assert(run_ticks(s0, 0).0 == s0);
    }
}

/// Under a sequential layout with no loop point set, messages of an earlier
/// track always come strictly before messages of a later track: each tick
/// emits only messages of the track then current (`lemma_sequential_tick`),
/// a run's output only ever grows at its end, and between any two points of
/// a run the current track index never decreases — so every tick that plays
/// one track comes before every tick that plays a later one.
pub proof fn lemma_sequential_cross_track_order(s: EngineView, m1: nat, m2: nat)
    requires
        s.progress.len() == s.tracks.len(),
        s.loop_point is None,
        s.format is Sequential,
        m1 <= m2,
    ensures
        run_ticks(s, m1).0.format is Sequential,
        run_ticks(s, m2).0.format is Sequential,
        sequential_current(run_ticks(s, m1).0.format) <= sequential_current(
            run_ticks(s, m2).0.format,
        ),
        run_ticks(s, m2).1 == run_ticks(s, m1).1 + run_ticks(
            run_ticks(s, m1).0,
            (m2 - m1) as nat,
        ).1,
{
    lemma_sequential_current_monotonic(s, m1);
    lemma_progress_monotonic(s, m1);
    let mid = run_ticks(s, m1).0;
    lemma_sequential_current_monotonic(mid, (m2 - m1) as nat);
    lemma_run_ticks_add(s, m1, (m2 - m1) as nat);
}

/// A seek target is never negative.
proof fn lemma_seek_target_nonneg(s: EngineView, micros: int)
    requires
        micros >= 0,
        s.ticks_per_beat >= 0,
        s.tempo >= 0,
    ensures
        seek_target(s, micros) >= 0,
{
    if s.tempo != 0 {
        assert(micros * s.ticks_per_beat >= 0) by (nonlinear_arith)
            requires
                micros >= 0,
                s.ticks_per_beat >= 0,
        ;
        vstd::arithmetic::div_mod::lemma_div_is_ordered(
            0,
            micros * s.ticks_per_beat,
            s.tempo,
        );
        vstd::arithmetic::div_mod::lemma_div_basics(s.tempo);
    }
}

/// The loop round trip: ticks never clear a set loop point, so the engine
/// never reports finished; and in any tick whose scheduler step reaches the
/// end of the file, the automatic seek applies before any remaining tick
/// budget is consumed — the safety broadcast is appended after that tick's
/// own messages, and every track's cursor lands on the first event whose
/// cumulative tick offset exceeds the target derived from the loop point and
/// the tempo then in force.
pub proof fn lemma_loop_round_trip(s: EngineView, n: nat, lp: int)
    requires
        s.wf_core(),
        s.loop_point == Some(lp),
        0 <= lp,
    ensures
        run_ticks(s, n).0.loop_point == Some(lp),
        !run_ticks(s, n).0.finished(),
        ({
            let before = run_ticks(s, n).0;
            let mid = tick_sched(before).0;
            let target = seek_target(mid, lp);
            let after = run_ticks(s, n + 1).0;
            mid.at_end() ==> {
                &&& run_ticks(s, n + 1).1 == run_ticks(s, n).1 + (tick_sched(before).1
                    + all_sound_off_messages())
                &&& after.progress.len() == mid.tracks.len()
                &&& forall|t: int|
                    0 <= t < mid.tracks.len() ==> (#[trigger] after.progress[t]).next
                        == seek_index(mid.tracks[t], target)
                &&& forall|t: int, j: int|
                    0 <= t < mid.tracks.len() && 0 <= j < seek_index(mid.tracks[t], target)
                        ==> #[trigger] prefix_delta(mid.tracks[t], j + 1) <= target
                &&& forall|t: int|
                    0 <= t < mid.tracks.len() && seek_index(mid.tracks[t], target)
                        < mid.tracks[t].len() ==> #[trigger] prefix_delta(
                        mid.tracks[t],
                        seek_index(mid.tracks[t], target) + 1,
                    ) > target
            }
        }),
{
    lemma_run_ticks_preserves_settings(s, n);
    lemma_run_ticks_tempo_nonneg(s, n);
    let before = run_ticks(s, n).0;
    let mid = tick_sched(before).0;
    assert(mid.tracks == s.tracks && mid.loop_point == Some(lp) && mid.ticks_per_beat
        == s.ticks_per_beat) by {
        lemma_tick_sched_shape(before);
    }
    lemma_run_ticks_snoc(s, n);
    if mid.at_end() {
        let target = seek_target(mid, lp);
        lemma_seek_target_nonneg(mid, lp);
        let after = run_ticks(s, n + 1).0;
        assert(after.progress == seek_state(mid, lp).progress);
        assert forall|t: int| 0 <= t < mid.tracks.len() implies (#[trigger] after.progress[t]).next
            == seek_index(mid.tracks[t], target) by {}
        assert forall|t: int, j: int|
            0 <= t < mid.tracks.len() && 0 <= j < seek_index(mid.tracks[t], target)
            implies #[trigger] prefix_delta(mid.tracks[t], j + 1) <= target by {
            lemma_seek_index_is_first_exceeding(mid.tracks[t], target);
        }
        assert forall|t: int|
            0 <= t < mid.tracks.len() && seek_index(mid.tracks[t], target) < mid.tracks[t].len()
            implies #[trigger] prefix_delta(
            mid.tracks[t],
            seek_index(mid.tracks[t], target) + 1,
        ) > target by {
            lemma_seek_index_is_first_exceeding(mid.tracks[t], target);
        }
    }
}

/// One scheduler tick keeps the event lists, the loop point and the clock
/// resolution.
proof fn lemma_tick_sched_shape(s: EngineView)
    ensures
        tick_sched(s).0.tracks == s.tracks,
        tick_sched(s).0.loop_point == s.loop_point,
        tick_sched(s).0.ticks_per_beat == s.ticks_per_beat,
{
}

/// The update relation pins its outcome: for one starting state and one
/// time increment there is exactly one tick count, one final state and one
/// message list that satisfy it.
pub proof fn lemma_update_run_deterministic(
    s: EngineView,
    delta: int,
    n1: nat,
    n2: nat,
    end1: EngineView,
    end2: EngineView,
    out1: Seq<Seq<u8>>,
    out2: Seq<Seq<u8>>,
)
    requires
        update_run(s, delta, n1, end1, out1),
        update_run(s, delta, n2, end2, out2),
    ensures
        n1 == n2,
        end1 == end2,
        out1 == out2,
{
    let s0 = feed_timer(s, delta);
    if n1 < n2 {
        assert(run_ticks(s0, n1).0.timer > run_ticks(s0, n1).0.tempo);
        assert(false);
    }
    if n2 < n1 {
        assert(run_ticks(s0, n2).0.timer > run_ticks(s0, n2).0.tempo);
        assert(false);
    }
}

} // verus!
