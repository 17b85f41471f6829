use lyrica::{MidiFile, ParsedEvent, ParsedEventKind, ParsedFile, ParsedFormat, ParsedTiming};

fn event(delta: u32, kind: ParsedEventKind) -> ParsedEvent {
    ParsedEvent { delta, kind }
}

fn voice(delta: u32, bytes: &[u8]) -> ParsedEvent {
    event(delta, ParsedEventKind::ChannelVoice(bytes.to_vec()))
}

fn load(format: ParsedFormat, ppqn: u16, tracks: Vec<Vec<ParsedEvent>>) -> MidiFile {
    MidiFile::from_parsed(ParsedFile { timing: ParsedTiming::Metrical(ppqn), format, tracks })
        .unwrap()
}

fn all_sound_off_messages() -> Vec<Vec<u8>> {
    (0u8..16).map(|ch| vec![0xB0 + ch, 123, 0]).collect()
}

#[test]
fn tempo_arithmetic_500000_over_480() {
    // With 480 pulses per quarter note and a tempo of 500000 microseconds
    // per quarter note, one tick lasts 500000/480 microseconds, a little
    // under 1041.7: 1041 microseconds never complete a tick, 1042 do.
    let mut midi = load(
        ParsedFormat::SingleTrack,
        480,
        vec![vec![
            event(0, ParsedEventKind::Tempo(500000)),
            voice(1, &[0x90, 0x40, 0x40]),
        ]],
    );
    // The first update fires the tempo event on its first tick.
    assert_eq!(midi.update(1042), Vec::<Vec<u8>>::new());
    // 1041 microseconds: 160 + 1041 * 480 = 499840 of 500000, no tick.
    assert_eq!(midi.update(1041), Vec::<Vec<u8>>::new());
    // One more microsecond completes the second tick and the note fires.
    assert_eq!(midi.update(1), vec![vec![0x90, 0x40, 0x40]]);
}

#[test]
fn sequential_tracks_play_in_order() {
    // Sequential layout with 3 tracks: every message of track 0 is emitted,
    // in original order, strictly before any message of track 1, and so on.
    let mut midi = load(
        ParsedFormat::Sequential,
        1,
        vec![
            vec![
                event(0, ParsedEventKind::Tempo(1)),
                voice(1, &[0x90, 0x01, 0x40]),
                voice(1, &[0x90, 0x02, 0x40]),
            ],
            vec![voice(1, &[0x90, 0x03, 0x40])],
            vec![voice(1, &[0x90, 0x04, 0x40])],
        ],
    );
    let out = midi.update(10);
    assert_eq!(
        out,
        vec![
            vec![0x90, 0x01, 0x40],
            vec![0x90, 0x02, 0x40],
            vec![0x90, 0x03, 0x40],
            vec![0x90, 0x04, 0x40],
        ]
    );
    assert!(midi.is_finished());
}

#[test]
fn sequential_zero_tracks_is_immediately_finished() {
    let midi = load(ParsedFormat::Sequential, 96, vec![]);
    assert!(midi.is_finished());
}

#[test]
fn parallel_updates_are_granularity_independent() {
    // A track with an event at delta 0 and another with an event at delta
    // 10: both must have fired once ten ticks' worth of time was supplied,
    // whether it came as one update or as many small ones.
    let tracks = || {
        vec![
            vec![event(0, ParsedEventKind::Tempo(1))],
            vec![voice(0, &[0x90, 0x0A, 0x40])],
            vec![voice(10, &[0x90, 0x0B, 0x40])],
        ]
    };
    let mut one_shot = load(ParsedFormat::Parallel, 1, tracks());
    let coarse = one_shot.update(11);

    let mut stepped = load(ParsedFormat::Parallel, 1, tracks());
    let mut fine: Vec<Vec<u8>> = Vec::new();
    fine.extend(stepped.update(2));
    for _ in 0..9 {
        fine.extend(stepped.update(1));
    }
    assert_eq!(coarse, fine);
    assert!(coarse.contains(&vec![0x90, 0x0A, 0x40]));
    assert!(coarse.contains(&vec![0x90, 0x0B, 0x40]));
    assert_eq!(coarse.len(), 2);
}

#[test]
fn loop_point_round_trip() {
    // Loop point two seconds in, constant tempo of one second per tick:
    // when the file would otherwise finish it seeks back to two ticks in,
    // stays unfinished forever, and the first event to fire after the
    // automatic seek is the first event whose cumulative tick offset
    // exceeds two ticks.
    // Parallel layout: its finished predicate rests on the cursors that the
    // automatic seek resets, so playback resumes after every loop.
    let mut midi = load(
        ParsedFormat::Parallel,
        1,
        vec![vec![
            event(0, ParsedEventKind::Tempo(1_000_000)),
            voice(1, &[0x90, 0x01, 0x40]),
            voice(2, &[0x90, 0x02, 0x40]), // cumulative offset 3, first past 2
            voice(1, &[0x90, 0x03, 0x40]),
        ]],
    );
    midi.set_loop_point(Some(2_000_000));
    assert!(!midi.is_finished());

    let mut expected: Vec<Vec<u8>> = vec![
        vec![0x90, 0x01, 0x40],
        vec![0x90, 0x02, 0x40],
        vec![0x90, 0x03, 0x40],
    ];
    expected.extend(all_sound_off_messages());
    expected.push(vec![0x90, 0x02, 0x40]);
    // Seven seconds: five ticks play the file to its end, the loop seek
    // rewinds to two ticks in, and the sixth tick already fires the event
    // at cumulative offset three again.
    assert_eq!(midi.update(7_000_000), expected);
    assert!(!midi.is_finished());

    // The file keeps looping and never reports finished.
    for _ in 0..5 {
        midi.update(3_000_000);
        assert!(!midi.is_finished());
    }
}

#[test]
fn zero_delta_update_is_idempotent() {
    let mut midi = load(
        ParsedFormat::SingleTrack,
        1,
        vec![vec![
            event(0, ParsedEventKind::Tempo(1)),
            voice(2, &[0x90, 0x01, 0x40]),
        ]],
    );
    assert_eq!(midi.update(0), Vec::<Vec<u8>>::new());
    // Make partial progress (the tempo event and one idle tick), with a
    // zero-delta update in between.
    assert_eq!(midi.update(2), Vec::<Vec<u8>>::new());
    assert_eq!(midi.update(0), Vec::<Vec<u8>>::new());
    assert_eq!(midi.update(1), Vec::<Vec<u8>>::new());
    assert_eq!(midi.update(0), Vec::<Vec<u8>>::new());
    // The zero-delta updates consumed no progress: the note still fires
    // exactly on schedule, two ticks after the tempo event.
    assert_eq!(midi.update(1), vec![vec![0x90, 0x01, 0x40]]);
}

#[test]
fn pause_emits_sixteen_sound_offs_and_freezes_progress() {
    let mut midi = load(
        ParsedFormat::SingleTrack,
        1,
        vec![vec![
            event(0, ParsedEventKind::Tempo(1)),
            voice(2, &[0x90, 0x01, 0x40]),
        ]],
    );
    assert_eq!(midi.update(2), Vec::<Vec<u8>>::new());
    // Entering pause emits exactly one All Sound Off per channel, 0 to 15.
    let out = midi.set_paused(true);
    assert_eq!(out, all_sound_off_messages());
    // While paused, any number of updates changes nothing and emits nothing.
    for _ in 0..10 {
        assert_eq!(midi.update(1_000), Vec::<Vec<u8>>::new());
    }
    // Resuming emits nothing, and progress continues where it stopped:
    // two more ticks fire the note.
    assert_eq!(midi.set_paused(false), Vec::<Vec<u8>>::new());
    assert_eq!(midi.update(2), vec![vec![0x90, 0x01, 0x40]]);
}

#[test]
fn seek_emits_sound_off_and_rescans() {
    let mut midi = load(
        ParsedFormat::SingleTrack,
        1,
        vec![vec![
            event(0, ParsedEventKind::Tempo(1_000_000)),
            voice(1, &[0x90, 0x01, 0x40]),
            voice(2, &[0x90, 0x02, 0x40]),
        ]],
    );
    // Fire the tempo event so the seek has a tempo to work with.
    assert_eq!(midi.update(1_000_001), Vec::<Vec<u8>>::new());
    // Seek past the first event: it is skipped, the second still fires.
    let out = midi.seek_to(2_000_000);
    assert_eq!(out, all_sound_off_messages());
    assert_eq!(midi.update(1_000_000), vec![vec![0x90, 0x02, 0x40]]);
}

#[test]
fn finished_file_ignores_updates() {
    let mut midi = load(
        ParsedFormat::SingleTrack,
        1,
        vec![vec![
            event(0, ParsedEventKind::Tempo(1)),
            voice(1, &[0x90, 0x01, 0x40]),
        ]],
    );
    assert_eq!(midi.update(5), vec![vec![0x90, 0x01, 0x40]]);
    assert!(midi.is_finished());
    assert_eq!(midi.update(1_000), Vec::<Vec<u8>>::new());
    assert!(midi.is_finished());
}

#[test]
fn parallel_file_finishes_when_every_track_is_done() {
    let mut midi = load(
        ParsedFormat::Parallel,
        1,
        vec![
            vec![event(0, ParsedEventKind::Tempo(1))],
            vec![voice(1, &[0x90, 0x01, 0x40])],
            vec![voice(3, &[0x90, 0x02, 0x40])],
        ],
    );
    assert!(!midi.is_finished());
    midi.update(2);
    assert!(!midi.is_finished());
    midi.update(2);
    assert!(midi.is_finished());
}
