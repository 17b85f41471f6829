use lyrica::{
    MidiFile, MidiPlayer, ParsedEvent, ParsedEventKind, ParsedFile, ParsedFormat, ParsedTiming,
};

fn event(delta: u32, kind: ParsedEventKind) -> ParsedEvent {
    ParsedEvent { delta, kind }
}

fn simple_file() -> MidiFile {
    // One second per tick; a note two ticks in.
    MidiFile::from_parsed(ParsedFile {
        timing: ParsedTiming::Metrical(1),
        format: ParsedFormat::SingleTrack,
        tracks: vec![vec![
            event(0, ParsedEventKind::Tempo(1_000_000)),
            event(2, ParsedEventKind::ChannelVoice(vec![0x90, 0x01, 0x40])),
        ]],
    })
    .unwrap()
}

fn all_sound_off_messages() -> Vec<Vec<u8>> {
    (0u8..16).map(|ch| vec![0xB0 + ch, 123, 0]).collect()
}

#[test]
fn empty_player_is_finished_and_silent() {
    let mut player = MidiPlayer::new(0);
    assert!(player.is_finished());
    assert_eq!(player.update(1_000_000), Vec::<Vec<u8>>::new());
    assert_eq!(player.seek_to(5_000_000), Vec::<Vec<u8>>::new());
    assert_eq!(player.set_paused(true, 2_000_000), Vec::<Vec<u8>>::new());
    player.set_loop_point(Some(1_000_000));
    assert!(player.is_finished());
}

#[test]
fn set_midi_file_emits_sound_off_first() {
    let mut player = MidiPlayer::new(0);
    let out = player.set_midi_file(simple_file(), 0);
    assert_eq!(out, all_sound_off_messages());
    assert!(!player.is_finished());
}

#[test]
fn update_advances_by_elapsed_wall_clock() {
    let mut player = MidiPlayer::new(1_000_000);
    player.set_midi_file(simple_file(), 1_000_000);
    // First frame, a second later: the tempo event fires silently.
    assert_eq!(player.update(2_000_001), Vec::<Vec<u8>>::new());
    // Two more seconds: two more ticks, the note fires.
    assert_eq!(
        player.update(4_000_002),
        vec![vec![0x90, 0x01, 0x40]]
    );
    assert!(player.is_finished());
}

#[test]
fn a_clock_that_goes_backwards_is_treated_as_no_time() {
    let mut player = MidiPlayer::new(5_000_000);
    player.set_midi_file(simple_file(), 5_000_000);
    assert_eq!(player.update(1_000_000), Vec::<Vec<u8>>::new());
    assert!(!player.is_finished());
}

#[test]
fn pausing_resets_the_clock_so_resume_does_not_catch_up() {
    let mut player = MidiPlayer::new(0);
    player.set_midi_file(simple_file(), 0);
    assert_eq!(player.update(1_000_000), Vec::<Vec<u8>>::new());
    let out = player.set_paused(true, 1_000_000);
    assert_eq!(out, all_sound_off_messages());
    // A long pause; updates while paused do nothing.
    assert_eq!(player.update(60_000_000), Vec::<Vec<u8>>::new());
    // Resume an hour later: no backlog is applied, the note still needs two
    // fresh seconds from the resume time.
    let out = player.set_paused(false, 3_600_000_000);
    assert_eq!(out, Vec::<Vec<u8>>::new());
    assert_eq!(player.update(3_600_500_000), Vec::<Vec<u8>>::new());
    assert_eq!(
        player.update(3_602_500_001),
        vec![vec![0x90, 0x01, 0x40]]
    );
}

#[test]
fn swapping_files_preserves_the_paused_flag() {
    let mut player = MidiPlayer::new(0);
    player.set_midi_file(simple_file(), 0);
    player.set_paused(true, 0);
    // Replace the file while paused: the new file starts paused too.
    player.set_midi_file(simple_file(), 1_000_000);
    assert_eq!(player.update(10_000_000), Vec::<Vec<u8>>::new());
    assert!(!player.is_finished());
    // Unpausing lets the new file play from its start.
    player.set_paused(false, 20_000_000);
    assert_eq!(player.update(21_000_000), Vec::<Vec<u8>>::new());
    assert_eq!(player.update(23_000_001), vec![vec![0x90, 0x01, 0x40]]);
}

#[test]
fn player_loop_point_keeps_file_unfinished() {
    let mut player = MidiPlayer::new(0);
    player.set_midi_file(simple_file(), 0);
    player.set_loop_point(Some(0));
    for frame in 1..10u64 {
        player.update(frame * 1_000_000);
        assert!(!player.is_finished());
    }
}
