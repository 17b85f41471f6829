use lyrica::{
    LoadError, MidiFile, ParsedEvent, ParsedEventKind, ParsedFile, ParsedFormat, ParsedTiming,
};

fn event(delta: u32, kind: ParsedEventKind) -> ParsedEvent {
    ParsedEvent { delta, kind }
}

#[test]
fn load_accepts_metrical_file() {
    let file = ParsedFile {
        timing: ParsedTiming::Metrical(480),
        format: ParsedFormat::SingleTrack,
        tracks: vec![vec![
            event(0, ParsedEventKind::Tempo(500000)),
            event(1, ParsedEventKind::ChannelVoice(vec![0x90, 0x3C, 0x40])),
        ]],
    };
    assert!(MidiFile::from_parsed(file).is_ok());
}

#[test]
fn load_rejects_timecode() {
    let file = ParsedFile {
        timing: ParsedTiming::Timecode,
        format: ParsedFormat::SingleTrack,
        tracks: vec![],
    };
    match MidiFile::from_parsed(file) {
        Err(e) => assert_eq!(e, LoadError::UnsupportedTimecode),
        Ok(_) => panic!("timecode timing must be rejected"),
    }
}

#[test]
fn load_rejects_escape_events() {
    let file = ParsedFile {
        timing: ParsedTiming::Metrical(96),
        format: ParsedFormat::SingleTrack,
        tracks: vec![vec![
            event(0, ParsedEventKind::OtherMeta),
            event(3, ParsedEventKind::Escape(vec![0xF7, 0x01])),
        ]],
    };
    match MidiFile::from_parsed(file) {
        Err(e) => assert_eq!(e, LoadError::UnsupportedEscape),
        Ok(_) => panic!("escape events must be rejected"),
    }
}

#[test]
fn load_rejects_timecode_before_escape() {
    let file = ParsedFile {
        timing: ParsedTiming::Timecode,
        format: ParsedFormat::SingleTrack,
        tracks: vec![vec![event(0, ParsedEventKind::Escape(vec![]))]],
    };
    match MidiFile::from_parsed(file) {
        Err(e) => assert_eq!(e, LoadError::UnsupportedTimecode),
        Ok(_) => panic!("both problems present: timing is checked first"),
    }
}

#[test]
fn sysex_gets_status_byte_restored() {
    // A system-exclusive payload is re-prefixed with its leading status byte
    // before forwarding.
    let file = ParsedFile {
        timing: ParsedTiming::Metrical(1),
        format: ParsedFormat::SingleTrack,
        tracks: vec![vec![
            event(0, ParsedEventKind::Tempo(1)),
            event(1, ParsedEventKind::SysEx(vec![0x7E, 0x09, 0x01, 0xF7])),
        ]],
    };
    let mut midi = MidiFile::from_parsed(file).unwrap();
    let out = midi.update(10);
    assert_eq!(out, vec![vec![0xF0, 0x7E, 0x09, 0x01, 0xF7]]);
}

#[test]
fn from_bytes_rejects_garbage() {
    match MidiFile::from_bytes(&[0x00, 0x01, 0x02, 0x03]) {
        Err(e) => assert_eq!(e, LoadError::Malformed),
        Ok(_) => panic!("garbage bytes must be rejected"),
    }
}

#[test]
fn from_bytes_plays_a_real_file() {
    // A minimal standard MIDI file, format 0, 480 pulses per quarter note,
    // one track: tempo 500000, a note-on at delta 1, end of track.
    let bytes: Vec<u8> = vec![
        0x4D, 0x54, 0x68, 0x64, // MThd
        0x00, 0x00, 0x00, 0x06, // header length 6
        0x00, 0x00, // format 0
        0x00, 0x01, // one track
        0x01, 0xE0, // 480 pulses per quarter note
        0x4D, 0x54, 0x72, 0x6B, // MTrk
        0x00, 0x00, 0x00, 0x0F, // track length 15
        0x00, 0xFF, 0x51, 0x03, 0x07, 0xA1, 0x20, // delta 0, tempo 500000
        0x01, 0x90, 0x3C, 0x40, // delta 1, note on, key 60, velocity 64
        0x00, 0xFF, 0x2F, 0x00, // delta 0, end of track
    ];
    let mut midi = MidiFile::from_bytes(&bytes).unwrap();
    assert!(!midi.is_finished());
    // The first update fires the tempo event; 500000 / 480 microseconds per
    // tick from then on. 1042 microseconds buy the first tick, one more tick
    // fires the note.
    let out = midi.update(1042);
    assert_eq!(out, Vec::<Vec<u8>>::new());
    let out = midi.update(1042);
    assert_eq!(out, vec![vec![0x90, 0x3C, 0x40]]);
}

#[test]
fn from_bytes_rejects_timecode_file() {
    // Same file, but with an SMPTE timecode division (high bit set).
    let bytes: Vec<u8> = vec![
        0x4D, 0x54, 0x68, 0x64, 0x00, 0x00, 0x00, 0x06, 0x00, 0x00, 0x00, 0x01, 0xE8,
        0x50, // -24 fps, 80 subframes
        0x4D, 0x54, 0x72, 0x6B, 0x00, 0x00, 0x00, 0x04, 0x00, 0xFF, 0x2F, 0x00,
    ];
    match MidiFile::from_bytes(&bytes) {
        Err(e) => assert_eq!(e, LoadError::UnsupportedTimecode),
        Ok(_) => panic!("timecode files must be rejected"),
    }
}
