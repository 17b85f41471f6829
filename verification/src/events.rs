//! Event payloads: the engine-owned track events, the pre-parsed input model
//! that loading consumes, and the all-sound-off safety broadcast.

use vstd::prelude::*;

verus! {

/// Spec-level image of an engine-owned event payload.
pub enum EventKindView {
    /// A fully encoded outgoing message.
    ToSynth(Seq<u8>),
    /// A tempo change, in microseconds per quarter note.
    Tempo(int),
    /// A meta event with no playback effect.
    Ignored,
}

/// Spec-level image of an engine-owned track event.
pub struct EventView {
    /// Ticks since the previous event in the same track.
    pub delta: int,
    /// The payload.
    pub kind: EventKindView,
}

/// An event payload owned by the engine.
pub enum OwnedTrackEventKind {
    /// A fully encoded outgoing message, sent verbatim when the event fires.
    ToSynth(Vec<u8>),
    /// A tempo change: microseconds per quarter note.
    Tempo(u32),
    /// Any meta event class with no playback effect.
    InessentialMeta,
}

/// A track event owned by the engine: a delta time in ticks and a payload.
pub struct OwnedTrackEvent {
    /// Ticks since the previous event in the same track.
    pub delta: u32,
    /// The payload.
    pub kind: OwnedTrackEventKind,
}

impl View for OwnedTrackEventKind {
    type V = EventKindView;

    open spec fn view(&self) -> EventKindView {
        match self {
            OwnedTrackEventKind::ToSynth(bytes) => EventKindView::ToSynth(bytes@),
            OwnedTrackEventKind::Tempo(t) => EventKindView::Tempo(*t as int),
            OwnedTrackEventKind::InessentialMeta => EventKindView::Ignored,
        }
    }
}

impl View for OwnedTrackEvent {
    type V = EventView;

    open spec fn view(&self) -> EventView {
        EventView { delta: self.delta as int, kind: self.kind@ }
    }
}

/// The timing mode declared by a pre-parsed file.
#[derive(Clone, Copy, PartialEq, Eq, Structural)]
pub enum ParsedTiming {
    /// Pulses per quarter note (supported).
    Metrical(u16),
    /// Timecode timing (unsupported; rejected at load time).
    Timecode,
}

/// The track layout declared by a pre-parsed file.
#[derive(Clone, Copy, PartialEq, Eq, Structural)]
pub enum ParsedFormat {
    /// A single track.
    SingleTrack,
    /// Several simultaneous tracks.
    Parallel,
    /// Several tracks played one after another.
    Sequential,
}

/// One event of a pre-parsed file, as the external parser hands it over.
pub enum ParsedEventKind {
    /// A channel voice message, already encoded as outgoing bytes.
    ChannelVoice(Vec<u8>),
    /// A system-exclusive payload, without its leading status byte.
    SysEx(Vec<u8>),
    /// An escape sequence (unsupported; rejected at load time).
    Escape(Vec<u8>),
    /// A tempo meta event: microseconds per quarter note.
    Tempo(u32),
    /// Any other meta event.
    OtherMeta,
}

/// One pre-parsed track event: delta ticks plus the event itself.
pub struct ParsedEvent {
    /// Ticks since the previous event in the same track.
    pub delta: u32,
    /// The event.
    pub kind: ParsedEventKind,
}

/// A structured MIDI file as consumed from the external parser.
pub struct ParsedFile {
    /// The declared timing mode.
    pub timing: ParsedTiming,
    /// The declared track layout.
    pub format: ParsedFormat,
    /// Per track, the ordered list of events.
    pub tracks: Vec<Vec<ParsedEvent>>,
}

/// Spec-level image of a pre-parsed event payload.
pub enum ParsedKindView {
    /// A channel voice message, already encoded as outgoing bytes.
    ChannelVoice(Seq<u8>),
    /// A system-exclusive payload, without its leading status byte.
    SysEx(Seq<u8>),
    /// An escape sequence.
    Escape(Seq<u8>),
    /// A tempo meta event: microseconds per quarter note.
    Tempo(u32),
    /// Any other meta event.
    OtherMeta,
}

/// Spec-level image of one pre-parsed track event.
pub struct ParsedEventView {
    /// Ticks since the previous event in the same track.
    pub delta: u32,
    /// The event.
    pub kind: ParsedKindView,
}

/// Spec-level image of a pre-parsed file.
#[verifier::ext_equal]
pub struct ParsedFileView {
    /// The declared timing mode.
    pub timing: ParsedTiming,
    /// The declared track layout.
    pub format: ParsedFormat,
    /// Per track, the ordered list of events.
    pub tracks: Seq<Seq<ParsedEventView>>,
}

impl View for ParsedEventKind {
    type V = ParsedKindView;

    open spec fn view(&self) -> ParsedKindView {
        match self {
            ParsedEventKind::ChannelVoice(bytes) => ParsedKindView::ChannelVoice(bytes@),
            ParsedEventKind::SysEx(bytes) => ParsedKindView::SysEx(bytes@),
            ParsedEventKind::Escape(bytes) => ParsedKindView::Escape(bytes@),
            ParsedEventKind::Tempo(t) => ParsedKindView::Tempo(*t),
            ParsedEventKind::OtherMeta => ParsedKindView::OtherMeta,
        }
    }
}

impl View for ParsedEvent {
    type V = ParsedEventView;

    open spec fn view(&self) -> ParsedEventView {
        ParsedEventView { delta: self.delta, kind: self.kind@ }
    }
}

/// The spec-level image of one pre-parsed track.
pub open spec fn parsed_track_view(track: Vec<ParsedEvent>) -> Seq<ParsedEventView> {
    Seq::new(track@.len(), |j: int| track@[j]@)
}

impl View for ParsedFile {
    type V = ParsedFileView;

    open spec fn view(&self) -> ParsedFileView {
        ParsedFileView {
            timing: self.timing,
            format: self.format,
            tracks: Seq::new(self.tracks@.len(), |i: int| parsed_track_view(self.tracks@[i])),
        }
    }
}

/// Loading failures.
#[derive(Clone, Copy, PartialEq, Eq, Structural, Debug)]
pub enum LoadError {
    /// The raw bytes do not form a well-formed MIDI file.
    Malformed,
    /// The file declares timecode timing, which playback does not support.
    UnsupportedTimecode,
    /// A track holds an escape event (or a continuation packet of a split
    /// system-exclusive message), which playback does not support.
    UnsupportedEscape,
}

/// The leading status byte restored in front of a system-exclusive payload.
pub const SYSEX_STATUS: u8 = 0xF0;

/// How loading turns one supported pre-parsed event payload into an owned one.
/// Escape events are rejected by loading, so their image here is irrelevant.
pub open spec fn convert_kind(kind: ParsedKindView) -> EventKindView {
    match kind {
        ParsedKindView::ChannelVoice(bytes) => EventKindView::ToSynth(bytes),
        ParsedKindView::SysEx(bytes) => EventKindView::ToSynth(seq![SYSEX_STATUS] + bytes),
        ParsedKindView::Escape(_) => EventKindView::Ignored,
        ParsedKindView::Tempo(t) => EventKindView::Tempo(t as int),
        ParsedKindView::OtherMeta => EventKindView::Ignored,
    }
}

/// The encoded All Sound Off message for one channel: a Controller message
/// with controller number 123 and value 0.
pub open spec fn all_sound_off_message(channel: int) -> Seq<u8> {
    seq![(0xB0 + channel) as u8, 123u8, 0u8]
}

/// The safety broadcast: one All Sound Off message per channel, 0 through 15.
pub open spec fn all_sound_off_messages() -> Seq<Seq<u8>> {
    Seq::new(16, |channel: int| all_sound_off_message(channel))
}

/// Builds the safety broadcast: for channel 0 through 15, one Controller
/// message with controller number 123 ("All Sound Off") and value 0.
pub fn all_sound_off() -> (out: Vec<Vec<u8>>)
    ensures
        out.deep_view() == all_sound_off_messages(),
{
    let mut out: Vec<Vec<u8>> = Vec::new();
    let mut channel: u8 = 0;
    while channel < 16
        invariant
            channel <= 16,
            out@.len() == channel as int,
            forall|c: int| 0 <= c < channel as int ==> (#[trigger] out@[c])@
                == all_sound_off_message(c),
        decreases 16 - channel as int,
    {
        let mut message: Vec<u8> = Vec::new();
        message.push(0xB0 + channel);
        message.push(123);
        message.push(0);
        proof {
            assert(message@ =~= all_sound_off_message(channel as int));
        }
        out.push(message);
        channel = channel + 1;
    }
    proof {
        assert forall|c: int| 0 <= c < 16 implies out.deep_view()[c]
            == all_sound_off_message(c) by {
            assert(out@[c].deep_view() =~= out@[c]@);
        }
        assert(out.deep_view() =~~= all_sound_off_messages());
    }
    out
}

} // verus!
