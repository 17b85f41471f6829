//! Loading from raw MIDI file bytes. The external parser (midly) turns the
//! bytes into its structured file; small trusted wrappers hand that
//! structure over as plain values, and the verified loader in `file` does
//! everything else. Whether the bytes parse, and what they parse to, are
//! functions of the bytes alone, so both carry names (`parse_ok_of`,
//! `parsed_of`) that tie every loaded engine state back to the bytes it came
//! from.

use vstd::prelude::*;

use crate::events::{
    parsed_track_view, LoadError, ParsedEvent, ParsedEventKind, ParsedFile, ParsedFileView,
    ParsedFormat, ParsedTiming,
};
use crate::file::{load_error, load_view, parsed_ok, MidiFile};
use midly::{MetaMessage, TrackEventKind};

verus! {

#[verifier::external_type_specification]
#[verifier::external_body]
pub struct ExSmf<'a>(midly::Smf<'a>);

#[verifier::external_type_specification]
#[verifier::external_body]
pub struct ExMidlyError(midly::Error);

/// Whether the raw bytes form a standard MIDI file: the success of
/// midly::Smf::parse, a function of the bytes alone.
pub uninterp spec fn parse_ok_of(bytes: Seq<u8>) -> bool;

/// What the raw bytes parse to, handed over as plain values: the timing
/// mode, the layout, and per track the delta times and payloads (channel
/// voice messages already encoded to their outgoing bytes). A function of
/// the bytes alone.
pub uninterp spec fn parsed_of(bytes: Seq<u8>) -> ParsedFileView;

/// What a parsed midly file holds, as plain values; the accessor wrappers
/// below all speak of it, and `parse_smf` ties it to `parsed_of` the bytes.
pub uninterp spec fn smf_parsed(smf: midly::Smf) -> ParsedFileView;

/// True when a track index and an event index both lie within the file.
pub open spec fn has_event(file: ParsedFileView, track: int, index: int) -> bool {
    0 <= track < file.tracks.len() && 0 <= index < file.tracks[track].len()
}

/// Relies on midly::Smf::parse: parses a standard MIDI file from its raw
/// bytes, or reports why the bytes are not one. Success, and the parsed
/// structure, depend on the bytes alone.
#[verifier::external_body]
fn parse_smf(bytes: &[u8]) -> (r: Result<midly::Smf<'_>, midly::Error>)
    ensures
        r is Ok <==> parse_ok_of(bytes@),
        r matches Ok(smf) ==> smf_parsed(smf) == parsed_of(bytes@),
{
    midly::Smf::parse(bytes)
}

/// Relies on midly's Header: the parsed file's declared timing mode, as
/// plain values.
#[verifier::external_body]
fn smf_timing(smf: &midly::Smf<'_>) -> (r: ParsedTiming)
    ensures
        r == smf_parsed(*smf).timing,
{
    match smf.header.timing {
        midly::Timing::Metrical(t) => ParsedTiming::Metrical(t.as_int()),
        midly::Timing::Timecode(_, _) => ParsedTiming::Timecode,
    }
}

/// Relies on midly's Header: the parsed file's declared track layout.
#[verifier::external_body]
fn smf_format(smf: &midly::Smf<'_>) -> (r: ParsedFormat)
    ensures
        r == smf_parsed(*smf).format,
{
    match smf.header.format {
        midly::Format::SingleTrack => ParsedFormat::SingleTrack,
        midly::Format::Parallel => ParsedFormat::Parallel,
        midly::Format::Sequential => ParsedFormat::Sequential,
    }
}

/// Relies on midly's Smf: the number of parsed tracks.
#[verifier::external_body]
fn smf_track_count(smf: &midly::Smf<'_>) -> (r: usize)
    ensures
        r as int == smf_parsed(*smf).tracks.len(),
{
    smf.tracks.len()
}

/// Relies on midly's Smf: the number of events of one track, or zero for a
/// track index out of range.
#[verifier::external_body]
fn smf_track_len(smf: &midly::Smf<'_>, track: usize) -> (r: usize)
    ensures
        r as int == (if (track as int) < smf_parsed(*smf).tracks.len() {
            smf_parsed(*smf).tracks[track as int].len() as int
        } else {
            0int
        }),
{
    smf.tracks.get(track).map_or(0, |t| t.len())
}

/// Relies on midly's TrackEvent, TrackEventKind and LiveEvent::write_std:
/// one parsed event as plain values — the delta time and the payload, one
/// arm per kind, a channel voice message encoded to its outgoing bytes
/// (write_std cannot fail on a byte vector) — or None for an index out of
/// range.
#[verifier::external_body]
fn smf_event(smf: &midly::Smf<'_>, track: usize, index: usize) -> (r: Option<ParsedEvent>)
    ensures
        r is Some <==> has_event(smf_parsed(*smf), track as int, index as int),
        r matches Some(ev) ==> ev@ == smf_parsed(*smf).tracks[track as int][index as int],
{
    let ev = smf.tracks.get(track).and_then(|t| t.get(index))?;
    let kind = match ev.kind {
        TrackEventKind::Midi { channel, message } => {
            let mut b = Vec::new();
            midly::live::LiveEvent::Midi { channel, message }.write_std(&mut b).unwrap();
            ParsedEventKind::ChannelVoice(b)
        },
        TrackEventKind::SysEx(d) => ParsedEventKind::SysEx(d.to_vec()),
        TrackEventKind::Escape(d) => ParsedEventKind::Escape(d.to_vec()),
        TrackEventKind::Meta(MetaMessage::Tempo(t)) => ParsedEventKind::Tempo(t.as_int()),
        TrackEventKind::Meta(_) => ParsedEventKind::OtherMeta,
    };
    Some(ParsedEvent { delta: ev.delta.as_int(), kind })
}

/// Parses raw bytes into the pre-parsed representation that loading
/// consumes: exactly what the bytes parse to, or the malformed-input error
/// exactly when the bytes do not form a MIDI file.
pub fn parse_file(bytes: &[u8]) -> (r: Result<ParsedFile, LoadError>)
    ensures
        r is Ok <==> parse_ok_of(bytes@),
        r matches Ok(p) ==> p@ == parsed_of(bytes@),
        r matches Err(e) ==> e == LoadError::Malformed,
{
    let smf = match parse_smf(bytes) {
        Ok(smf) => smf,
        Err(_) => {
            return Err(LoadError::Malformed);
        },
    };
    let ghost target = parsed_of(bytes@);
    let timing = smf_timing(&smf);
    let format = smf_format(&smf);
    let track_count = smf_track_count(&smf);
    let mut tracks: Vec<Vec<ParsedEvent>> = Vec::new();
    let mut i: usize = 0;
    while i < track_count
        invariant
            smf_parsed(smf) == target,
            track_count as int == target.tracks.len(),
            i <= track_count,
            tracks@.len() == i as int,
            forall|k: int|
                0 <= k < i as int ==> parsed_track_view(#[trigger] tracks@[k])
                    == target.tracks[k],
        decreases track_count - i,
    {
        let len = smf_track_len(&smf, i);
        let mut track: Vec<ParsedEvent> = Vec::new();
        let mut j: usize = 0;
        while j < len
            invariant
                smf_parsed(smf) == target,
                track_count as int == target.tracks.len(),
                i < track_count,
                len as int == target.tracks[i as int].len(),
                j <= len,
                track@.len() == j as int,
                forall|q: int|
                    0 <= q < j as int ==> (#[trigger] track@[q])@ == target.tracks[i as int][q],
            decreases len - j,
        {
            let ev = match smf_event(&smf, i, j) {
                Some(ev) => ev,
                None => {
                    proof {
                        assert(false);
                    }
                    return Err(LoadError::Malformed);
                },
            };
            track.push(ev);
            j = j + 1;
        }
        tracks.push(track);
        proof {
            assert(parsed_track_view(tracks@[i as int]) =~= target.tracks[i as int]);
        }
        i = i + 1;
    }
    let parsed = ParsedFile { timing, format, tracks };
    proof {
        assert(parsed@ =~~= target);
    }
    Ok(parsed)
}

impl MidiFile {
    /// Parses raw MIDI file bytes via the external parser and loads the
    /// result: malformed bytes, timecode timing and escape events are
    /// reported as errors, exactly in that order, and on success the engine
    /// is exactly the fresh state loaded from what the bytes parse to.
    pub fn from_bytes(bytes: &[u8]) -> (r: Result<MidiFile, LoadError>)
        ensures
            r is Ok <==> parse_ok_of(bytes@) && parsed_ok(parsed_of(bytes@)),
            r matches Ok(f) ==> f@ == load_view(parsed_of(bytes@)) && f@.wf(),
            r matches Err(e) ==> e == if !parse_ok_of(bytes@) {
                LoadError::Malformed
            } else {
                load_error(parsed_of(bytes@))
            },
    {
        let parsed = match parse_file(bytes) {
            Ok(parsed) => parsed,
            Err(e) => {
                return Err(e);
            },
        };
        MidiFile::from_parsed(parsed)
    }
}

} // verus!
