//! Taking over what the `midly` parser read, and writing messages as it
//! writes them.

use vstd::prelude::*;
use crate::event::{Message, Meta, MidiEvent, RawEvent, RawKind};
use crate::timer::{FrameRate, TimeFormat};

verus! {

/// `midly::num::u4`, an integer of four bits. What it holds is read with `as_int`.
#[verifier::external_type_specification]
#[verifier::external_body]
pub struct ExU4(midly::num::u4);

/// `midly::num::u7`, an integer of seven bits. What it holds is read with `as_int`.
#[verifier::external_type_specification]
#[verifier::external_body]
pub struct ExU7(midly::num::u7);

/// `midly::num::u14`, an integer of fourteen bits. What it holds is read with `as_int`.
#[verifier::external_type_specification]
#[verifier::external_body]
pub struct ExU14(midly::num::u14);

/// `midly::num::u15`, an integer of fifteen bits. What it holds is read with `as_int`.
#[verifier::external_type_specification]
#[verifier::external_body]
pub struct ExU15(midly::num::u15);

/// `midly::num::u24`, an integer of twenty-four bits. What it holds is read with `as_int`.
#[verifier::external_type_specification]
#[verifier::external_body]
pub struct ExU24(midly::num::u24);

/// `midly::num::u28`, an integer of twenty-eight bits. What it holds is read with `as_int`.
#[verifier::external_type_specification]
#[verifier::external_body]
pub struct ExU28(midly::num::u28);

/// `midly::SmpteTime`, a time of day in a track. Nothing here looks into it.
#[verifier::external_type_specification]
#[verifier::external_body]
pub struct ExSmpteTime(midly::SmpteTime);

/// `midly::PitchBend`, with its one public field.
#[verifier::external_type_specification]
pub struct ExPitchBend(midly::PitchBend);

/// `midly::MidiMessage`, with its variants and their fields.
#[verifier::external_type_specification]
pub struct ExMidiMessage(midly::MidiMessage);

/// `midly::MetaMessage`, with its variants and their fields.
#[verifier::external_type_specification]
pub struct ExMetaMessage<'a>(midly::MetaMessage<'a>);

/// `midly::TrackEventKind`, with its variants and their fields.
#[verifier::external_type_specification]
pub struct ExTrackEventKind<'a>(midly::TrackEventKind<'a>);

/// `midly::TrackEvent`, with its two public fields.
#[verifier::external_type_specification]
pub struct ExTrackEvent<'a>(midly::TrackEvent<'a>);

/// `midly::live::SystemRealtime`, with its variants.
#[verifier::external_type_specification]
pub struct ExSystemRealtime(midly::live::SystemRealtime);

/// `midly::live::SystemCommon`, a system common message. Nothing here looks
/// into it.
#[verifier::external_type_specification]
#[verifier::external_body]
pub struct ExSystemCommon<'a>(midly::live::SystemCommon<'a>);

/// `midly::Fps`, with its variants.
#[verifier::external_type_specification]
pub struct ExFps(midly::Fps);

/// `midly::Timing`, with its variants and their fields.
#[verifier::external_type_specification]
pub struct ExTiming(midly::Timing);

/// The number that a four-bit integer of the parser holds.
pub uninterp spec fn u4_value(x: midly::num::u4) -> u8;

/// The number that a seven-bit integer of the parser holds.
pub uninterp spec fn u7_value(x: midly::num::u7) -> u8;

/// The number that a fourteen-bit integer of the parser holds.
pub uninterp spec fn u14_value(x: midly::num::u14) -> u16;

/// The number that a fifteen-bit integer of the parser holds.
pub uninterp spec fn u15_value(x: midly::num::u15) -> u16;

/// The number that a twenty-four-bit integer of the parser holds.
pub uninterp spec fn u24_value(x: midly::num::u24) -> u32;

/// The number that a twenty-eight-bit integer of the parser holds.
pub uninterp spec fn u28_value(x: midly::num::u28) -> u32;

/// `midly::num::u4::as_int` gives the number that the integer holds, which
/// fits in four bits.
pub assume_specification[ midly::num::u4::as_int ](x: midly::num::u4) -> (r: u8)
    ensures
        r == u4_value(x),
        r < 16,
;

/// `midly::num::u7::as_int` gives the number that the integer holds, which
/// fits in seven bits.
pub assume_specification[ midly::num::u7::as_int ](x: midly::num::u7) -> (r: u8)
    ensures
        r == u7_value(x),
        r < 128,
;

/// `midly::num::u14::as_int` gives the number that the integer holds, which
/// fits in fourteen bits.
pub assume_specification[ midly::num::u14::as_int ](x: midly::num::u14) -> (r: u16)
    ensures
        r == u14_value(x),
        r < 0x4000,
;

/// `midly::num::u15::as_int` gives the number that the integer holds, which
/// fits in fifteen bits.
pub assume_specification[ midly::num::u15::as_int ](x: midly::num::u15) -> (r: u16)
    ensures
        r == u15_value(x),
        r < 0x8000,
;

/// `midly::num::u24::as_int` gives the number that the integer holds, which
/// fits in twenty-four bits.
pub assume_specification[ midly::num::u24::as_int ](x: midly::num::u24) -> (r: u32)
    ensures
        r == u24_value(x),
        r < 0x100_0000,
;

/// `midly::num::u28::as_int` gives the number that the integer holds, which
/// fits in twenty-eight bits.
pub assume_specification[ midly::num::u28::as_int ](x: midly::num::u28) -> (r: u32)
    ensures
        r == u28_value(x),
        r < 0x1000_0000,
;

/// `midly::num::u4::new` keeps the lowest four bits of `raw`.
pub assume_specification[ midly::num::u4::new ](raw: u8) -> (r: midly::num::u4)
    ensures
        u4_value(r) == raw & 0x0F,
;

/// `midly::num::u7::new` keeps the lowest seven bits of `raw`.
pub assume_specification[ midly::num::u7::new ](raw: u8) -> (r: midly::num::u7)
    ensures
        u7_value(r) == raw & 0x7F,
;

/// `midly::num::u14::new` keeps the lowest fourteen bits of `raw`.
pub assume_specification[ midly::num::u14::new ](raw: u16) -> (r: midly::num::u14)
    ensures
        u14_value(r) == raw & 0x3FFF,
;

/// What a channel message of the parser holds.
pub open spec fn message_of(m: midly::MidiMessage) -> Message {
    match m {
        midly::MidiMessage::NoteOff { key, vel } => Message::NoteOff {
            key: u7_value(key),
            vel: u7_value(vel),
        },
        midly::MidiMessage::NoteOn { key, vel } => Message::NoteOn {
            key: u7_value(key),
            vel: u7_value(vel),
        },
        midly::MidiMessage::Aftertouch { key, vel } => Message::Aftertouch {
            key: u7_value(key),
            vel: u7_value(vel),
        },
        midly::MidiMessage::Controller { controller, value } => Message::Controller {
            controller: u7_value(controller),
            value: u7_value(value),
        },
        midly::MidiMessage::ProgramChange { program } => Message::ProgramChange {
            program: u7_value(program),
        },
        midly::MidiMessage::ChannelAftertouch { vel } => Message::ChannelAftertouch {
            vel: u7_value(vel),
        },
        midly::MidiMessage::PitchBend { bend } => Message::PitchBend { bend: u14_value(bend.0) },
    }
}

/// What a track event of the parser holds, without its timing and without
/// the payload of the kinds that a timeline has no use for.
pub open spec fn kind_of(kind: midly::TrackEventKind<'_>) -> RawKind {
    match kind {
        midly::TrackEventKind::Midi { channel, message } => RawKind::Midi {
            channel: u4_value(channel),
            message: message_of(message),
        },
        midly::TrackEventKind::SysEx(_) => RawKind::SysEx,
        midly::TrackEventKind::Escape(_) => RawKind::Escape,
        midly::TrackEventKind::Meta(midly::MetaMessage::Tempo(t)) => RawKind::Meta(
            Meta::Tempo(u24_value(t)),
        ),
        midly::TrackEventKind::Meta(midly::MetaMessage::TimeSignature(a, b, c, d)) => RawKind::Meta(
            Meta::TimeSignature(a, b, c, d),
        ),
        midly::TrackEventKind::Meta(midly::MetaMessage::KeySignature(a, b)) => RawKind::Meta(
            Meta::KeySignature(a, b),
        ),
        midly::TrackEventKind::Meta(_) => RawKind::Meta(Meta::Other),
    }
}

/// What a track event of the parser holds.
pub open spec fn event_of(event: midly::TrackEvent<'_>) -> RawEvent {
    RawEvent { delta: u28_value(event.delta), kind: kind_of(event.kind) }
}

/// What a track of the parser holds.
pub open spec fn track_of(events: Seq<midly::TrackEvent<'_>>) -> Seq<RawEvent> {
    Seq::new(events.len(), |i: int| event_of(events[i]))
}

/// The timing that a header of the parser declares.
pub open spec fn time_format_of(t: midly::Timing) -> TimeFormat {
    match t {
        midly::Timing::Metrical(n) => TimeFormat::Metrical(u15_value(n)),
        midly::Timing::Timecode(fps, ticks_per_frame) => TimeFormat::Timecode(
            match fps {
                midly::Fps::Fps24 => FrameRate::Fps24,
                midly::Fps::Fps25 => FrameRate::Fps25,
                midly::Fps::Fps29 => FrameRate::Fps29,
                midly::Fps::Fps30 => FrameRate::Fps30,
            },
            ticks_per_frame,
        ),
    }
}

/// The bytes of a message whose fields are all in their ranges: the status
/// byte, which holds the kind of message and the channel, then the data
/// bytes; of a bend the lower seven bits come first.
pub open spec fn wire_bytes(channel: u8, message: Message) -> Seq<u8> {
    seq![message.status_nibble() | channel] + (match message {
        Message::NoteOff { key, vel } => seq![key, vel],
        Message::NoteOn { key, vel } => seq![key, vel],
        Message::Aftertouch { key, vel } => seq![key, vel],
        Message::Controller { controller, value } => seq![controller, value],
        Message::ProgramChange { program } => seq![program],
        Message::ChannelAftertouch { vel } => seq![vel],
        Message::PitchBend { bend } => seq![(bend & 0x7F) as u8, (bend >> 7) as u8],
    })
}

/// `midly::live::LiveEvent::write_std`, for a channel message and into a
/// vector: it appends the status byte and the data bytes of the message, and
/// cannot fail.
#[verifier::external_body]
fn write_live(channel: midly::num::u4, message: midly::MidiMessage, out: &mut Vec<u8>)
    ensures
        final(out)@ == old(out)@ + wire_bytes(u4_value(channel), message_of(message)),
{
    let _ = midly::live::LiveEvent::Midi { channel, message }.write_std(out);
}

impl MidiEvent {
    /// Appends the bytes of the message to `w`, as a device expects them.
    pub fn write(&self, w: &mut Vec<u8>)
        ensures
            final(w)@ == old(w)@ + self.encoded(),
    {
        let channel = midly::num::u4::new(self.channel);
        let message = match self.message {
            Message::NoteOff { key, vel } => midly::MidiMessage::NoteOff {
                key: midly::num::u7::new(key),
                vel: midly::num::u7::new(vel),
            },
            Message::NoteOn { key, vel } => midly::MidiMessage::NoteOn {
                key: midly::num::u7::new(key),
                vel: midly::num::u7::new(vel),
            },
            Message::Aftertouch { key, vel } => midly::MidiMessage::Aftertouch {
                key: midly::num::u7::new(key),
                vel: midly::num::u7::new(vel),
            },
            Message::Controller { controller, value } => midly::MidiMessage::Controller {
                controller: midly::num::u7::new(controller),
                value: midly::num::u7::new(value),
            },
            Message::ProgramChange { program } => midly::MidiMessage::ProgramChange {
                program: midly::num::u7::new(program),
            },
            Message::ChannelAftertouch { vel } => midly::MidiMessage::ChannelAftertouch {
                vel: midly::num::u7::new(vel),
            },
            Message::PitchBend { bend } => midly::MidiMessage::PitchBend {
                bend: midly::PitchBend(midly::num::u14::new(bend)),
            },
        };
        proof {
            match self.message {
                Message::PitchBend { bend } => {
                    let kept = bend & 0x3FFF;
                    assert((kept & 0x7F) as u8 == (bend & 0x7F) as u8 && (kept >> 7) as u8 == ((bend
                        >> 7) & 0x7F) as u8) by (bit_vector)
                        requires
                            kept == bend & 0x3FFF,
                    ;
                },
                _ => {},
            }
            assert(wire_bytes(u4_value(channel), message_of(message)) =~= self.encoded());
        }
        write_live(channel, message, w);
    }
}

/// Takes a channel message over from the parser.
pub fn message_from(m: midly::MidiMessage) -> (r: Message)
    ensures
        r == message_of(m),
        r.well_formed(),
{
    match m {
        midly::MidiMessage::NoteOff { key, vel } => Message::NoteOff {
            key: key.as_int(),
            vel: vel.as_int(),
        },
        midly::MidiMessage::NoteOn { key, vel } => Message::NoteOn {
            key: key.as_int(),
            vel: vel.as_int(),
        },
        midly::MidiMessage::Aftertouch { key, vel } => Message::Aftertouch {
            key: key.as_int(),
            vel: vel.as_int(),
        },
        midly::MidiMessage::Controller { controller, value } => Message::Controller {
            controller: controller.as_int(),
            value: value.as_int(),
        },
        midly::MidiMessage::ProgramChange { program } => Message::ProgramChange {
            program: program.as_int(),
        },
        midly::MidiMessage::ChannelAftertouch { vel } => Message::ChannelAftertouch {
            vel: vel.as_int(),
        },
        midly::MidiMessage::PitchBend { bend } => Message::PitchBend { bend: bend.0.as_int() },
    }
}

/// Takes a track event over from the parser.
pub fn event_from(event: &midly::TrackEvent<'_>) -> (r: RawEvent)
    ensures
        r == event_of(*event),
        r.well_formed(),
{
    let kind = match event.kind {
        midly::TrackEventKind::Midi { channel, message } => RawKind::Midi {
            channel: channel.as_int(),
            message: message_from(message),
        },
        midly::TrackEventKind::SysEx(_) => RawKind::SysEx,
        midly::TrackEventKind::Escape(_) => RawKind::Escape,
        midly::TrackEventKind::Meta(midly::MetaMessage::Tempo(t)) => RawKind::Meta(
            Meta::Tempo(t.as_int()),
        ),
        midly::TrackEventKind::Meta(midly::MetaMessage::TimeSignature(a, b, c, d)) => RawKind::Meta(
            Meta::TimeSignature(a, b, c, d),
        ),
        midly::TrackEventKind::Meta(midly::MetaMessage::KeySignature(a, b)) => RawKind::Meta(
            Meta::KeySignature(a, b),
        ),
        midly::TrackEventKind::Meta(_) => RawKind::Meta(Meta::Other),
    };
    RawEvent { delta: event.delta.as_int(), kind }
}

/// Takes a track over from the parser, event by event.
pub fn track_from(events: &[midly::TrackEvent<'_>]) -> (track: Vec<RawEvent>)
    ensures
        track@ == track_of(events@),
        forall|i: int| 0 <= i < track@.len() ==> (#[trigger] track@[i]).well_formed(),
{
    let mut track: Vec<RawEvent> = Vec::new();
    let mut i: usize = 0;
    while i < events.len()
        invariant
            i <= events.len(),
            track@ == track_of(events@.take(i as int)),
            forall|k: int| 0 <= k < track@.len() ==> (#[trigger] track@[k]).well_formed(),
        decreases events.len() - i,
    {
        track.push(event_from(&events[i]));
        assert(track@ =~= track_of(events@.take(i + 1)));
        i += 1;
    }
    assert(events@.take(i as int) =~= events@);
    track
}

/// Takes the timing of a header over from the parser.
pub fn time_format_from(t: midly::Timing) -> (r: TimeFormat)
    ensures
        r == time_format_of(t),
{
    match t {
        midly::Timing::Metrical(n) => TimeFormat::Metrical(n.as_int()),
        midly::Timing::Timecode(fps, ticks_per_frame) => TimeFormat::Timecode(
            match fps {
                midly::Fps::Fps24 => FrameRate::Fps24,
                midly::Fps::Fps25 => FrameRate::Fps25,
                midly::Fps::Fps29 => FrameRate::Fps29,
                midly::Fps::Fps30 => FrameRate::Fps30,
            },
            ticks_per_frame,
        ),
    }
}

} // verus!
