use vstd::prelude::*;

verus! {

/// The body of a channel message.
///
/// Data bytes are seven bits wide and a pitch bend is fourteen bits wide; see
/// [`Message::well_formed`].
#[derive(Debug, Copy, Clone, PartialEq, Eq, Hash)]
pub enum Message {
    /// Stop playing a note.
    NoteOff { key: u8, vel: u8 },
    /// Start playing a note.
    NoteOn { key: u8, vel: u8 },
    /// Change the pressure on a note that is already playing.
    Aftertouch { key: u8, vel: u8 },
    /// Change the value of a controller.
    Controller { controller: u8, value: u8 },
    /// Change the program (instrument) of the channel.
    ProgramChange { program: u8 },
    /// Change the pressure on every note of the channel.
    ChannelAftertouch { vel: u8 },
    /// Bend the pitch of the whole channel; `0x2000` is the centre.
    PitchBend { bend: u16 },
}

impl Message {
    /// The key that the message carries, where it carries one.
    pub open spec fn key(self) -> Option<u8> {
        match self {
            Message::NoteOff { key, .. } => Some(key),
            Message::NoteOn { key, .. } => Some(key),
            Message::Aftertouch { key, .. } => Some(key),
            _ => None,
        }
    }

    /// The same message on another key. Messages without a key are unchanged.
    pub open spec fn with_key(self, k: u8) -> Message {
        match self {
            Message::NoteOff { vel, .. } => Message::NoteOff { key: k, vel },
            Message::NoteOn { vel, .. } => Message::NoteOn { key: k, vel },
            Message::Aftertouch { vel, .. } => Message::Aftertouch { key: k, vel },
            other => other,
        }
    }

    /// Every data byte fits in seven bits and the bend in fourteen.
    pub open spec fn well_formed(self) -> bool {
        match self {
            Message::NoteOff { key, vel } => key < 128 && vel < 128,
            Message::NoteOn { key, vel } => key < 128 && vel < 128,
            Message::Aftertouch { key, vel } => key < 128 && vel < 128,
            Message::Controller { controller, value } => controller < 128 && value < 128,
            Message::ProgramChange { program } => program < 128,
            Message::ChannelAftertouch { vel } => vel < 128,
            Message::PitchBend { bend } => bend < 0x4000,
        }
    }

    /// The upper four bits of the status byte that announces this kind of
    /// message on the wire.
    pub open spec fn status_nibble(self) -> u8 {
        match self {
            Message::NoteOff { .. } => 0x80,
            Message::NoteOn { .. } => 0x90,
            Message::Aftertouch { .. } => 0xA0,
            Message::Controller { .. } => 0xB0,
            Message::ProgramChange { .. } => 0xC0,
            Message::ChannelAftertouch { .. } => 0xD0,
            Message::PitchBend { .. } => 0xE0,
        }
    }

    /// The data bytes that follow the status byte. Bits beyond the seventh of
    /// a data byte, and beyond the fourteenth of a bend, never reach the wire.
    pub open spec fn data_bytes(self) -> Seq<u8> {
        match self {
            Message::NoteOff { key, vel } => seq![key & 0x7F, vel & 0x7F],
            Message::NoteOn { key, vel } => seq![key & 0x7F, vel & 0x7F],
            Message::Aftertouch { key, vel } => seq![key & 0x7F, vel & 0x7F],
            Message::Controller { controller, value } => seq![controller & 0x7F, value & 0x7F],
            Message::ProgramChange { program } => seq![program & 0x7F],
            Message::ChannelAftertouch { vel } => seq![vel & 0x7F],
            Message::PitchBend { bend } => seq![low_seven(bend), low_seven(bend >> 7)],
        }
    }
}

/// The lowest seven bits of `x`.
pub open spec fn low_seven(x: u16) -> u8 {
    (x & 0x7F) as u8
}

/// A message addressed to one of the sixteen channels. This is what a
/// synthesizer is fed.
#[derive(Debug, Copy, Clone, PartialEq, Eq, Hash)]
pub struct MidiEvent {
    /// The channel that the message is sent to, `0..=15`.
    pub channel: u8,
    /// The message body.
    pub message: Message,
}

impl MidiEvent {
    /// The channel fits in four bits and the body is well formed.
    pub open spec fn well_formed(self) -> bool {
        self.channel < 16 && self.message.well_formed()
    }

    /// The bytes of the message as a device expects them: the status byte,
    /// which holds the kind of message and the channel, then the data bytes.
    pub open spec fn encoded(self) -> Seq<u8> {
        seq![self.message.status_nibble() | (self.channel & 0x0F)] + self.message.data_bytes()
    }
}

/// One event of a timeline.
#[derive(Debug, Copy, Clone, PartialEq, Eq, Hash)]
pub enum Event {
    /// A tempo change: microseconds per beat.
    Tempo(u32),
    /// Numerator, denominator (as a negative power of two), MIDI clocks per
    /// click, thirty-second notes per quarter.
    TimeSignature(u8, u8, u8, u8),
    /// Sharps (positive) or flats (negative), and whether the scale is minor.
    KeySignature(i8, bool),
    /// A channel message.
    Midi(MidiEvent),
}

/// A meta message of a track, as far as a timeline can use it.
#[derive(Debug, Copy, Clone, PartialEq, Eq, Hash)]
pub enum Meta {
    /// Microseconds per beat; at most twenty-four bits.
    Tempo(u32),
    /// Numerator, denominator (as a negative power of two), MIDI clocks per
    /// click, thirty-second notes per quarter.
    TimeSignature(u8, u8, u8, u8),
    /// Sharps (positive) or flats (negative), and whether the scale is minor.
    KeySignature(i8, bool),
    /// Any other meta message: text, markers, the end of the track, and so on.
    Other,
}

/// What a track event holds, without its timing.
#[derive(Debug, Copy, Clone, PartialEq, Eq, Hash)]
pub enum RawKind {
    /// A channel message.
    Midi { channel: u8, message: Message },
    /// A system exclusive message.
    SysEx,
    /// An escape sequence.
    Escape,
    /// A meta message.
    Meta(Meta),
}

/// An event of a track, with the number of ticks that passed since the event
/// before it in the same track.
#[derive(Debug, Copy, Clone, PartialEq, Eq, Hash)]
pub struct RawEvent {
    /// Ticks since the previous event of the track.
    pub delta: u32,
    /// The event itself.
    pub kind: RawKind,
}

impl RawKind {
    /// Every field is in the range that a file can hold.
    pub open spec fn well_formed(self) -> bool {
        match self {
            RawKind::Midi { channel, message } => channel < 16 && message.well_formed(),
            RawKind::Meta(Meta::Tempo(t)) => t < 0x100_0000,
            _ => true,
        }
    }
}

impl RawEvent {
    /// The delta fits in twenty-eight bits, and every field of the event is in
    /// the range that a file can hold.
    pub open spec fn well_formed(self) -> bool {
        self.delta < 0x1000_0000 && self.kind.well_formed()
    }
}

impl Event {
    /// The timeline event that a track event stands for, if it stands for one.
    pub open spec fn recognized(kind: RawKind) -> Option<Event> {
        match kind {
            RawKind::Midi { channel, message } => Some(
                Event::Midi(MidiEvent { channel, message }),
            ),
            RawKind::Meta(Meta::Tempo(n)) => Some(Event::Tempo(n)),
            RawKind::Meta(Meta::TimeSignature(a, b, c, d)) => Some(
                Event::TimeSignature(a, b, c, d),
            ),
            RawKind::Meta(Meta::KeySignature(a, b)) => Some(
                Event::KeySignature(a, b),
            ),
            _ => None,
        }
    }

    /// Every field of a channel message is in its range. Meta events have no
    /// restricted fields.
    pub open spec fn well_formed(self) -> bool {
        match self {
            Event::Midi(m) => m.well_formed(),
            _ => true,
        }
    }

    /// Converts a track event into a timeline event.
    ///
    /// Channel messages, tempo changes, time signatures and key signatures are
    /// converted; every other kind is refused.
    pub fn try_from(kind: RawKind) -> (r: Result<Event, &'static str>)
        ensures
            match r {
                Ok(e) => Event::recognized(kind) == Some(e),
                Err(text) => Event::recognized(kind) is None && text@ == "not a valid event"@,
            },
    {
        match kind {
            RawKind::Midi { channel, message } => Ok(
                Event::Midi(MidiEvent { channel, message }),
            ),
            RawKind::Meta(Meta::Tempo(n)) => Ok(Event::Tempo(n)),
            RawKind::Meta(Meta::TimeSignature(a, b, c, d)) => Ok(
                Event::TimeSignature(a, b, c, d),
            ),
            RawKind::Meta(Meta::KeySignature(a, b)) => Ok(Event::KeySignature(a, b)),
            _ => Err("not a valid event"),
        }
    }
}

/// Everything that happens at one tick, in the order in which it was added.
#[derive(Debug, Default, Clone, PartialEq, Eq, Hash)]
pub struct Moment {
    /// The events of this tick.
    pub events: Vec<Event>,
}

impl View for Moment {
    type V = Seq<Event>;

    open spec fn view(&self) -> Seq<Event> {
        self.events@
    }
}

impl Moment {
    /// A moment in which nothing happens.
    pub fn new() -> (m: Moment)
        ensures
            m@ == Seq::<Event>::empty(),
    {
        Moment { events: Vec::new() }
    }

    /// Whether nothing happens in this moment.
    pub fn is_empty(&self) -> (b: bool)
        ensures
            b == (self@.len() == 0),
    {
        self.events.len() == 0
    }

    /// The number of events in this moment.
    pub fn len(&self) -> (n: usize)
        ensures
            n == self@.len(),
    {
        self.events.len()
    }

    /// Adds an event after those already there.
    pub fn push(&mut self, e: Event)
        ensures
            final(self)@ == old(self)@.push(e),
    {
        self.events.push(e);
    }
}

/// What a run of moments holds: for each tick, its events in order.
pub open spec fn timeline(moments: Seq<Moment>) -> Seq<Seq<Event>> {
    Seq::new(moments.len(), |i: int| moments[i]@)
}

/// A timeline grows with each moment that is added to the run.
pub proof fn lemma_timeline_push(moments: Seq<Moment>, m: Moment)
    ensures
        timeline(moments.push(m)) == timeline(moments).push(m@),
{
    assert(timeline(moments.push(m)) =~= timeline(moments).push(m@));
}

/// The timeline of two runs joined is the two timelines joined.
pub proof fn lemma_timeline_add(a: Seq<Moment>, b: Seq<Moment>)
    ensures
        timeline(a + b) == timeline(a) + timeline(b),
{
    assert(timeline(a + b) =~= timeline(a) + timeline(b));
}

} // verus!
