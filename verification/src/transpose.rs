use vstd::prelude::*;
use crate::event::{Event, MidiEvent, Message, Moment};

verus! {

/// The key `shift` semitones away from `key`, if there is such a key.
pub open spec fn shifted_key(key: u8, shift: i8) -> Option<u8> {
    if 0 <= key + shift <= 127 {
        Some((key + shift) as u8)
    } else {
        None
    }
}

fn shift_key(key: u8, shift: i8) -> (r: Option<u8>)
    ensures
        r == shifted_key(key, shift),
{
    let wide: i16 = key as i16 + shift as i16;
    if 0 <= wide && wide < 128 {
        Some(wide as u8)
    } else {
        None
    }
}

impl MidiEvent {
    /// Whether a transposition by `shift` touches this message: the shift is
    /// not zero, the message carries a key, and its channel is not the
    /// percussion channel (index 9) unless `transpose_ch9` is set.
    pub open spec fn is_shifted(self, shift: i8, transpose_ch9: bool) -> bool {
        shift != 0 && (transpose_ch9 || self.channel != 9) && self.message.key() is Some
    }

    /// What becomes of this message under a transposition: itself where the
    /// transposition does not touch it, the message on the shifted key where
    /// that key exists, and nothing where it does not.
    pub open spec fn transposed_spec(self, shift: i8, transpose_ch9: bool) -> Option<MidiEvent> {
        if !self.is_shifted(shift, transpose_ch9) {
            Some(self)
        } else {
            match shifted_key(self.message.key().unwrap(), shift) {
                Some(k) => Some(
                    MidiEvent { channel: self.channel, message: self.message.with_key(k) },
                ),
                None => None,
            }
        }
    }

    /// Transposes the message by `shift` semitones.
    ///
    /// Only note-on, note-off and aftertouch messages carry a key. A message
    /// on channel 9 is left alone unless `transpose_ch9` is set. A message
    /// whose key would leave `0..=127` is dropped: the result is `None`.
    pub fn transposed(self, shift: i8, transpose_ch9: bool) -> (r: Option<MidiEvent>)
        ensures
            r == self.transposed_spec(shift, transpose_ch9),
    {
        if shift == 0 || (!transpose_ch9 && self.channel == 9) {
            return Some(self);
        }
        let message = match self.message {
            Message::NoteOn { key, vel } => match shift_key(key, shift) {
                Some(key) => Message::NoteOn { key, vel },
                None => { return None; },
            },
            Message::NoteOff { key, vel } => match shift_key(key, shift) {
                Some(key) => Message::NoteOff { key, vel },
                None => { return None; },
            },
            Message::Aftertouch { key, vel } => match shift_key(key, shift) {
                Some(key) => Message::Aftertouch { key, vel },
                None => { return None; },
            },
            other => other,
        };
        Some(MidiEvent { channel: self.channel, message })
    }
}

impl Event {
    /// What becomes of this event under a transposition. Only channel
    /// messages are touched.
    pub open spec fn transposed_spec(self, shift: i8, transpose_ch9: bool) -> Option<Event> {
        match self {
            Event::Midi(m) => match m.transposed_spec(shift, transpose_ch9) {
                Some(t) => Some(Event::Midi(t)),
                None => None,
            },
            other => Some(other),
        }
    }

    /// Transposes the event; see [`MidiEvent::transposed`].
    pub fn transposed(self, shift: i8, transpose_ch9: bool) -> (r: Option<Event>)
        ensures
            r == self.transposed_spec(shift, transpose_ch9),
    {
        match self {
            Event::Midi(m) => match m.transposed(shift, transpose_ch9) {
                Some(t) => Some(Event::Midi(t)),
                None => None,
            },
            other => Some(other),
        }
    }

    /// Whether a transposition shifts or drops this event.
    pub open spec fn is_shifted(self, shift: i8, transpose_ch9: bool) -> bool {
        match self {
            Event::Midi(m) => m.is_shifted(shift, transpose_ch9),
            _ => false,
        }
    }

    fn shifts(&self, shift: i8, transpose_ch9: bool) -> (b: bool)
        ensures
            b == self.is_shifted(shift, transpose_ch9),
            b == (self.transposed_spec(shift, transpose_ch9) != Some(*self)),
    {
        match self {
            Event::Midi(m) => {
                let keyed = match m.message {
                    Message::NoteOn { .. } => true,
                    Message::NoteOff { .. } => true,
                    Message::Aftertouch { .. } => true,
                    _ => false,
                };
                shift != 0 && (transpose_ch9 || m.channel != 9) && keyed
            },
            _ => false,
        }
    }
}

/// The events of a moment after a transposition: each event that survives,
/// shifted, in the order in which they stood.
pub open spec fn transposed_events(events: Seq<Event>, shift: i8, transpose_ch9: bool) -> Seq<
    Event,
> {
    events.filter_map(|e: Event| e.transposed_spec(shift, transpose_ch9))
}

impl Moment {
    /// Transposes every note of the moment by `shift` semitones and reports
    /// whether the moment changed.
    ///
    /// Notes that would leave `0..=127` are dropped, so a moment may end up
    /// empty. Channel 9 is left alone unless `transpose_ch9` is set.
    pub fn transpose(&mut self, shift: i8, transpose_ch9: bool) -> (changed: bool)
        ensures
            final(self)@ == transposed_events(old(self)@, shift, transpose_ch9),
            changed == (final(self)@ != old(self)@),
            shift == 0 ==> !changed,
    {
        let ghost f = |e: Event| e.transposed_spec(shift, transpose_ch9);
        let ghost before = self@;
        let mut out: Vec<Event> = Vec::new();
        let mut changed = false;
        let n = self.events.len();
        let mut i: usize = 0;
        assert(before.take(0).filter_map(f) =~= Seq::<Event>::empty());
        assert(before.take(0) =~= out@);
        while i < n
            invariant
                i <= n,
                n == before.len(),
                self@ == before,
                f == (|e: Event| e.transposed_spec(shift, transpose_ch9)),
                out@ == before.take(i as int).filter_map(f),
                out@.len() <= i,
                changed == (out@ != before.take(i as int)),
                shift == 0 ==> !changed,
            decreases n - i,
        {
            let e = self.events[i];
            let ghost prev = out@;
            proof {
                before.lemma_filter_map_take_succ(f, i as int);
                assert(before.take(i + 1) =~= before.take(i as int).push(e));
            }
            let moved = e.shifts(shift, transpose_ch9);
            match e.transposed(shift, transpose_ch9) {
                Some(t) => {
                    out.push(t);
                },
                None => {},
            }
            proof {
                if changed {
                    if prev.len() == i {
                        assert(!(prev =~= before.take(i as int)));
                        let j = choose|j: int|
                            0 <= j < i && prev[j] != #[trigger] before.take(i as int)[j];
                        assert(out@[j] == prev[j]);
                        assert(before.take(i + 1)[j] == before.take(i as int)[j]);
                    }
                } else if !moved {
                    assert(out@ =~= before.take(i + 1));
                } else if out@.len() == i + 1 {
                    assert(out@[i as int] != before.take(i + 1)[i as int]);
                }
            }
            changed = changed || moved;
            i += 1;
        }
        assert(before.take(n as int) =~= before);
        self.events = out;
        changed
    }
}

/// Undoing a transposition gives back exactly the events that it kept.
///
/// Transposing by `shift` and then by `-shift` leaves every event whose key
/// stayed within `0..=127`, unchanged and in place; the events that the first
/// step dropped stay dropped.
pub proof fn lemma_transpose_round_trip(events: Seq<Event>, shift: i8, transpose_ch9: bool)
    requires
        shift != -128,
        forall|i: int| 0 <= i < events.len() ==> (#[trigger] events[i]).well_formed(),
    ensures
        transposed_events(
            transposed_events(events, shift, transpose_ch9),
            (-shift) as i8,
            transpose_ch9,
        ) == events.filter(|e: Event| e.transposed_spec(shift, transpose_ch9) is Some),
    decreases events.len(),
{
    let back = (-shift) as i8;
    let f = |e: Event| e.transposed_spec(shift, transpose_ch9);
    let g = |e: Event| e.transposed_spec(back, transpose_ch9);
    let kept = |e: Event| e.transposed_spec(shift, transpose_ch9) is Some;
    if events.len() == 0 {
        assert(events.filter_map(f) =~= Seq::<Event>::empty());
        assert(Seq::<Event>::empty().filter_map(g) =~= Seq::<Event>::empty());
        assert(events.filter(kept) =~= Seq::<Event>::empty()) by {
            events.lemma_filter_len(kept);
        }
    } else {
        let rest = events.drop_last();
        let x = events.last();
        lemma_transpose_round_trip(rest, shift, transpose_ch9);
        assert(events =~= rest.push(x));
        rest.lemma_filter_push(x, kept);
        match f(x) {
            Some(y) => {
                let forth = rest.filter_map(f);
                assert(events.filter_map(f) == forth + seq![y]);
                assert((forth + seq![y]).drop_last() =~= forth);
                assert((forth + seq![y]).last() == y);
                assert(g(y) == Some(x));
                assert((forth + seq![y]).filter_map(g) == forth.filter_map(g) + seq![x]);
                assert(forth.filter_map(g) + seq![x] =~= rest.filter(kept).push(x));
            },
            None => {},
        }
    }
}

/// A moment that a transposition leaves whole comes back unchanged when the
/// transposition is undone.
pub proof fn lemma_transpose_undo(events: Seq<Event>, shift: i8, transpose_ch9: bool)
    requires
        shift != -128,
        forall|i: int| 0 <= i < events.len() ==> (#[trigger] events[i]).well_formed(),
        forall|i: int|
            0 <= i < events.len() ==> (#[trigger] events[i]).transposed_spec(
                shift,
                transpose_ch9,
            ) is Some,
    ensures
        transposed_events(
            transposed_events(events, shift, transpose_ch9),
            (-shift) as i8,
            transpose_ch9,
        ) == events,
{
    let kept = |e: Event| e.transposed_spec(shift, transpose_ch9) is Some;
    lemma_transpose_round_trip(events, shift, transpose_ch9);
    lemma_filter_all(events, kept);
}

/// A filter that every element passes changes nothing.
pub proof fn lemma_filter_all<A>(s: Seq<A>, pred: spec_fn(A) -> bool)
    requires
        forall|i: int| 0 <= i < s.len() ==> pred(#[trigger] s[i]),
    ensures
        s.filter(pred) == s,
    decreases s.len(),
{
    reveal(Seq::filter);
    if s.len() > 0 {
        lemma_filter_all(s.drop_last(), pred);
        assert(s.drop_last().push(s.last()) =~= s);
    }
}

} // verus!
