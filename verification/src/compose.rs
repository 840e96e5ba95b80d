//! Connections that wrap another connection: each does its part and has
//! the connection behind it play. What is wrapped last is applied first.

use vstd::prelude::*;
use crate::event::MidiEvent;
use crate::player::Connection;

verus! {

/// A connection that transposes what it is given and has another connection
/// play it.
#[derive(Debug, Clone)]
pub struct Transpose<C: Connection> {
    /// The transposition in semitones.
    pub shift: i8,
    /// Whether the percussion channel (channel 9) is transposed too.
    pub transpose_ch9: bool,
    /// The connection that plays.
    pub con: C,
}

impl<C: Connection> Connection for Transpose<C> {
    /// Has the connection behind play the transposed message, and answers
    /// as it does. A message that the transposition drops counts as played,
    /// and the connection behind never hears of it.
    fn play(&mut self, event: MidiEvent) -> (ok: bool)
        ensures
            final(self).shift == old(self).shift,
            final(self).transpose_ch9 == old(self).transpose_ch9,
            match event.transposed_spec(old(self).shift, old(self).transpose_ch9) {
                Some(e) => exists|r: &mut C|
                    *r == old(self).con && *final(r) == final(self).con && #[trigger] call_ensures(
                        C::play,
                        (r, e),
                        ok,
                    ),
                None => ok && final(self).con == old(self).con,
            },
    {
        match event.transposed(self.shift, self.transpose_ch9) {
            Some(e) => self.con.play(e),
            None => true,
        }
    }
}

/// A function from messages to messages that accepts every message.
pub struct EventMap<F: Fn(MidiEvent) -> MidiEvent> {
    f: F,
}

impl<F: Fn(MidiEvent) -> MidiEvent> EventMap<F> {
    #[verifier::type_invariant]
    spec fn total(&self) -> bool {
        forall|e: MidiEvent| call_requires(self.f, (e,))
    }

    /// What the function may give for `event`.
    pub closed spec fn gives(&self, event: MidiEvent, r: MidiEvent) -> bool {
        call_ensures(self.f, (event,), r)
    }

    /// Takes `f`, which must accept every message.
    pub fn new(f: F) -> (m: Self)
        requires
            forall|e: MidiEvent| call_requires(f, (e,)),
        ensures
            forall|e: MidiEvent, r: MidiEvent| m.gives(e, r) == call_ensures(f, (e,), r),
    {
        EventMap { f }
    }

    /// Applies the function.
    pub fn apply(&self, event: MidiEvent) -> (r: MidiEvent)
        ensures
            self.gives(event, r),
    {
        proof {
            use_type_invariant(self);
        }
        (self.f)(event)
    }
}

/// A test on messages that accepts every message.
pub struct EventTest<F: Fn(&MidiEvent) -> bool> {
    f: F,
}

impl<F: Fn(&MidiEvent) -> bool> EventTest<F> {
    #[verifier::type_invariant]
    spec fn total(&self) -> bool {
        forall|e: MidiEvent| call_requires(self.f, (&e,))
    }

    /// What the test may say of `event`.
    pub closed spec fn says(&self, event: MidiEvent, r: bool) -> bool {
        call_ensures(self.f, (&event,), r)
    }

    /// Takes `f`, which must accept every message.
    pub fn new(f: F) -> (t: Self)
        requires
            forall|e: MidiEvent| call_requires(f, (&e,)),
        ensures
            forall|e: MidiEvent, r: bool| t.says(e, r) == call_ensures(f, (&e,), r),
    {
        EventTest { f }
    }

    /// Applies the test.
    pub fn check(&self, event: &MidiEvent) -> (r: bool)
        ensures
            self.says(*event, r),
    {
        proof {
            use_type_invariant(self);
        }
        (self.f)(event)
    }
}

/// A connection that maps what it is given and has another connection play
/// the result.
pub struct Mapped<C: Connection, F: Fn(MidiEvent) -> MidiEvent> {
    /// The mapping.
    pub f: EventMap<F>,
    /// The connection that plays.
    pub con: C,
}

impl<C: Connection, F: Fn(MidiEvent) -> MidiEvent> Connection for Mapped<C, F> {
    /// Has the connection behind play what the mapping makes of the
    /// message, and answers as it does.
    fn play(&mut self, event: MidiEvent) -> (ok: bool)
        ensures
            final(self).f == old(self).f,
            exists|e: MidiEvent, r: &mut C|
                old(self).f.gives(event, e) && *r == old(self).con
                    && *final(r) == final(self).con
                    && #[trigger] call_ensures(C::play, (r, e), ok),
    {
        let e = self.f.apply(event);
        self.con.play(e)
    }
}

/// A connection that has another connection play the messages that pass a
/// test.
pub struct Filter<C: Connection, F: Fn(&MidiEvent) -> bool> {
    /// The connection that plays.
    pub con: C,
    /// The test.
    pub f: EventTest<F>,
}

impl<C: Connection, F: Fn(&MidiEvent) -> bool> Connection for Filter<C, F> {
    /// Has the connection behind play the message if it passes the test,
    /// and answers as it does. A message that fails the test counts as
    /// played, and the connection behind never hears of it.
    fn play(&mut self, event: MidiEvent) -> (ok: bool)
        ensures
            final(self).f == old(self).f,
            (old(self).f.says(event, true) && exists|r: &mut C|
                *r == old(self).con && *final(r) == final(self).con && #[trigger] call_ensures(
                    C::play,
                    (r, event),
                    ok,
                )) || (old(self).f.says(event, false) && ok && final(self).con == old(self).con),
    {
        if self.f.check(&event) {
            self.con.play(event)
        } else {
            true
        }
    }
}

/// Wrapping a connection. Every connection can be wrapped.
pub trait Compose: Connection + Sized {
    /// A connection that transposes by `shift` semitones and has `self` play.
    fn transpose(self, shift: i8, transpose_ch9: bool) -> (t: Transpose<Self>)
        ensures
            t.con == self,
            t.shift == shift,
            t.transpose_ch9 == transpose_ch9,
    {
        Transpose { shift, transpose_ch9, con: self }
    }

    /// A connection that applies `f` to each message and has `self` play
    /// what comes out.
    fn map<F: Fn(MidiEvent) -> MidiEvent>(self, f: F) -> (m: Mapped<Self, F>)
        requires
            forall|e: MidiEvent| call_requires(f, (e,)),
        ensures
            m.con == self,
            forall|e: MidiEvent, r: MidiEvent| m.f.gives(e, r) == call_ensures(f, (e,), r),
    {
        Mapped { f: EventMap::new(f), con: self }
    }

    /// A connection that has `self` play the messages of which `f` says
    /// `true`.
    fn filter<F: Fn(&MidiEvent) -> bool>(self, f: F) -> (m: Filter<Self, F>)
        requires
            forall|e: MidiEvent| call_requires(f, (&e,)),
        ensures
            m.con == self,
            forall|e: MidiEvent, r: bool| m.f.says(e, r) == call_ensures(f, (&e,), r),
    {
        Filter { con: self, f: EventTest::new(f) }
    }
}

impl<C: Connection> Compose for C {
}

} // verus!
