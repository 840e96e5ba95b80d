use vstd::prelude::*;
use crate::event::{timeline, Event, MidiEvent, Moment, RawEvent};
use crate::sheet::{events_at, merged, parallel_tracks, single_track};
use crate::timer::{on_the_way, Timer};

verus! {

/// One thing that playing a timeline takes.
#[derive(Debug, Copy, Clone, PartialEq, Eq)]
pub enum Action {
    /// Wait for this many ticks at the tempo in force. It comes once before
    /// the events of each tick that has events, also when there is nothing to
    /// wait for.
    Sleep(u32),
    /// Set the tempo to this many microseconds per beat.
    Tempo(u32),
    /// Hand the message to the sink.
    Send(MidiEvent),
}

/// What a playback says when it is asked how to go on.
#[derive(Debug, Copy, Clone, PartialEq, Eq)]
pub enum Step {
    /// Do this, and ask again.
    Do(Action),
    /// The timeline was played to its end.
    Finished,
    /// The sink refused a message: the playback was given up.
    Stopped,
}

/// What the driver does for one event: it follows a tempo change, hands a
/// channel message to the sink, and passes over the rest.
pub open spec fn action_of(e: Event) -> Option<Action> {
    match e {
        Event::Tempo(t) => Some(Action::Tempo(t)),
        Event::Midi(m) => Some(Action::Send(m)),
        _ => None,
    }
}

/// What the driver does for the events of one tick, in their order.
pub open spec fn dispatches(events: Seq<Event>) -> Seq<Action> {
    events.filter_map(|e: Event| action_of(e))
}

/// The ticks to wait before the events that follow `moments`: the ticks since
/// the last tick that had events, or all of them if none had.
pub open spec fn gap_after(moments: Seq<Seq<Event>>) -> nat
    decreases moments.len(),
{
    if moments.len() == 0 {
        0
    } else if moments.last().len() == 0 {
        gap_after(moments.drop_last()) + 1
    } else {
        1
    }
}

/// Everything that playing a timeline takes, in order: for each tick that
/// has events, the wait for the gap since the last such tick, then that
/// tick's tempo changes and messages as they stand. A tempo change therefore
/// comes after the wait that leads to its tick, and bears on later waits
/// only.
pub open spec fn plan_of(moments: Seq<Seq<Event>>) -> Seq<Action>
    decreases moments.len(),
{
    if moments.len() == 0 {
        Seq::empty()
    } else if moments.last().len() == 0 {
        plan_of(moments.drop_last())
    } else {
        plan_of(moments.drop_last()) + seq![Action::Sleep(gap_after(moments.drop_last()) as u32)]
            + dispatches(moments.last())
    }
}

/// No gap is longer than the timeline.
pub proof fn lemma_gap_bound(moments: Seq<Seq<Event>>)
    ensures
        gap_after(moments) <= moments.len(),
    decreases moments.len(),
{
    if moments.len() > 0 {
        lemma_gap_bound(moments.drop_last());
    }
}

/// Lists everything that playing `sheet` takes.
pub fn plan(sheet: &[Moment]) -> (actions: Vec<Action>)
    requires
        sheet@.len() <= u32::MAX,
    ensures
        actions@ == plan_of(timeline(sheet@)),
{
    let ghost all = timeline(sheet@);
    let ghost f = |e: Event| action_of(e);
    let mut actions: Vec<Action> = Vec::new();
    let mut gap: u32 = 0;
    let mut i: usize = 0;
    assert(all.take(0) =~= Seq::<Seq<Event>>::empty());
    while i < sheet.len()
        invariant
            i <= sheet.len() <= u32::MAX,
            all == timeline(sheet@),
            f == (|e: Event| action_of(e)),
            actions@ == plan_of(all.take(i as int)),
            gap == gap_after(all.take(i as int)),
        decreases sheet.len() - i,
    {
        proof {
            assert(all.take(i + 1).drop_last() =~= all.take(i as int));
            lemma_gap_bound(all.take(i as int));
        }
        let n = sheet[i].events.len();
        if n == 0 {
            gap += 1;
        } else {
            let ghost before = actions@;
            actions.push(Action::Sleep(gap));
            let mut j: usize = 0;
            assert(all[i as int].take(0).filter_map(f) =~= Seq::<Action>::empty());
            assert(actions@ =~= before + seq![Action::Sleep(gap)] + all[i as int].take(0).filter_map(
                f,
            ));
            while j < n
                invariant
                    i < sheet.len(),
                    all == timeline(sheet@),
                    f == (|e: Event| action_of(e)),
                    n == all[i as int].len(),
                    j <= n,
                    actions@ == before + seq![Action::Sleep(gap)] + all[i as int].take(
                        j as int,
                    ).filter_map(f),
                decreases n - j,
            {
                proof {
                    all[i as int].lemma_filter_map_take_succ(f, j as int);
                }
                match sheet[i].events[j] {
                    Event::Tempo(t) => {
                        actions.push(Action::Tempo(t));
                    },
                    Event::Midi(m) => {
                        actions.push(Action::Send(m));
                    },
                    _ => {},
                }
                assert(actions@ =~= before + seq![Action::Sleep(gap)] + all[i as int].take(
                    j + 1,
                ).filter_map(f));
                j += 1;
            }
            assert(all[i as int].take(n as int) =~= all[i as int]);
            gap = 1;
        }
        i += 1;
    }
    assert(all.take(i as int) =~= all);
    actions
}

/// Where a playback stands.
pub struct PlaybackView {
    /// Everything that the playback takes.
    pub plan: Seq<Action>,
    /// How much of it was handed out.
    pub done: nat,
    /// Whether the sink refused a message.
    pub stopped: bool,
}

impl PlaybackView {
    /// The step that comes next, when `accepted` is the sink's answer to the
    /// message that was handed out last: nothing more once the sink has
    /// refused a message, else the next action of the plan.
    pub open spec fn next_step(self, accepted: bool) -> Step {
        if self.stopped || !accepted {
            Step::Stopped
        } else if self.done < self.plan.len() {
            Step::Do(self.plan[self.done as int])
        } else {
            Step::Finished
        }
    }

    /// Where the playback stands after that step.
    pub open spec fn advanced(self, accepted: bool) -> PlaybackView {
        if self.stopped || !accepted {
            PlaybackView { stopped: true, ..self }
        } else if self.done < self.plan.len() {
            PlaybackView { done: self.done + 1, ..self }
        } else {
            self
        }
    }

    /// The steps that come out for a run of answers, one for each.
    pub open spec fn run(self, answers: Seq<bool>) -> Seq<Step>
        decreases answers.len(),
    {
        if answers.len() == 0 {
            Seq::empty()
        } else {
            seq![self.next_step(answers.first())] + self.advanced(answers.first()).run(
                answers.drop_first(),
            )
        }
    }
}

/// The decisions of a playback: it says what to do next, the driver does it
/// and reports how the sink took the last message.
///
/// The driver waits on `Sleep`, sets the tempo of its timer on `Tempo`, hands
/// the message to its sink on `Send`, and is done on `Finished` and on
/// `Stopped`. [`Player`] is such a driver.
#[derive(Debug, PartialEq, Eq)]
pub struct Playback {
    actions: Vec<Action>,
    done: usize,
    stopped: bool,
}

impl View for Playback {
    type V = PlaybackView;

    closed spec fn view(&self) -> PlaybackView {
        PlaybackView { plan: self.actions@, done: self.done as nat, stopped: self.stopped }
    }
}

impl Playback {
    #[verifier::type_invariant]
    spec fn within_plan(&self) -> bool {
        self.done <= self.actions@.len()
    }

    /// A playback of `sheet` from its first tick.
    pub fn new(sheet: &[Moment]) -> (p: Playback)
        requires
            sheet@.len() <= u32::MAX,
        ensures
            p@ == (PlaybackView { plan: plan_of(timeline(sheet@)), done: 0, stopped: false }),
    {
        Playback { actions: plan(sheet), done: 0, stopped: false }
    }

    /// The next step. `accepted` is the sink's answer to the message that
    /// the last step handed out, and `true` where it handed out none.
    ///
    /// After a refusal every step is `Stopped`: no message follows the one
    /// that the sink refused.
    pub fn advance(&mut self, accepted: bool) -> (step: Step)
        ensures
            step == old(self)@.next_step(accepted),
            final(self)@ == old(self)@.advanced(accepted),
    {
        proof {
            use_type_invariant(&*self);
        }
        if self.stopped || !accepted {
            self.stopped = true;
            Step::Stopped
        } else if self.done < self.actions.len() {
            let action = self.actions[self.done];
            self.done += 1;
            Step::Do(action)
        } else {
            Step::Finished
        }
    }
}

/// Anything that can play a channel message: a device, a synthesizer, or
/// something that stands in for one.
pub trait Connection {
    /// Plays the message. A playback is given up when this returns `false`.
    fn play(&mut self, event: MidiEvent) -> bool;

    /// Sends a system realtime message. Does nothing unless the connection
    /// has its own way.
    fn send_sys_rt(&mut self, _msg: midly::live::SystemRealtime) {
    }

    /// Sends a system common message. Does nothing unless the connection has
    /// its own way.
    fn send_sys_common(&mut self, _msg: midly::live::SystemCommon<'_>) {
    }
}

/// Whether carrying out `actions` can take a timer and a connection from
/// `before` to `after`, when `tempo(a, t, b)` says that a change to tempo `t`
/// can take the timer from `a` to `b`, and `send(a, e, ok, b)` that the
/// connection can go from `a` to `b` on message `e` and answer `ok`.
///
/// The actions are carried out in order. A wait leaves both as they are, a
/// tempo change goes to the timer and leaves the connection, and a message
/// goes to the connection and leaves the timer. Every message is accepted,
/// but for the last action when `refused` is set: that is then a message, and
/// the connection refused it.
pub open spec fn played<T, C>(
    tempo: spec_fn(T, u32, T) -> bool,
    send: spec_fn(C, MidiEvent, bool, C) -> bool,
    actions: Seq<Action>,
    before: (T, C),
    after: (T, C),
    refused: bool,
) -> bool
    decreases actions.len(),
{
    if actions.len() == 0 {
        before == after && !refused
    } else {
        exists|mid: (T, C)|
            #![trigger on_the_way(mid)]
            on_the_way(mid) && played(tempo, send, actions.drop_last(), before, mid, false) && (
            match actions.last() {
                Action::Sleep(_) => mid == after && !refused,
                Action::Tempo(t) => tempo(mid.0, t, after.0) && mid.1 == after.1 && !refused,
                Action::Send(e) => mid.0 == after.0 && send(mid.1, e, !refused, after.1),
            })
    }
}

/// One more action after a run of actions.
pub proof fn lemma_played_step<T, C>(
    tempo: spec_fn(T, u32, T) -> bool,
    send: spec_fn(C, MidiEvent, bool, C) -> bool,
    actions: Seq<Action>,
    before: (T, C),
    mid: (T, C),
    after: (T, C),
    refused: bool,
)
    requires
        actions.len() > 0,
        played(tempo, send, actions.drop_last(), before, mid, false),
        match actions.last() {
            Action::Sleep(_) => mid == after && !refused,
            Action::Tempo(t) => tempo(mid.0, t, after.0) && mid.1 == after.1 && !refused,
            Action::Send(e) => mid.0 == after.0 && send(mid.1, e, !refused, after.1),
        },
    ensures
        played(tempo, send, actions, before, after, refused),
{
    assert(on_the_way(mid));
}

/// Why a player stopped to hand over to its caller.
#[derive(Debug, Copy, Clone, PartialEq, Eq)]
pub enum Pace {
    /// It is time to wait for this many ticks at the tempo of the player's
    /// timer, and then to go on playing.
    Sleep(u32),
    /// The timeline was played to its end.
    Finished,
    /// The connection refused a message: the playback was given up.
    Stopped,
}

/// Plays timelines on a connection, at the pace that a timer sets.
///
/// A player cannot wait by itself. It plays up to the next wait and names it;
/// its caller waits and has it play on.
pub struct Player<T: Timer, C: Connection> {
    /// The connection that the messages go to.
    pub con: C,
    /// The timer that follows the tempo.
    pub timer: T,
}

impl<T: Timer, C: Connection> Player<T, C> {
    /// A player with the given timer and connection.
    pub fn new(timer: T, con: C) -> (p: Self)
        ensures
            p.timer == timer,
            p.con == con,
    {
        Player { con, timer }
    }

    /// Changes the timer, and gives back the one that was there.
    pub fn set_timer(&mut self, timer: T) -> (before: T)
        ensures
            before == old(self).timer,
            final(self).timer == timer,
            final(self).con == old(self).con,
    {
        let mut timer = timer;
        std::mem::swap(&mut self.timer, &mut timer);
        timer
    }

    /// Plays on until the next wait, or to the end.
    ///
    /// Every tempo change on the way goes to the timer and every message to
    /// the connection, in the order of the plan, and nothing else touches
    /// either. The player stops at a wait without having made it, at the end
    /// of the plan, or at the first message that the connection refuses:
    /// nothing is played after that message, now or in a later call.
    pub fn play(&mut self, playback: &mut Playback) -> (pace: Pace)
        ensures
            final(playback)@.plan == old(playback)@.plan,
            old(playback)@.done <= final(playback)@.done <= old(playback)@.plan.len(),
            old(playback)@.stopped ==> pace == Pace::Stopped && final(playback)@ == old(playback)@
                && final(self).timer == old(self).timer && final(self).con == old(self).con,
            played(
                |a: T, t: u32, b: T|
                    exists|r: &mut T|
                        *r == a && *final(r) == b && #[trigger] call_ensures(
                            T::change_tempo,
                            (r, t),
                            (),
                        ),
                |a: C, e: MidiEvent, ok: bool, b: C|
                    exists|r: &mut C|
                        *r == a && *final(r) == b && #[trigger] call_ensures(C::play, (r, e), ok),
                old(playback)@.plan.subrange(
                    old(playback)@.done as int,
                    final(playback)@.done as int,
                ),
                (old(self).timer, old(self).con),
                (final(self).timer, final(self).con),
                pace is Stopped && !old(playback)@.stopped,
            ),
            forall|i: int|
                old(playback)@.done <= i < final(playback)@.done - 1 ==> !(#[trigger] old(
                    playback,
                )@.plan[i] is Sleep),
            match pace {
                Pace::Sleep(n) => {
                    &&& !final(playback)@.stopped
                    &&& old(playback)@.done < final(playback)@.done
                    &&& old(playback)@.plan[final(playback)@.done - 1] == Action::Sleep(n)
                },
                Pace::Finished => {
                    &&& !final(playback)@.stopped
                    &&& final(playback)@.done == old(playback)@.plan.len()
                    &&& final(playback)@.done > old(playback)@.done ==> !(old(
                        playback,
                    )@.plan[final(playback)@.done - 1] is Sleep)
                },
                Pace::Stopped => {
                    &&& final(playback)@.stopped
                    &&& !old(playback)@.stopped ==> {
                        &&& old(playback)@.done < final(playback)@.done
                        &&& old(playback)@.plan[final(playback)@.done - 1] is Send
                    }
                },
            },
    {
        proof {
            use_type_invariant(&*playback);
        }
        let ghost start = playback@;
        let ghost before = (self.timer, self.con);
        let ghost tempo = |a: T, t: u32, b: T|
            exists|r: &mut T|
                *r == a && *final(r) == b && #[trigger] call_ensures(T::change_tempo, (r, t), ());
        let ghost send = |a: C, e: MidiEvent, ok: bool, b: C|
            exists|r: &mut C|
                *r == a && *final(r) == b && #[trigger] call_ensures(C::play, (r, e), ok);
        let mut accepted = true;
        assert(start.plan.subrange(start.done as int, start.done as int) =~= Seq::<Action>::empty());
        loop
            invariant
                start == old(playback)@,
                before == (old(self).timer, old(self).con),
                tempo == (|a: T, t: u32, b: T|
                    exists|r: &mut T|
                        *r == a && *final(r) == b && #[trigger] call_ensures(
                            T::change_tempo,
                            (r, t),
                            (),
                        )),
                send == (|a: C, e: MidiEvent, ok: bool, b: C|
                    exists|r: &mut C|
                        *r == a && *final(r) == b && #[trigger] call_ensures(C::play, (r, e), ok)),
                playback@.plan == start.plan,
                start.done <= playback@.done <= start.plan.len(),
                playback@.stopped == start.stopped,
                start.stopped ==> playback@.done == start.done && accepted,
                forall|i: int| start.done <= i < playback@.done ==> #[trigger] start.plan[i] is Send
                    || start.plan[i] is Tempo,
                !accepted ==> playback@.done > start.done && start.plan[playback@.done - 1] is Send,
                played(
                    tempo,
                    send,
                    start.plan.subrange(start.done as int, playback@.done as int),
                    before,
                    (self.timer, self.con),
                    !accepted,
                ),
            decreases start.plan.len() - playback@.done, if accepted { 1int } else { 0int },
        {
            let ghost mid = (self.timer, self.con);
            let ghost gone = start.plan.subrange(start.done as int, playback@.done as int);
            let ghost at = playback@.done;
            match playback.advance(accepted) {
                Step::Do(action) => {
                    match action {
                        Action::Sleep(n) => {},
                        Action::Tempo(t) => {
                            self.timer.change_tempo(t);
                            assert(tempo(mid.0, t, self.timer));
                        },
                        Action::Send(event) => {
                            accepted = self.con.play(event);
                            assert(send(mid.1, event, accepted, self.con));
                        },
                    }
                    proof {
                        let upto = start.plan.subrange(start.done as int, at as int + 1);
                        assert(upto.drop_last() =~= gone);
                        assert(upto.last() == action);
                        lemma_played_step(
                            tempo,
                            send,
                            upto,
                            before,
                            mid,
                            (self.timer, self.con),
                            !accepted,
                        );
                    }
                    match action {
                        Action::Sleep(n) => {
                            return Pace::Sleep(n);
                        },
                        _ => {},
                    }
                },
                Step::Finished => {
                    return Pace::Finished;
                },
                Step::Stopped => {
                    return Pace::Stopped;
                },
            }
        }
    }
}

/// The messages among `events`, in their order.
pub open spec fn messages(events: Seq<Event>) -> Seq<MidiEvent> {
    events.filter_map(
        |e: Event|
            match e {
                Event::Midi(m) => Some(m),
                _ => None,
            },
    )
}

/// The messages that `actions` hand to the sink, in their order.
pub open spec fn sends(actions: Seq<Action>) -> Seq<MidiEvent> {
    actions.filter_map(
        |a: Action|
            match a {
                Action::Send(m) => Some(m),
                _ => None,
            },
    )
}

/// Picking from two runs joined is picking from each and joining.
pub proof fn lemma_filter_map_add<A, B>(a: Seq<A>, b: Seq<A>, f: spec_fn(A) -> Option<B>)
    ensures
        (a + b).filter_map(f) == a.filter_map(f) + b.filter_map(f),
    decreases b.len(),
{
    if b.len() == 0 {
        assert(a + b =~= a);
        assert(a.filter_map(f) + b.filter_map(f) =~= a.filter_map(f));
    } else {
        lemma_filter_map_add(a, b.drop_last(), f);
        assert((a + b).drop_last() =~= a + b.drop_last());
        assert((a + b).last() == b.last());
        match f(b.last()) {
            Some(x) => {
                assert(a.filter_map(f) + (b.drop_last().filter_map(f) + seq![x]) =~= (a.filter_map(
                    f,
                ) + b.drop_last().filter_map(f)) + seq![x]);
            },
            None => {},
        }
    }
}

/// The messages that a tick's actions send are the tick's messages.
pub proof fn lemma_sends_of_dispatches(events: Seq<Event>)
    ensures
        sends(dispatches(events)) == messages(events),
    decreases events.len(),
{
    let pick = |a: Action|
        match a {
            Action::Send(m) => Some(m),
            _ => None,
        };
    if events.len() == 0 {
        assert(dispatches(events) =~= Seq::<Action>::empty());
    } else {
        lemma_sends_of_dispatches(events.drop_last());
        match action_of(events.last()) {
            Some(a) => {
                lemma_filter_map_add(dispatches(events.drop_last()), seq![a], pick);
                Seq::lemma_filter_map_singleton(a, pick);
                match a {
                    Action::Send(m) => {},
                    _ => {
                        assert(sends(dispatches(events.drop_last())) + Seq::<MidiEvent>::empty()
                            =~= sends(dispatches(events.drop_last())));
                    },
                }
            },
            None => {},
        }
    }
}

/// The sink gets the messages of the timeline in the timeline's order: tick
/// after tick, and within a tick as they stand.
pub proof fn lemma_dispatch_order(moments: Seq<Seq<Event>>)
    ensures
        sends(plan_of(moments)) == messages(moments.flatten()),
    decreases moments.len(),
{
    let pick = |a: Action|
        match a {
            Action::Send(m) => Some(m),
            _ => None,
        };
    let msg = |e: Event|
        match e {
            Event::Midi(m) => Some(m),
            _ => None,
        };
    if moments.len() == 0 {
        assert(moments.flatten() =~= Seq::<Event>::empty());
    } else {
        let rest = moments.drop_last();
        let last = moments.last();
        lemma_dispatch_order(rest);
        assert(moments =~= rest.push(last));
        rest.lemma_flatten_push(last);
        lemma_filter_map_add(rest.flatten(), last, msg);
        if last.len() == 0 {
            assert(messages(rest.flatten()) + messages(last) =~= messages(rest.flatten()));
        } else {
            let wait = Action::Sleep(gap_after(rest) as u32);
            lemma_filter_map_add(plan_of(rest), seq![wait], pick);
            lemma_filter_map_add(plan_of(rest) + seq![wait], dispatches(last), pick);
            Seq::lemma_filter_map_singleton(wait, pick);
            lemma_sends_of_dispatches(last);
            assert(sends(plan_of(rest)) + Seq::<MidiEvent>::empty() =~= sends(plan_of(rest)));
        }
    }
}

/// Two tracks that play at once are heard tick by tick, and within a tick
/// the first track before the second, each in its own order.
pub proof fn lemma_parallel_pair_order(first: Seq<RawEvent>, second: Seq<RawEvent>)
    ensures
        parallel_tracks(seq![first, second]) == merged(single_track(first), single_track(second)),
        sends(plan_of(parallel_tracks(seq![first, second]))) == messages(
            parallel_tracks(seq![first, second]).flatten(),
        ),
        forall|tick: int|
            0 <= tick < merged(single_track(first), single_track(second)).len() ==> messages(
                #[trigger] merged(single_track(first), single_track(second))[tick],
            ) == messages(events_at(single_track(first), tick)) + messages(
                events_at(single_track(second), tick),
            ),
{
    let both = seq![first, second];
    let a = single_track(first);
    let b = single_track(second);
    assert(both.drop_last() =~= seq![first]);
    assert(seq![first].drop_last() =~= Seq::<Seq<RawEvent>>::empty());
    assert(parallel_tracks(Seq::<Seq<RawEvent>>::empty()) =~= Seq::<Seq<Event>>::empty());
    assert(parallel_tracks(seq![first]) =~= a) by {
        assert(parallel_tracks(seq![first]) == merged(Seq::<Seq<Event>>::empty(), a));
        assert forall|i: int| 0 <= i < a.len() implies merged(
            Seq::<Seq<Event>>::empty(),
            a,
        )[i] == a[i] by {
            assert(Seq::<Event>::empty() + a[i] =~= a[i]);
        }
    }
    lemma_dispatch_order(merged(a, b));
    let msg = |e: Event|
        match e {
            Event::Midi(m) => Some(m),
            _ => None,
        };
    assert forall|tick: int| 0 <= tick < merged(a, b).len() implies messages(
        #[trigger] merged(a, b)[tick],
    ) == messages(events_at(a, tick)) + messages(events_at(b, tick)) by {
        lemma_filter_map_add(events_at(a, tick), events_at(b, tick), msg);
    }
}

/// Whether a connection can go from `before` to `after` by being handed
/// `events` one after the other, when `send(a, e, ok, b)` says that it can go
/// from `a` to `b` on message `e` and answer `ok`. Every message is accepted,
/// but for the last one when `refused` is set.
pub open spec fn heard<C>(
    send: spec_fn(C, MidiEvent, bool, C) -> bool,
    events: Seq<MidiEvent>,
    before: C,
    after: C,
    refused: bool,
) -> bool
    decreases events.len(),
{
    if events.len() == 0 {
        before == after && !refused
    } else {
        exists|mid: C|
            #![trigger on_the_way(mid)]
            on_the_way(mid) && heard(send, events.drop_last(), before, mid, false) && send(
                mid,
                events.last(),
                !refused,
                after,
            )
    }
}

/// What a player's connection goes through is being handed the messages of
/// the actions, in their order, and nothing else.
pub proof fn lemma_played_heard<T, C>(
    tempo: spec_fn(T, u32, T) -> bool,
    send: spec_fn(C, MidiEvent, bool, C) -> bool,
    actions: Seq<Action>,
    before: (T, C),
    after: (T, C),
    refused: bool,
)
    requires
        played(tempo, send, actions, before, after, refused),
    ensures
        heard(send, sends(actions), before.1, after.1, refused),
    decreases actions.len(),
{
    if actions.len() > 0 {
        let mid = choose|mid: (T, C)|
            #![trigger on_the_way(mid)]
            on_the_way(mid) && played(tempo, send, actions.drop_last(), before, mid, false) && (
            match actions.last() {
                Action::Sleep(_) => mid == after && !refused,
                Action::Tempo(t) => tempo(mid.0, t, after.0) && mid.1 == after.1 && !refused,
                Action::Send(e) => mid.0 == after.0 && send(mid.1, e, !refused, after.1),
            });
        lemma_played_heard(tempo, send, actions.drop_last(), before, mid, false);
        match actions.last() {
            Action::Send(e) => {
                let rest = sends(actions.drop_last());
                assert(sends(actions) == rest + seq![e]);
                assert((rest + seq![e]).drop_last() =~= rest);
                assert((rest + seq![e]).last() == e);
                assert(on_the_way(mid.1));
            },
            _ => {},
        }
    }
}

/// A playback that runs from the first tick to the end on a connection that
/// accepts every message hands it the messages of the timeline, each once:
/// tick after tick, and within a tick as they stand.
pub proof fn lemma_played_in_order<T, C>(
    tempo: spec_fn(T, u32, T) -> bool,
    send: spec_fn(C, MidiEvent, bool, C) -> bool,
    moments: Seq<Seq<Event>>,
    before: (T, C),
    after: (T, C),
    refused: bool,
)
    requires
        played(tempo, send, plan_of(moments), before, after, refused),
    ensures
        heard(send, messages(moments.flatten()), before.1, after.1, refused),
{
    lemma_played_heard(tempo, send, plan_of(moments), before, after, refused);
    lemma_dispatch_order(moments);
}

/// Every call hands out one step.
pub proof fn lemma_run_len(v: PlaybackView, answers: Seq<bool>)
    ensures
        v.run(answers).len() == answers.len(),
    decreases answers.len(),
{
    if answers.len() > 0 {
        lemma_run_len(v.advanced(answers.first()), answers.drop_first());
    }
}

/// While the sink accepts every message, a playback hands out its plan
/// action by action, and `Finished` from then on.
pub proof fn lemma_run_follows_plan(v: PlaybackView, answers: Seq<bool>)
    requires
        !v.stopped,
        forall|i: int| 0 <= i < answers.len() ==> answers[i],
    ensures
        v.run(answers).len() == answers.len(),
        forall|i: int|
            0 <= i < answers.len() ==> #[trigger] v.run(answers)[i] == (if v.done + i
                < v.plan.len() {
                Step::Do(v.plan[v.done + i])
            } else {
                Step::Finished
            }),
    decreases answers.len(),
{
    lemma_run_len(v, answers);
    if answers.len() > 0 {
        let next = v.advanced(answers.first());
        let rest = answers.drop_first();
        lemma_run_follows_plan(next, rest);
        lemma_run_len(next, rest);
        assert forall|i: int| 0 <= i < answers.len() implies #[trigger] v.run(answers)[i] == (if v.done
            + i < v.plan.len() {
            Step::Do(v.plan[v.done + i])
        } else {
            Step::Finished
        }) by {
            if i > 0 {
                assert(v.run(answers)[i] == next.run(rest)[i - 1]);
            }
        }
    }
}

/// Once the sink has refused a message the playback is over: the answer at
/// `k` is a refusal, and from there on every step is `Stopped`, so that no
/// message follows the one that was refused.
pub proof fn lemma_refusal_stops(v: PlaybackView, answers: Seq<bool>, k: int)
    requires
        0 <= k < answers.len(),
        !answers[k],
    ensures
        v.run(answers).len() == answers.len(),
        forall|i: int| k <= i < answers.len() ==> #[trigger] v.run(answers)[i] == Step::Stopped,
    decreases answers.len(),
{
    lemma_run_len(v, answers);
    let next = v.advanced(answers.first());
    let rest = answers.drop_first();
    lemma_run_len(next, rest);
    if k > 0 {
        lemma_refusal_stops(next, rest, k - 1);
        assert forall|i: int| k <= i < answers.len() implies #[trigger] v.run(answers)[i]
            == Step::Stopped by {
            assert(v.run(answers)[i] == next.run(rest)[i - 1]);
        }
    } else {
        lemma_stopped_stays(next, rest);
        assert forall|i: int| k <= i < answers.len() implies #[trigger] v.run(answers)[i]
            == Step::Stopped by {
            if i > 0 {
                assert(v.run(answers)[i] == next.run(rest)[i - 1]);
            }
        }
    }
}

/// A playback that was given up hands out nothing but `Stopped`.
pub proof fn lemma_stopped_stays(v: PlaybackView, answers: Seq<bool>)
    requires
        v.stopped,
    ensures
        forall|i: int| 0 <= i < answers.len() ==> #[trigger] v.run(answers)[i] == Step::Stopped,
    decreases answers.len(),
{
    lemma_run_len(v, answers);
    if answers.len() > 0 {
        let next = v.advanced(answers.first());
        let rest = answers.drop_first();
        lemma_stopped_stays(next, rest);
        lemma_run_len(next, rest);
        assert forall|i: int| 0 <= i < answers.len() implies #[trigger] v.run(answers)[i]
            == Step::Stopped by {
            if i > 0 {
                assert(v.run(answers)[i] == next.run(rest)[i - 1]);
            }
        }
    }
}

} // verus!
