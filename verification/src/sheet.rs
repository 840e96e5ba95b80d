use vstd::prelude::*;
use crate::event::{lemma_timeline_add, lemma_timeline_push, timeline, Event, Moment, RawEvent};
use crate::transpose::transposed_events;

verus! {

/// A timeline: one [`Moment`] for each tick, from the first tick on.
#[derive(Debug, Default, Clone, PartialEq)]
pub struct Sheet(pub Vec<Moment>);

impl View for Sheet {
    type V = Seq<Seq<Event>>;

    open spec fn view(&self) -> Seq<Seq<Event>> {
        timeline(self.0@)
    }
}

/// The number of ticks from the start of a track to its last event.
pub open spec fn total_delta(events: Seq<RawEvent>) -> nat
    decreases events.len(),
{
    if events.len() == 0 {
        0
    } else {
        total_delta(events.drop_last()) + events.last().delta as nat
    }
}

/// `n` ticks in which nothing happens.
pub open spec fn silence(n: nat) -> Seq<Seq<Event>> {
    Seq::new(n, |i: int| Seq::<Event>::empty())
}

/// The timeline of one track.
///
/// A track without events is one silent tick. Each further event moves on by
/// its delta from the tick of the event before it, and joins the events of the
/// tick it lands on if it is of a recognized kind. The timeline ends at the
/// tick of the last event.
pub open spec fn single_track(events: Seq<RawEvent>) -> Seq<Seq<Event>>
    decreases events.len(),
{
    if events.len() == 0 {
        silence(1)
    } else {
        let grown = single_track(events.drop_last()) + silence(events.last().delta as nat);
        match Event::recognized(events.last().kind) {
            Some(e) => grown.update(grown.len() - 1, grown.last().push(e)),
            None => grown,
        }
    }
}

/// The events of tick `i` of a timeline; none beyond its end.
pub open spec fn events_at(sheet: Seq<Seq<Event>>, i: int) -> Seq<Event> {
    if 0 <= i < sheet.len() {
        sheet[i]
    } else {
        Seq::empty()
    }
}

/// Two timelines played at once: at each tick the events of the first, then
/// those of the second. The result is as long as the longer of the two.
pub open spec fn merged(a: Seq<Seq<Event>>, b: Seq<Seq<Event>>) -> Seq<Seq<Event>> {
    Seq::new(
        if a.len() >= b.len() {
            a.len()
        } else {
            b.len()
        },
        |i: int| events_at(a, i) + events_at(b, i),
    )
}

/// The timeline of tracks that play at once, merged in track order.
pub open spec fn parallel_tracks(tracks: Seq<Seq<RawEvent>>) -> Seq<Seq<Event>>
    decreases tracks.len(),
{
    if tracks.len() == 0 {
        Seq::empty()
    } else {
        merged(parallel_tracks(tracks.drop_last()), single_track(tracks.last()))
    }
}

/// The timeline of tracks that play one after the other.
pub open spec fn sequential_tracks(tracks: Seq<Seq<RawEvent>>) -> Seq<Seq<Event>>
    decreases tracks.len(),
{
    if tracks.len() == 0 {
        Seq::empty()
    } else {
        sequential_tracks(tracks.drop_last()) + single_track(tracks.last())
    }
}

/// What a list of tracks holds.
pub open spec fn tracks_view(tracks: Seq<Vec<RawEvent>>) -> Seq<Seq<RawEvent>> {
    Seq::new(tracks.len(), |i: int| tracks[i]@)
}

/// A timeline after a transposition of each of its moments.
pub open spec fn transposed_sheet(sheet: Seq<Seq<Event>>, shift: i8, transpose_ch9: bool) -> Seq<
    Seq<Event>,
> {
    Seq::new(sheet.len(), |i: int| transposed_events(sheet[i], shift, transpose_ch9))
}

impl Sheet {
    /// Lays the events of one track out on a timeline.
    ///
    /// Events of a kind that a timeline does not hold are left out; the
    /// others keep their tick.
    pub fn single(events: &[RawEvent]) -> (sheet: Sheet)
        ensures
            sheet@ == single_track(events@),
    {
        let mut buf: Vec<Moment> = Vec::new();
        let mut cur = Moment::new();
        let mut i: usize = 0;
        assert(events@.take(0) =~= Seq::<RawEvent>::empty());
        assert(timeline(buf@).push(cur@) =~= silence(1));
        while i < events.len()
            invariant
                i <= events.len(),
                timeline(buf@).push(cur@) == single_track(events@.take(i as int)),
            decreases events.len() - i,
        {
            let event = events[i];
            let ghost so_far = timeline(buf@).push(cur@);
            proof {
                assert(events@.take(i + 1).drop_last() =~= events@.take(i as int));
            }
            if event.delta > 0 {
                proof {
                    lemma_timeline_push(buf@, cur);
                }
                buf.push(cur);
                let mut k: u32 = 1;
                assert(timeline(buf@) =~= so_far + silence(0));
                while k < event.delta
                    invariant
                        1 <= k <= event.delta,
                        timeline(buf@) == so_far + silence((k - 1) as nat),
                    decreases event.delta - k,
                {
                    let quiet = Moment::new();
                    proof {
                        lemma_timeline_push(buf@, quiet);
                    }
                    buf.push(quiet);
                    assert(timeline(buf@) =~= so_far + silence(k as nat));
                    k += 1;
                }
                cur = Moment::new();
            }
            assert(timeline(buf@).push(cur@) =~= so_far + silence(event.delta as nat));
            match Event::try_from(event.kind) {
                Ok(e) => {
                    cur.push(e);
                },
                Err(_) => {},
            }
            assert(timeline(buf@).push(cur@) =~= single_track(events@.take(i + 1)));
            i += 1;
        }
        assert(events@.take(i as int) =~= events@);
        proof {
            lemma_timeline_push(buf@, cur);
        }
        buf.push(cur);
        Sheet(buf)
    }

    /// Merges tracks that play at once into one timeline. No track gives an
    /// empty timeline.
    pub fn parallel(tracks: &[Vec<RawEvent>]) -> (sheet: Sheet)
        ensures
            sheet@ == parallel_tracks(tracks_view(tracks@)),
    {
        let mut sheet = Sheet::new();
        let mut i: usize = 0;
        let ghost all = tracks_view(tracks@);
        assert(all.take(0) =~= Seq::<Seq<RawEvent>>::empty());
        while i < tracks.len()
            invariant
                i <= tracks.len(),
                all == tracks_view(tracks@),
                sheet@ == parallel_tracks(all.take(i as int)),
            decreases tracks.len() - i,
        {
            let next = Sheet::single(tracks[i].as_slice());
            sheet.merge_with(next);
            proof {
                assert(all.take(i + 1).drop_last() =~= all.take(i as int));
            }
            i += 1;
        }
        assert(all.take(i as int) =~= all);
        sheet
    }

    /// Joins tracks end to end: each track starts at the tick after the last
    /// tick of the track before it. No track gives an empty timeline.
    pub fn sequential(tracks: &[Vec<RawEvent>]) -> (sheet: Sheet)
        ensures
            sheet@ == sequential_tracks(tracks_view(tracks@)),
    {
        let mut sheet = Sheet::new();
        let mut i: usize = 0;
        let ghost all = tracks_view(tracks@);
        assert(all.take(0) =~= Seq::<Seq<RawEvent>>::empty());
        while i < tracks.len()
            invariant
                i <= tracks.len(),
                all == tracks_view(tracks@),
                sheet@ == sequential_tracks(all.take(i as int)),
            decreases tracks.len() - i,
        {
            let next = Sheet::single(tracks[i].as_slice());
            sheet.extend(next);
            proof {
                assert(all.take(i + 1).drop_last() =~= all.take(i as int));
            }
            i += 1;
        }
        assert(all.take(i as int) =~= all);
        sheet
    }

    /// A timeline without a tick.
    pub fn new() -> (sheet: Sheet)
        ensures
            sheet@ == Seq::<Seq<Event>>::empty(),
    {
        let sheet = Sheet(Vec::new());
        assert(sheet@ =~= Seq::<Seq<Event>>::empty());
        sheet
    }

    /// A timeline without a tick, with room for `cap` of them.
    pub fn with_capacity(cap: usize) -> (sheet: Sheet)
        ensures
            sheet@ == Seq::<Seq<Event>>::empty(),
    {
        let sheet = Sheet(Vec::with_capacity(cap));
        assert(sheet@ =~= Seq::<Seq<Event>>::empty());
        sheet
    }

    /// Gives up the timeline for its moments.
    pub fn into_inner(self) -> (moments: Vec<Moment>)
        ensures
            timeline(moments@) == self@,
    {
        self.0
    }

    /// The number of ticks.
    pub fn len(&self) -> (n: usize)
        ensures
            n == self@.len(),
    {
        self.0.len()
    }

    /// Whether the timeline has no tick.
    pub fn is_empty(&self) -> (b: bool)
        ensures
            b == (self@.len() == 0),
    {
        self.0.len() == 0
    }

    /// Merges `other` into this timeline, tick by tick: at each tick the
    /// events that were there come first, then those of `other`. To join two
    /// timelines end to end, use [`Sheet::extend`].
    pub fn merge_with(&mut self, other: Sheet)
        ensures
            final(self)@ == merged(old(self)@, other@),
    {
        let ghost a = self@;
        let ghost b = other@;
        assert(self@ =~= a + silence(0));
        while self.0.len() < other.0.len()
            invariant
                a.len() <= self.0.len(),
                self.0.len() == a.len() || self.0.len() <= other.0.len(),
                self@ == a + silence((self.0.len() - a.len()) as nat),
            decreases other.0.len() - self.0.len(),
        {
            let quiet = Moment::new();
            proof {
                lemma_timeline_push(self.0@, quiet);
            }
            self.0.push(quiet);
            assert(self@ =~= a + silence((self.0.len() - a.len()) as nat));
        }
        let ghost base = self@;
        assert(forall|k: int| 0 <= k < base.len() ==> #[trigger] base[k] == events_at(a, k));
        let mut i: usize = 0;
        while i < other.0.len()
            invariant
                i <= other.0.len() <= self.0.len(),
                self.0.len() == base.len(),
                b == other@,
                a.len() <= base.len(),
                base.len() == a.len() || base.len() == b.len(),
                forall|k: int| 0 <= k < base.len() ==> #[trigger] base[k] == events_at(a, k),
                forall|k: int| 0 <= k < i ==> (#[trigger] self.0@[k])@ == base[k] + b[k],
                forall|k: int| i <= k < base.len() ==> (#[trigger] self.0@[k])@ == base[k],
            decreases other.0.len() - i,
        {
            let n = other.0[i].events.len();
            let mut j: usize = 0;
            assert(b[i as int].take(0) =~= Seq::<Event>::empty());
            assert(self.0@[i as int]@ =~= base[i as int] + b[i as int].take(0));
            while j < n
                invariant
                    i < other.0.len() <= self.0.len(),
                    self.0.len() == base.len(),
                    b == other@,
                    n == b[i as int].len(),
                    j <= n,
                    forall|k: int| 0 <= k < i ==> (#[trigger] self.0@[k])@ == base[k] + b[k],
                    forall|k: int| i < k < base.len() ==> (#[trigger] self.0@[k])@ == base[k],
                    self.0@[i as int]@ == base[i as int] + b[i as int].take(j as int),
                decreases n - j,
            {
                let e = other.0[i].events[j];
                self.0[i].events.push(e);
                assert(b[i as int].take(j + 1) =~= b[i as int].take(j as int).push(e));
                assert(self.0@[i as int]@ =~= base[i as int] + b[i as int].take(j + 1));
                j += 1;
            }
            assert(b[i as int].take(n as int) =~= b[i as int]);
            i += 1;
        }
        assert(self@ =~= merged(a, b));
    }

    /// Joins `other` to the end of this timeline.
    pub fn extend(&mut self, other: Sheet)
        ensures
            final(self)@ == old(self)@ + other@,
    {
        let mut rest = other.0;
        proof {
            lemma_timeline_add(self.0@, rest@);
        }
        self.0.append(&mut rest);
    }

    /// Adds one moment at the end of the timeline.
    pub fn push(&mut self, m: Moment)
        ensures
            final(self)@ == old(self)@.push(m@),
    {
        proof {
            lemma_timeline_push(self.0@, m);
        }
        self.0.push(m);
    }

    /// Transposes every note of the timeline by `shift` semitones and reports
    /// whether the timeline changed; see [`Moment::transpose`].
    pub fn transpose(&mut self, shift: i8, transpose_ch9: bool) -> (changed: bool)
        ensures
            final(self)@ == transposed_sheet(old(self)@, shift, transpose_ch9),
            changed == (final(self)@ != old(self)@),
            shift == 0 ==> !changed,
    {
        let ghost before = self@;
        let ghost mut at: int = 0;
        let mut changed = false;
        let mut i: usize = 0;
        while i < self.0.len()
            invariant
                i <= self.0.len(),
                self.0.len() == before.len(),
                forall|k: int|
                    0 <= k < i ==> (#[trigger] self.0@[k])@ == transposed_events(
                        before[k],
                        shift,
                        transpose_ch9,
                    ),
                forall|k: int| i <= k < before.len() ==> (#[trigger] self.0@[k])@ == before[k],
                changed ==> 0 <= at < i && transposed_events(before[at], shift, transpose_ch9)
                    != before[at],
                !changed ==> forall|k: int|
                    0 <= k < i ==> transposed_events(#[trigger] before[k], shift, transpose_ch9)
                        == before[k],
                shift == 0 ==> !changed,
            decreases self.0.len() - i,
        {
            let moved = self.0[i].transpose(shift, transpose_ch9);
            proof {
                if moved && !changed {
                    at = i as int;
                }
            }
            changed = changed || moved;
            i += 1;
        }
        assert(self@ =~= transposed_sheet(before, shift, transpose_ch9));
        proof {
            if changed {
                assert(self@[at] != before[at]);
            } else {
                assert(self@ =~= before);
            }
        }
        changed
    }

    /// The moments of the timeline, tick by tick.
    pub fn as_moments(&self) -> (moments: &[Moment])
        ensures
            timeline(moments@) == self@,
    {
        self.0.as_slice()
    }
}

/// A track's timeline has one tick more than the track's deltas add up to.
pub proof fn lemma_single_track_len(events: Seq<RawEvent>)
    ensures
        single_track(events).len() == 1 + total_delta(events),
    decreases events.len(),
{
    if events.len() > 0 {
        lemma_single_track_len(events.drop_last());
    }
}

/// The recognized events of a track that fall on tick `tick`, in the order of
/// the track. An event falls on the tick that the deltas up to and including
/// its own add up to.
pub open spec fn events_on_tick(events: Seq<RawEvent>, tick: nat) -> Seq<Event>
    decreases events.len(),
{
    if events.len() == 0 {
        Seq::empty()
    } else {
        let before = events_on_tick(events.drop_last(), tick);
        if total_delta(events) == tick && Event::recognized(events.last().kind) is Some {
            before.push(Event::recognized(events.last().kind).unwrap())
        } else {
            before
        }
    }
}

/// No event falls on a tick after the last event of the track.
pub proof fn lemma_no_event_past_the_end(events: Seq<RawEvent>, tick: nat)
    requires
        tick > total_delta(events),
    ensures
        events_on_tick(events, tick) == Seq::<Event>::empty(),
    decreases events.len(),
{
    if events.len() > 0 {
        lemma_no_event_past_the_end(events.drop_last(), tick);
    }
}

/// A track's timeline keeps every recognized event on its tick: each tick
/// holds the events that fall on it, in the order of the track, and nothing
/// else.
pub proof fn lemma_single_track_ticks(events: Seq<RawEvent>)
    ensures
        single_track(events).len() == 1 + total_delta(events),
        forall|tick: nat|
            tick <= total_delta(events) ==> #[trigger] single_track(events)[tick as int]
                == events_on_tick(events, tick),
    decreases events.len(),
{
    lemma_single_track_len(events);
    if events.len() > 0 {
        let rest = events.drop_last();
        lemma_single_track_ticks(rest);
        lemma_single_track_len(rest);
        let grown = single_track(rest) + silence(events.last().delta as nat);
        assert forall|tick: nat| tick <= total_delta(events) implies #[trigger] single_track(
            events,
        )[tick as int] == events_on_tick(events, tick) by {
            if tick > total_delta(rest) {
                lemma_no_event_past_the_end(rest, tick);
                assert(grown[tick as int] == Seq::<Event>::empty());
            } else {
                assert(grown[tick as int] == single_track(rest)[tick as int]);
            }
        }
    }
}

/// Tracks merged at once give a timeline as long as the longest of them: one
/// tick more than the largest sum of deltas of any one track.
pub proof fn lemma_parallel_len(tracks: Seq<Seq<RawEvent>>)
    requires
        tracks.len() > 0,
    ensures
        forall|i: int|
            0 <= i < tracks.len() ==> parallel_tracks(tracks).len() >= 1 + total_delta(
                #[trigger] tracks[i],
            ),
        exists|i: int|
            0 <= i < tracks.len() && parallel_tracks(tracks).len() == 1 + total_delta(
                #[trigger] tracks[i],
            ),
    decreases tracks.len(),
{
    let rest = tracks.drop_last();
    let last = tracks.len() - 1;
    lemma_single_track_len(tracks.last());
    if rest.len() == 0 {
        assert(parallel_tracks(rest).len() == 0);
        assert(parallel_tracks(tracks).len() == 1 + total_delta(tracks[last]));
    } else {
        lemma_parallel_len(rest);
        let w = choose|i: int|
            0 <= i < rest.len() && parallel_tracks(rest).len() == 1 + total_delta(
                #[trigger] rest[i],
            );
        assert(rest[w] == tracks[w]);
        assert forall|i: int| 0 <= i < tracks.len() implies parallel_tracks(tracks).len() >= 1
            + total_delta(#[trigger] tracks[i]) by {
            if i < last {
                assert(rest[i] == tracks[i]);
            }
        }
        if parallel_tracks(rest).len() >= single_track(tracks.last()).len() {
            assert(parallel_tracks(tracks).len() == 1 + total_delta(tracks[w]));
        } else {
            assert(parallel_tracks(tracks).len() == 1 + total_delta(tracks[last]));
        }
    }
}

/// The ticks of all the tracks' own timelines, added up.
pub open spec fn sum_of_lengths(tracks: Seq<Seq<RawEvent>>) -> nat
    decreases tracks.len(),
{
    if tracks.len() == 0 {
        0
    } else {
        sum_of_lengths(tracks.drop_last()) + 1 + total_delta(tracks.last())
    }
}

/// Tracks joined end to end give a timeline as long as their own timelines
/// together: no tick is shared between two tracks.
pub proof fn lemma_sequential_len(tracks: Seq<Seq<RawEvent>>)
    ensures
        sequential_tracks(tracks).len() == sum_of_lengths(tracks),
    decreases tracks.len(),
{
    if tracks.len() > 0 {
        lemma_sequential_len(tracks.drop_last());
        lemma_single_track_len(tracks.last());
    }
}

} // verus!
