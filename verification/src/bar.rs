use std::collections::VecDeque;
use vstd::prelude::*;
use vstd::arithmetic::div_mod::lemma_basic_div;
use vstd::arithmetic::power2::{lemma2_to64, lemma_pow2_strictly_increases, pow2};
use vstd::bits::lemma_u64_shr_is_div;
use crate::event::{timeline, Event, Moment};
use crate::sheet::Sheet;

verus! {

/// A time signature, as far as the length of a bar depends on it.
#[derive(Debug, Copy, Clone, PartialEq, Eq)]
pub struct TimeSignature {
    /// Beats per bar.
    pub numerator: u8,
    /// The note that is one beat, as a negative power of two: 2 is a quarter
    /// note, 3 an eighth.
    pub denominator: u8,
}

/// The ticks of one bar: `numerator * 2^(5 - denominator)` thirty-second
/// notes, each an eighth of a beat long, rounded down to whole ticks.
pub open spec fn bar_ticks(sig: TimeSignature, ticks_per_beat: u16) -> nat {
    (sig.numerator as nat * ticks_per_beat as nat * 4) / pow2(sig.denominator as nat)
}

/// The first time signature among `events`, if there is one.
pub open spec fn first_time_sig(events: Seq<Event>) -> Option<TimeSignature>
    decreases events.len(),
{
    if events.len() == 0 {
        None
    } else {
        match events.first() {
            Event::TimeSignature(n, d, _, _) => Some(TimeSignature { numerator: n, denominator: d }),
            _ => first_time_sig(events.drop_first()),
        }
    }
}

/// Whether `events` bring a time signature other than `sig`.
pub open spec fn breaks_bar(events: Seq<Event>, sig: TimeSignature) -> bool {
    match first_time_sig(events) {
        Some(s) => s != sig,
        None => false,
    }
}

/// Where a bar ends that has `k` moments so far and may grow to `reach`: after
/// the first moment from the `k`-th on that brings another time signature, or
/// at `reach`.
pub open spec fn bar_end(moments: Seq<Seq<Event>>, sig: TimeSignature, reach: nat, k: nat) -> nat
    decreases reach - k,
{
    if k >= reach || k >= moments.len() {
        reach
    } else if breaks_bar(moments[k as int], sig) {
        k + 1
    } else {
        bar_end(moments, sig, reach, k + 1)
    }
}

/// What is left of a timeline that is being cut into bars.
pub struct BarsView {
    /// The time signature in force.
    pub time_sig: TimeSignature,
    /// Ticks per beat.
    pub ticks_per_beat: u16,
    /// The moments that no bar holds yet.
    pub remaining: Seq<Seq<Event>>,
}

impl BarsView {
    /// The time signature of the next bar: the one that its first moment
    /// brings, or else the one in force.
    pub open spec fn opening_sig(self) -> TimeSignature {
        match first_time_sig(self.remaining[0]) {
            Some(s) => s,
            None => self.time_sig,
        }
    }

    /// The most moments that the next bar can hold: a whole bar of its time
    /// signature, but at least one moment and no more than are left.
    pub open spec fn reach(self) -> nat {
        let full = bar_ticks(self.opening_sig(), self.ticks_per_beat);
        let want = if full < 1 {
            1
        } else {
            full
        };
        if want <= self.remaining.len() {
            want
        } else {
            self.remaining.len()
        }
    }

    /// The number of moments in the next bar. A moment after the first that
    /// brings another time signature ends the bar early, and is its last.
    pub open spec fn bar_len(self) -> nat {
        bar_end(self.remaining, self.opening_sig(), self.reach(), 1)
    }

    /// The next bar.
    pub open spec fn next_bar(self) -> Seq<Seq<Event>> {
        self.remaining.take(self.bar_len() as int)
    }

    /// The state after the next bar was taken: a time signature that ended
    /// the bar early is in force from then on.
    pub open spec fn after_bar(self) -> BarsView {
        let n = self.bar_len();
        let last = self.remaining[n - 1];
        BarsView {
            time_sig: if n > 1 && breaks_bar(last, self.opening_sig()) {
                first_time_sig(last).unwrap()
            } else {
                self.opening_sig()
            },
            ticks_per_beat: self.ticks_per_beat,
            remaining: self.remaining.skip(n as int),
        }
    }

    /// All the bars that are still to come, in order.
    pub open spec fn all_bars(self) -> Seq<Seq<Seq<Event>>>
        decreases self.remaining.len(),
    {
        if self.remaining.len() == 0 || self.bar_len() < 1 || self.bar_len()
            > self.remaining.len() {
            Seq::empty()
        } else {
            seq![self.next_bar()] + self.after_bar().all_bars()
        }
    }
}

/// A bar never ends before the moments it has, nor after its reach.
pub proof fn lemma_bar_end_bounds(moments: Seq<Seq<Event>>, sig: TimeSignature, reach: nat, k: nat)
    requires
        k <= reach,
    ensures
        k <= bar_end(moments, sig, reach, k) <= reach,
    decreases reach - k,
{
    if k < reach && k < moments.len() && !breaks_bar(moments[k as int], sig) {
        lemma_bar_end_bounds(moments, sig, reach, k + 1);
    }
}

/// While moments are left, the next bar holds at least one of them and no
/// more than are left.
pub proof fn lemma_bar_len_bounds(s: BarsView)
    requires
        s.remaining.len() > 0,
    ensures
        1 <= s.bar_len() <= s.remaining.len(),
{
    lemma_bar_end_bounds(s.remaining, s.opening_sig(), s.reach(), 1);
}

/// The bars cover the timeline: joined in order, they are the moments that
/// were left, each once and in place.
pub proof fn lemma_bars_cover(s: BarsView)
    ensures
        s.all_bars().flatten() == s.remaining,
        forall|i: int| 0 <= i < s.all_bars().len() ==> (#[trigger] s.all_bars()[i]).len() > 0,
    decreases s.remaining.len(),
{
    if s.remaining.len() == 0 {
        assert(s.all_bars().flatten() =~= s.remaining);
    } else {
        lemma_bar_len_bounds(s);
        let rest = s.after_bar().all_bars();
        lemma_bars_cover(s.after_bar());
        let bars = seq![s.next_bar()] + rest;
        assert(bars.first() == s.next_bar());
        assert(bars.drop_first() =~= rest);
        assert(bars.flatten() == s.next_bar() + rest.flatten());
        assert(s.next_bar() + s.remaining.skip(s.bar_len() as int) =~= s.remaining);
        assert forall|i: int| 0 <= i < bars.len() implies (#[trigger] bars[i]).len() > 0 by {
            if i > 0 {
                assert(bars[i] == rest[i - 1]);
            }
        }
    }
}

/// The first time signature that a moment brings.
pub fn find_time_sig(m: &Moment) -> (r: Option<TimeSignature>)
    ensures
        r == first_time_sig(m@),
{
    let mut i: usize = 0;
    assert(m@.skip(0) =~= m@);
    while i < m.events.len()
        invariant
            i <= m.events.len(),
            first_time_sig(m@) == first_time_sig(m@.skip(i as int)),
        decreases m.events.len() - i,
    {
        assert(m@.skip(i as int).drop_first() =~= m@.skip(i + 1));
        match m.events[i] {
            Event::TimeSignature(n, d, _, _) => {
                return Some(TimeSignature { numerator: n, denominator: d });
            },
            _ => {},
        }
        i += 1;
    }
    None
}

/// The ticks of one bar.
pub fn ticks_per_bar(sig: TimeSignature, ticks_per_beat: u16) -> (n: u32)
    ensures
        n == bar_ticks(sig, ticks_per_beat),
{
    let beats: u64 = sig.numerator as u64;
    let tpb: u64 = ticks_per_beat as u64;
    assert(beats * tpb * 4 <= 255 * 65535 * 4) by (nonlinear_arith)
        requires
            beats <= 255,
            tpb <= 65535,
    ;
    let quarters: u64 = beats * tpb * 4;
    proof {
        lemma2_to64();
    }
    if sig.denominator >= 32 {
        proof {
            if sig.denominator > 32 {
                lemma_pow2_strictly_increases(32, sig.denominator as nat);
            }
            lemma_basic_div(quarters as int, pow2(sig.denominator as nat) as int);
        }
        0
    } else {
        let shift: u64 = sig.denominator as u64;
        proof {
            lemma_u64_shr_is_div(quarters, shift);
        }
        let whole: u64 = quarters >> shift;
        assert(whole <= quarters) by (bit_vector)
            requires
                whole == quarters >> shift,
        ;
        whole as u32
    }
}

/// Cuts a timeline into bars, one call of [`Bars::next`] for each bar.
#[derive(Debug, Clone, PartialEq)]
pub struct Bars {
    time_sig: TimeSignature,
    tpb: u16,
    buf: VecDeque<Moment>,
}

impl View for Bars {
    type V = BarsView;

    closed spec fn view(&self) -> BarsView {
        BarsView {
            time_sig: self.time_sig,
            ticks_per_beat: self.tpb,
            remaining: timeline(self.buf@),
        }
    }
}

impl Bars {
    /// Takes the next bar off the timeline; `None` once nothing is left.
    ///
    /// The first moment of a bar may bring the bar's own time signature. A
    /// later moment that brings another one ends the bar, as its last moment,
    /// and the new time signature holds from the next bar on. The last bar
    /// ends where the timeline ends.
    pub fn next(&mut self) -> (r: Option<Vec<Moment>>)
        ensures
            match r {
                Some(bar) => {
                    &&& old(self)@.remaining.len() > 0
                    &&& timeline(bar@) == old(self)@.next_bar()
                    &&& final(self)@ == old(self)@.after_bar()
                },
                None => {
                    &&& old(self)@.remaining.len() == 0
                    &&& final(self)@ == old(self)@
                },
            },
    {
        let ghost start = self@;
        let ghost whole = self.buf@;
        let first = match self.buf.pop_front() {
            Some(m) => m,
            None => {
                return None;
            },
        };
        match find_time_sig(&first) {
            Some(sig) => {
                self.time_sig = sig;
            },
            None => {},
        }
        let ghost sig0 = self.time_sig;
        let full = ticks_per_bar(self.time_sig, self.tpb);
        let mut temp: Vec<Moment> = Vec::new();
        temp.push(first);
        let mut k: usize = 1;
        let mut open = true;
        assert(temp@ + self.buf@ =~= whole);
        while open && k < full as usize && self.buf.len() > 0
            invariant
                start.remaining == timeline(whole),
                start.remaining.len() > 0,
                sig0 == start.opening_sig(),
                self.tpb == start.ticks_per_beat,
                full == bar_ticks(sig0, self.tpb),
                temp@ + self.buf@ == whole,
                temp@.len() == k,
                1 <= k <= start.reach(),
                open ==> self.time_sig == sig0,
                open && k > 1 ==> !breaks_bar(start.remaining[k - 1], sig0),
                open ==> start.bar_len() == bar_end(start.remaining, sig0, start.reach(), k as nat),
                !open ==> k > 1 && start.bar_len() == k && breaks_bar(
                    start.remaining[k - 1],
                    sig0,
                ) && Some(self.time_sig) == first_time_sig(start.remaining[k - 1]),
            decreases self.buf@.len(),
        {
            match self.buf.pop_front() {
                Some(moment) => {
                    assert(whole[k as int] == moment);
                    let found = find_time_sig(&moment);
                    temp.push(moment);
                    assert(temp@ + self.buf@ =~= whole);
                    match found {
                        Some(sig) => {
                            if sig.numerator != self.time_sig.numerator || sig.denominator
                                != self.time_sig.denominator {
                                self.time_sig = sig;
                                open = false;
                            }
                        },
                        None => {},
                    }
                    k += 1;
                },
                None => {},
            }
        }
        proof {
            assert(self.buf@.len() == whole.len() - k);
            assert(start.bar_len() == k);
            assert(timeline(temp@) =~= timeline(whole).take(k as int));
            assert(timeline(self.buf@) =~= timeline(whole).skip(k as int));
        }
        Some(temp)
    }
}

impl Sheet {
    /// Cuts the timeline into bars, starting in four-four time.
    /// `ticks_per_beat` is the one from the header of the file.
    pub fn into_bars(self, ticks_per_beat: u16) -> (bars: Bars)
        ensures
            bars@ == (BarsView {
                time_sig: TimeSignature { numerator: 4, denominator: 2 },
                ticks_per_beat,
                remaining: self@,
            }),
    {
        let mut moments = self.0;
        let mut buf: VecDeque<Moment> = VecDeque::new();
        let ghost whole = moments@;
        assert(moments@ + buf@ =~= whole);
        while moments.len() > 0
            invariant
                moments@ + buf@ == whole,
            decreases moments.len(),
        {
            let ghost before = moments@;
            let ghost tail = buf@;
            match moments.pop() {
                Some(m) => {
                    buf.push_front(m);
                    assert(moments@ + buf@ =~= before + tail);
                },
                None => {},
            }
        }
        assert(buf@ =~= whole);
        Bars { time_sig: TimeSignature { numerator: 4, denominator: 2 }, tpb: ticks_per_beat, buf }
    }
}

} // verus!
