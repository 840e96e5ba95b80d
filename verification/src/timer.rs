use vstd::prelude::*;
use vstd::arithmetic::div_mod::lemma_div_is_ordered;
use crate::event::{timeline, Event, Moment};

verus! {

/// Turns ticks into waiting time, and follows the tempo.
///
/// All times are whole microseconds.
pub trait Timer {
    /// The time that `n_ticks` ticks take at the current tempo.
    fn sleep_duration(&self, n_ticks: u32) -> u64;

    /// Sets the tempo to `tempo` microseconds per beat.
    fn change_tempo(&mut self, tempo: u32);

    /// The time that `moments` take from the current tempo on, capped at the
    /// largest `u64`: for each moment what `sleep_duration` gives for one
    /// tick before the moment's own events. Every tempo change among the
    /// events goes to `change_tempo`, in order, so that the timer ends with
    /// the tempo that is in force after the last of them.
    fn duration(&mut self, moments: &[Moment]) -> (total: u64) where Self: Sized
        ensures
            exists|sum: nat|
                total == #[trigger] capped(sum) && timed_run(
                    |at: Self, w: u64| call_ensures(Self::sleep_duration, (&at, 1u32), w),
                    |a: Self, t: u32, b: Self|
                        exists|r: &mut Self|
                            *r == a && *final(r) == b && #[trigger] call_ensures(
                                Self::change_tempo,
                                (r, t),
                                (),
                            ),
                    timeline(moments@),
                    *old(self),
                    sum,
                    *final(self),
                ),
    {
        let ghost start = *self;
        let ghost all = timeline(moments@);
        let ghost wait = |at: Self, w: u64| call_ensures(Self::sleep_duration, (&at, 1u32), w);
        let ghost step = |a: Self, t: u32, b: Self|
            exists|r: &mut Self|
                *r == a && *final(r) == b && #[trigger] call_ensures(Self::change_tempo, (r, t), ());
        let ghost mut sum: nat = 0;
        let mut total: u64 = 0;
        let mut i: usize = 0;
        assert(all.take(0) =~= Seq::<Seq<Event>>::empty());
        while i < moments.len()
            invariant
                i <= moments.len(),
                all == timeline(moments@),
                wait == (|at: Self, w: u64| call_ensures(Self::sleep_duration, (&at, 1u32), w)),
                step == (|a: Self, t: u32, b: Self|
                    exists|r: &mut Self|
                        *r == a && *final(r) == b && #[trigger] call_ensures(
                            Self::change_tempo,
                            (r, t),
                            (),
                        )),
                total == capped(sum),
                timed_run(wait, step, all.take(i as int), start, sum, *self),
            decreases moments.len() - i,
        {
            let ghost at = *self;
            let ghost part = sum;
            let tick = self.sleep_duration(1);
            assert(wait(at, tick));
            total = total.saturating_add(tick);
            proof {
                sum = sum + tick as nat;
            }
            let n = moments[i].events.len();
            let mut j: usize = 0;
            assert(all[i as int].take(0) =~= Seq::<Event>::empty());
            while j < n
                invariant
                    i < moments.len(),
                    all == timeline(moments@),
                    n == all[i as int].len(),
                    j <= n,
                    step == (|a: Self, t: u32, b: Self|
                        exists|r: &mut Self|
                            *r == a && *final(r) == b && #[trigger] call_ensures(
                                Self::change_tempo,
                                (r, t),
                                (),
                            )),
                    tempo_run(step, all[i as int].take(j as int), at, *self),
                decreases n - j,
            {
                let ghost mid = *self;
                match moments[i].events[j] {
                    Event::Tempo(val) => {
                        self.change_tempo(val);
                        assert(step(mid, val, *self));
                    },
                    _ => {},
                }
                proof {
                    let upto = all[i as int].take(j + 1);
                    assert(upto.drop_last() =~= all[i as int].take(j as int));
                    assert(upto.last() == all[i as int][j as int]);
                    assert(tempo_run(step, upto.drop_last(), at, mid));
                    lemma_tempo_run_step(step, upto, at, mid, *self);
                }
                j += 1;
            }
            proof {
                assert(all[i as int].take(n as int) =~= all[i as int]);
                let upto = all.take(i + 1);
                assert(upto.drop_last() =~= all.take(i as int));
                assert(upto.last() == all[i as int]);
                assert(timed_run(wait, step, upto.drop_last(), start, part, at));
                lemma_timed_run_step(wait, step, upto, start, part, at, tick, *self);
            }
            i += 1;
        }
        assert(all.take(i as int) =~= all);
        total
    }
}

/// The error of a timer that is asked to follow a header timing that it does
/// not support.
#[derive(Debug, Copy, Clone, PartialEq, Eq)]
pub struct TimeFormatError;

impl TimeFormatError {
    /// What went wrong, in words.
    pub fn message(&self) -> (text: &'static str)
        ensures
            text@ == "unsupported time format"@,
    {
        "unsupported time format"
    }
}

/// Frames per second of a timecode timing.
#[derive(Debug, Copy, Clone, PartialEq, Eq, Hash)]
pub enum FrameRate {
    /// 24 frames per second.
    Fps24,
    /// 25 frames per second.
    Fps25,
    /// 29.97 frames per second.
    Fps29,
    /// 30 frames per second.
    Fps30,
}

/// The timing that the header of a file declares.
#[derive(Debug, Copy, Clone, PartialEq, Eq, Hash)]
pub enum TimeFormat {
    /// Ticks per beat; the tempo then says how long a beat is.
    Metrical(u16),
    /// Frames per second and ticks per frame; a tick has a fixed length.
    Timecode(FrameRate, u8),
}

/// The smaller of `x` and the largest `u64`.
pub open spec fn capped(x: nat) -> nat {
    if x <= u64::MAX {
        x
    } else {
        u64::MAX as nat
    }
}

/// The whole microseconds that `n_ticks` ticks take, when a beat of
/// `ticks_per_beat` ticks lasts `tempo` microseconds and playback runs
/// `speed_num / speed_den` times as fast as written:
/// `tempo / ticks_per_beat * n_ticks / speed`, rounded down.
///
/// Nothing to wait for is zero, whatever the divisor. Otherwise a divisor of
/// zero means a wait without end, and every wait is capped at the largest
/// `u64`. The speed of a timer is never zero (see [`Speed`]), so that the
/// divisor is zero only where a beat has no ticks.
pub open spec fn ticks_to_micros(
    tempo: u32,
    ticks_per_beat: u16,
    speed_num: u32,
    speed_den: u32,
    n_ticks: u32,
) -> nat {
    let due = tempo as nat * n_ticks as nat * speed_den as nat;
    let per = ticks_per_beat as nat * speed_num as nat;
    if due == 0 {
        0
    } else if per == 0 {
        u64::MAX as nat
    } else {
        capped(due / per)
    }
}

/// The tempo in force after `events`, when it was `tempo` before them.
pub open spec fn tempo_after_events(events: Seq<Event>, tempo: u32) -> u32
    decreases events.len(),
{
    if events.len() == 0 {
        tempo
    } else {
        match events.last() {
            Event::Tempo(t) => t,
            _ => tempo_after_events(events.drop_last(), tempo),
        }
    }
}

/// The tempo in force after `moments`, when it was `tempo` before them.
pub open spec fn tempo_after(moments: Seq<Seq<Event>>, tempo: u32) -> u32
    decreases moments.len(),
{
    if moments.len() == 0 {
        tempo
    } else {
        tempo_after_events(moments.last(), tempo_after(moments.drop_last(), tempo))
    }
}

/// Holds of every timer. It marks the state that a run passes through on its
/// way.
pub open spec fn on_the_way<S>(at: S) -> bool {
    true
}

/// Whether going through `events` can take a timer from `before` to `after`,
/// when `step(a, t, b)` says that a change to tempo `t` can take it from `a`
/// to `b`: every tempo change among the events is made, in order, and
/// nothing else touches the timer.
pub open spec fn tempo_run<S>(
    step: spec_fn(S, u32, S) -> bool,
    events: Seq<Event>,
    before: S,
    after: S,
) -> bool
    decreases events.len(),
{
    if events.len() == 0 {
        before == after
    } else {
        exists|mid: S|
            #![trigger on_the_way(mid)]
            on_the_way(mid) && tempo_run(step, events.drop_last(), before, mid) && (match events.last() {
                Event::Tempo(t) => step(mid, t, after),
                _ => mid == after,
            })
    }
}

/// Whether timing `moments` can take a timer from `before` to `after` and
/// add up to `sum` microseconds, when `wait(a, w)` says that timer `a` can
/// give `w` for one tick: each moment counts for one tick of the timer as it
/// stands before the moment, and then the timer goes through the moment's
/// events.
pub open spec fn timed_run<S>(
    wait: spec_fn(S, u64) -> bool,
    step: spec_fn(S, u32, S) -> bool,
    moments: Seq<Seq<Event>>,
    before: S,
    sum: nat,
    after: S,
) -> bool
    decreases moments.len(),
{
    if moments.len() == 0 {
        sum == 0 && before == after
    } else {
        exists|part: nat, at: S|
            #![trigger on_the_way((part, at))]
            on_the_way((part, at)) && timed_run(wait, step, moments.drop_last(), before, part, at)
                && part <= sum && sum
                - part <= u64::MAX && wait(at, (sum - part) as u64) && tempo_run(
                step,
                moments.last(),
                at,
                after,
            )
    }
}

/// One more event after a run of events.
pub proof fn lemma_tempo_run_step<S>(
    step: spec_fn(S, u32, S) -> bool,
    events: Seq<Event>,
    before: S,
    mid: S,
    after: S,
)
    requires
        events.len() > 0,
        tempo_run(step, events.drop_last(), before, mid),
        match events.last() {
            Event::Tempo(t) => step(mid, t, after),
            _ => mid == after,
        },
    ensures
        tempo_run(step, events, before, after),
{
    assert(on_the_way(mid));
}

/// One more moment after a run of moments.
pub proof fn lemma_timed_run_step<S>(
    wait: spec_fn(S, u64) -> bool,
    step: spec_fn(S, u32, S) -> bool,
    moments: Seq<Seq<Event>>,
    before: S,
    part: nat,
    at: S,
    tick: u64,
    after: S,
)
    requires
        moments.len() > 0,
        timed_run(wait, step, moments.drop_last(), before, part, at),
        wait(at, tick),
        tempo_run(step, moments.last(), at, after),
    ensures
        timed_run(wait, step, moments, before, part + tick as nat, after),
{
    assert(on_the_way((part, at)));
    assert((part + tick - part) as u64 == tick);
}

/// How many times as fast as written a playback runs: a numerator over a
/// denominator. Neither is ever zero, so that no speed is zero and none is
/// without bound.
#[derive(Debug, Copy, Clone, PartialEq, Eq)]
pub struct Speed {
    num: u32,
    den: u32,
}

impl Speed {
    #[verifier::type_invariant]
    spec fn positive(self) -> bool {
        self.num > 0 && self.den > 0
    }

    /// The numerator and the denominator.
    pub closed spec fn ratio(self) -> (u32, u32) {
        (self.num, self.den)
    }

    /// The speed `num / den`.
    pub closed spec fn of(num: u32, den: u32) -> Speed {
        Speed { num, den }
    }

    /// The speed `num / den`. A speed of zero, or one over zero, cannot be
    /// made.
    pub fn new(num: u32, den: u32) -> (s: Speed)
        requires
            num > 0,
            den > 0,
        ensures
            s == Speed::of(num, den),
            s.ratio() == (num, den),
    {
        Speed { num, den }
    }

    /// The numerator, which is not zero.
    pub fn num(&self) -> (n: u32)
        ensures
            n == self.ratio().0,
            n > 0,
    {
        proof {
            use_type_invariant(self);
        }
        self.num
    }

    /// The denominator, which is not zero.
    pub fn den(&self) -> (n: u32)
        ensures
            n == self.ratio().1,
            n > 0,
    {
        proof {
            use_type_invariant(self);
        }
        self.den
    }
}

/// A speed is told by its numerator and its denominator.
pub proof fn lemma_speed_of(num: u32, den: u32)
    ensures
        Speed::of(num, den).ratio() == (num, den),
{
}

/// A timer for metrical timing: the length of a tick follows the tempo.
#[derive(Debug, Copy, Clone, PartialEq, Eq)]
pub struct Ticker {
    /// Ticks per beat, from the header of the file.
    pub ticks_per_beat: u16,
    /// Microseconds per beat. Zero until the first tempo change: ticks then
    /// take no time.
    pub tempo: u32,
    /// How fast playback runs; `1 / 1` is as written.
    pub speed: Speed,
}

impl Ticker {
    /// The whole microseconds that `n_ticks` ticks take with this timer.
    pub open spec fn micros(self, n_ticks: u32) -> nat {
        ticks_to_micros(
            self.tempo,
            self.ticks_per_beat,
            self.speed.ratio().0,
            self.speed.ratio().1,
            n_ticks,
        )
    }

    /// This timer at another tempo.
    pub open spec fn at_tempo(self, tempo: u32) -> Ticker {
        Ticker { tempo, ..self }
    }

    /// The microseconds that `moments` take, one tick each, every tick at the
    /// tempo in force after the moments before it.
    pub open spec fn span(self, moments: Seq<Seq<Event>>) -> nat
        decreases moments.len(),
    {
        if moments.len() == 0 {
            0
        } else {
            self.span(moments.drop_last()) + self.at_tempo(
                tempo_after(moments.drop_last(), self.tempo),
            ).micros(1)
        }
    }

    /// A timer at normal speed that has not seen a tempo yet.
    pub fn new(ticks_per_beat: u16) -> (t: Ticker)
        ensures
            t == (Ticker { ticks_per_beat, tempo: 0, speed: Speed::of(1, 1) }),
            t.speed.ratio() == (1u32, 1u32),
    {
        Ticker { ticks_per_beat, tempo: 0, speed: Speed::new(1, 1) }
    }

    /// A timer at normal speed and at `tempo` microseconds per beat.
    pub fn with_initial_tempo(ticks_per_beat: u16, tempo: u32) -> (t: Ticker)
        ensures
            t == (Ticker { ticks_per_beat, tempo, speed: Speed::of(1, 1) }),
            t.speed.ratio() == (1u32, 1u32),
    {
        let mut t = Ticker::new(ticks_per_beat);
        t.change_tempo(tempo);
        t
    }

    /// Makes playback run `num / den` times as fast as written.
    pub fn set_speed(&mut self, num: u32, den: u32)
        requires
            num > 0,
            den > 0,
        ensures
            *final(self) == (Ticker { speed: Speed::of(num, den), ..*old(self) }),
            final(self).speed.ratio() == (num, den),
    {
        self.speed = Speed::new(num, den);
    }

    /// A timer for the timing of a header. Only metrical timing has a tempo
    /// to follow: any other timing is refused.
    pub fn try_from(t: TimeFormat) -> (r: Result<Ticker, TimeFormatError>)
        ensures
            match t {
                TimeFormat::Metrical(n) => r == Ok::<Ticker, TimeFormatError>(
                    Ticker { ticks_per_beat: n, tempo: 0, speed: Speed::of(1, 1) },
                ),
                TimeFormat::Timecode(..) => r is Err,
            },
    {
        match t {
            TimeFormat::Metrical(n) => Ok(Ticker::new(n)),
            TimeFormat::Timecode(..) => Err(TimeFormatError),
        }
    }
}

impl Timer for Ticker {
    fn sleep_duration(&self, n_ticks: u32) -> (micros: u64)
        ensures
            micros == self.micros(n_ticks),
    {
        let beat: u128 = self.tempo as u128;
        let ticks: u128 = n_ticks as u128;
        let den: u128 = self.speed.den() as u128;
        assert(beat * ticks <= 0xFFFF_FFFF * 0xFFFF_FFFF) by (nonlinear_arith)
            requires
                beat <= 0xFFFF_FFFF,
                ticks <= 0xFFFF_FFFF,
        ;
        let run: u128 = beat * ticks;
        assert(run * den <= 0xFFFF_FFFF * 0xFFFF_FFFF * 0xFFFF_FFFF) by (nonlinear_arith)
            requires
                run <= 0xFFFF_FFFF * 0xFFFF_FFFF,
                den <= 0xFFFF_FFFF,
        ;
        let due: u128 = run * den;
        let tpb: u64 = self.ticks_per_beat as u64;
        let num: u64 = self.speed.num() as u64;
        assert(tpb * num <= 0xFFFF * 0xFFFF_FFFF) by (nonlinear_arith)
            requires
                tpb <= 0xFFFF,
                num <= 0xFFFF_FFFF,
        ;
        let per: u64 = tpb * num;
        if due == 0 {
            0
        } else if per == 0 {
            u64::MAX
        } else {
            let whole: u128 = due / (per as u128);
            if whole > u64::MAX as u128 {
                u64::MAX
            } else {
                whole as u64
            }
        }
    }

    fn change_tempo(&mut self, tempo: u32)
        ensures
            *final(self) == old(self).at_tempo(tempo),
    {
        self.tempo = tempo;
    }
}

impl Ticker {
    /// The time that `moments` take from the current tempo on, capped at the
    /// largest `u64`. The ticker ends at the tempo in force after them.
    pub fn duration(&mut self, moments: &[Moment]) -> (total: u64)
        ensures
            total == capped(old(self).span(timeline(moments@))),
            *final(self) == old(self).at_tempo(
                tempo_after(timeline(moments@), old(self).tempo),
            ),
    {
        let ghost start = *self;
        let ghost wait = |at: Ticker, w: u64| call_ensures(Ticker::sleep_duration, (&at, 1u32), w);
        let ghost step = |a: Ticker, t: u32, b: Ticker|
            exists|r: &mut Ticker|
                *r == a && *final(r) == b && #[trigger] call_ensures(
                    Ticker::change_tempo,
                    (r, t),
                    (),
                );
        let total = Timer::duration(self, moments);
        proof {
            let sum = choose|sum: nat|
                total == #[trigger] capped(sum) && timed_run(
                    wait,
                    step,
                    timeline(moments@),
                    start,
                    sum,
                    *self,
                );
            lemma_ticker_timed_run(wait, step, timeline(moments@), start, sum, *self);
        }
        total
    }
}

/// For a ticker, a run of events ends at the tempo of the last tempo change.
pub proof fn lemma_ticker_tempo_run(
    step: spec_fn(Ticker, u32, Ticker) -> bool,
    events: Seq<Event>,
    before: Ticker,
    after: Ticker,
)
    requires
        forall|a: Ticker, t: u32, b: Ticker| #[trigger] step(a, t, b) ==> b == a.at_tempo(t),
        tempo_run(step, events, before, after),
    ensures
        after == before.at_tempo(tempo_after_events(events, before.tempo)),
    decreases events.len(),
{
    if events.len() > 0 {
        let mid = choose|mid: Ticker|
            #![trigger on_the_way(mid)]
            on_the_way(mid) && tempo_run(step, events.drop_last(), before, mid) && (
            match events.last() {
                Event::Tempo(t) => step(mid, t, after),
                _ => mid == after,
            });
        lemma_ticker_tempo_run(step, events.drop_last(), before, mid);
    }
}

/// For a ticker, a timed run adds up to the span of the moments and ends at
/// the tempo in force after them.
pub proof fn lemma_ticker_timed_run(
    wait: spec_fn(Ticker, u64) -> bool,
    step: spec_fn(Ticker, u32, Ticker) -> bool,
    moments: Seq<Seq<Event>>,
    before: Ticker,
    sum: nat,
    after: Ticker,
)
    requires
        forall|a: Ticker, w: u64| #[trigger] wait(a, w) ==> w == a.micros(1),
        forall|a: Ticker, t: u32, b: Ticker| #[trigger] step(a, t, b) ==> b == a.at_tempo(t),
        timed_run(wait, step, moments, before, sum, after),
    ensures
        sum == before.span(moments),
        after == before.at_tempo(tempo_after(moments, before.tempo)),
    decreases moments.len(),
{
    if moments.len() > 0 {
        let (part, at) = choose|part: nat, at: Ticker|
            #![trigger on_the_way((part, at))]
            on_the_way((part, at)) && timed_run(wait, step, moments.drop_last(), before, part, at)
                && part <= sum && sum - part <= u64::MAX && wait(at, (sum - part) as u64)
                && tempo_run(step, moments.last(), at, after);
        lemma_ticker_timed_run(wait, step, moments.drop_last(), before, part, at);
        lemma_ticker_tempo_run(step, moments.last(), at, after);
    }
}

/// A timer never waits less for more ticks, and never waits for no tick.
pub proof fn lemma_sleep_duration_monotonic(t: Ticker, fewer: u32, more: u32)
    requires
        fewer <= more,
    ensures
        t.micros(0) == 0,
        t.micros(fewer) <= t.micros(more),
{
    let per = t.ticks_per_beat as nat * t.speed.ratio().0 as nat;
    let base = t.tempo as nat * t.speed.ratio().1 as nat;
    let low = t.tempo as nat * fewer as nat * t.speed.ratio().1 as nat;
    let high = t.tempo as nat * more as nat * t.speed.ratio().1 as nat;
    assert(t.tempo as nat * 0nat * t.speed.ratio().1 as nat == 0) by (nonlinear_arith);
    assert(low <= high) by (nonlinear_arith)
        requires
            fewer <= more,
            low == t.tempo as nat * fewer as nat * t.speed.ratio().1 as nat,
            high == t.tempo as nat * more as nat * t.speed.ratio().1 as nat,
    ;
    if low != 0 && per != 0 {
        lemma_div_is_ordered(low as int, high as int, per as int);
    }
}

/// A timer for timecode timing: every tick has the same length, whatever the
/// tempo. The field is that length in microseconds.
#[derive(Debug, Copy, Clone, PartialEq, Eq)]
pub struct FixedTempo(pub u64);

/// Ticks per hundred seconds of a timecode timing.
pub open spec fn centiticks(fps: FrameRate, ticks_per_frame: u8) -> nat {
    (match fps {
        FrameRate::Fps24 => 2400nat,
        FrameRate::Fps25 => 2500nat,
        FrameRate::Fps29 => 2997nat,
        FrameRate::Fps30 => 3000nat,
    }) * ticks_per_frame as nat
}

impl FixedTempo {
    /// The whole microseconds that `n_ticks` ticks take, capped at the
    /// largest `u64`.
    pub open spec fn micros(self, n_ticks: u32) -> nat {
        capped(self.0 as nat * n_ticks as nat)
    }

    /// A timer for the timing of a header. Only timecode timing fixes the
    /// length of a tick: any other timing is refused. A tick is a second
    /// divided by the frames per second and by the ticks per frame, rounded
    /// down; no tick per frame means a tick without end.
    pub fn try_from(t: TimeFormat) -> (r: Result<FixedTempo, TimeFormatError>)
        ensures
            match t {
                TimeFormat::Timecode(fps, ticks_per_frame) => r == Ok::<FixedTempo, TimeFormatError>(
                    FixedTempo(
                        if ticks_per_frame == 0 {
                            u64::MAX
                        } else {
                            (100_000_000nat / centiticks(fps, ticks_per_frame)) as u64
                        },
                    ),
                ),
                TimeFormat::Metrical(_) => r is Err,
            },
    {
        match t {
            TimeFormat::Timecode(fps, ticks_per_frame) => {
                if ticks_per_frame == 0 {
                    Ok(FixedTempo(u64::MAX))
                } else {
                    let rate: u64 = match fps {
                        FrameRate::Fps24 => 2400,
                        FrameRate::Fps25 => 2500,
                        FrameRate::Fps29 => 2997,
                        FrameRate::Fps30 => 3000,
                    };
                    assert(rate * ticks_per_frame <= 3000 * 255) by (nonlinear_arith)
                        requires
                            rate <= 3000,
                            ticks_per_frame <= 255,
                    ;
                    let per: u64 = rate * (ticks_per_frame as u64);
                    assert(per >= 2400) by (nonlinear_arith)
                        requires
                            per == rate * ticks_per_frame,
                            rate >= 2400,
                            ticks_per_frame >= 1,
                    ;
                    Ok(FixedTempo(100_000_000 / per))
                }
            },
            TimeFormat::Metrical(_) => Err(TimeFormatError),
        }
    }
}

impl Timer for FixedTempo {
    fn sleep_duration(&self, n_ticks: u32) -> (micros: u64)
        ensures
            micros == self.micros(n_ticks),
    {
        let wide: u128 = self.0 as u128;
        let ticks: u128 = n_ticks as u128;
        assert(wide * ticks <= 0xFFFF_FFFF_FFFF_FFFF * 0xFFFF_FFFF) by (nonlinear_arith)
            requires
                wide <= 0xFFFF_FFFF_FFFF_FFFF,
                ticks <= 0xFFFF_FFFF,
        ;
        let due: u128 = wide * ticks;
        if due > u64::MAX as u128 {
            u64::MAX
        } else {
            due as u64
        }
    }

    /// Does nothing: the length of a tick is fixed.
    fn change_tempo(&mut self, tempo: u32)
        ensures
            *final(self) == *old(self),
    {
    }
}

impl FixedTempo {
    /// The time that `moments` take, capped at the largest `u64`: one tick
    /// for each. The timer stays as it is.
    pub fn duration(&mut self, moments: &[Moment]) -> (total: u64)
        ensures
            total == capped(old(self).0 as nat * moments@.len()),
            *final(self) == *old(self),
    {
        let ghost start = *self;
        let ghost wait = |at: FixedTempo, w: u64|
            call_ensures(FixedTempo::sleep_duration, (&at, 1u32), w);
        let ghost step = |a: FixedTempo, t: u32, b: FixedTempo|
            exists|r: &mut FixedTempo|
                *r == a && *final(r) == b && #[trigger] call_ensures(
                    FixedTempo::change_tempo,
                    (r, t),
                    (),
                );
        let total = Timer::duration(self, moments);
        proof {
            let sum = choose|sum: nat|
                total == #[trigger] capped(sum) && timed_run(
                    wait,
                    step,
                    timeline(moments@),
                    start,
                    sum,
                    *self,
                );
            lemma_fixed_timed_run(wait, step, timeline(moments@), start, sum, *self);
        }
        total
    }
}

/// For a timer of fixed tick length, a run of events changes nothing.
pub proof fn lemma_fixed_tempo_run(
    step: spec_fn(FixedTempo, u32, FixedTempo) -> bool,
    events: Seq<Event>,
    before: FixedTempo,
    after: FixedTempo,
)
    requires
        forall|a: FixedTempo, t: u32, b: FixedTempo| #[trigger] step(a, t, b) ==> b == a,
        tempo_run(step, events, before, after),
    ensures
        after == before,
    decreases events.len(),
{
    if events.len() > 0 {
        let mid = choose|mid: FixedTempo|
            #![trigger on_the_way(mid)]
            on_the_way(mid) && tempo_run(step, events.drop_last(), before, mid) && (
            match events.last() {
                Event::Tempo(t) => step(mid, t, after),
                _ => mid == after,
            });
        lemma_fixed_tempo_run(step, events.drop_last(), before, mid);
    }
}

/// For a timer of fixed tick length, a timed run adds up to one tick for
/// each moment and changes nothing.
pub proof fn lemma_fixed_timed_run(
    wait: spec_fn(FixedTempo, u64) -> bool,
    step: spec_fn(FixedTempo, u32, FixedTempo) -> bool,
    moments: Seq<Seq<Event>>,
    before: FixedTempo,
    sum: nat,
    after: FixedTempo,
)
    requires
        forall|a: FixedTempo, w: u64| #[trigger] wait(a, w) ==> w == a.micros(1),
        forall|a: FixedTempo, t: u32, b: FixedTempo| #[trigger] step(a, t, b) ==> b == a,
        timed_run(wait, step, moments, before, sum, after),
    ensures
        sum == before.0 as nat * moments.len(),
        after == before,
    decreases moments.len(),
{
    if moments.len() > 0 {
        let (part, at) = choose|part: nat, at: FixedTempo|
            #![trigger on_the_way((part, at))]
            on_the_way((part, at)) && timed_run(wait, step, moments.drop_last(), before, part, at)
                && part <= sum && sum - part <= u64::MAX && wait(at, (sum - part) as u64)
                && tempo_run(step, moments.last(), at, after);
        lemma_fixed_timed_run(wait, step, moments.drop_last(), before, part, at);
        lemma_fixed_tempo_run(step, moments.last(), at, after);
        assert(before.0 as nat * moments.len() == before.0 as nat * (moments.len() - 1) as nat
            + before.0 as nat) by (nonlinear_arith)
            requires
                moments.len() > 0,
        ;
    } else {
        assert(before.0 as nat * 0nat == 0) by (nonlinear_arith);
    }
}

/// A timer of fixed tick length never waits less for more ticks, and never
/// waits for no tick.
pub proof fn lemma_fixed_duration_monotonic(t: FixedTempo, fewer: u32, more: u32)
    requires
        fewer <= more,
    ensures
        t.micros(0) == 0,
        t.micros(fewer) <= t.micros(more),
{
    assert(t.0 as nat * fewer as nat <= t.0 as nat * more as nat) by (nonlinear_arith)
        requires
            fewer <= more,
    ;
}

/// The next thing to do while waiting with both a coarse sleep and a spin.
#[derive(Debug, Copy, Clone, PartialEq, Eq)]
pub enum Wait {
    /// Sleep for about a millisecond, measure how long that took, and ask
    /// again; the field is the time that is left before the nap.
    Nap(u64),
    /// Spin for the time in the field; the wait is over after that.
    Spin(u64),
}

/// Plans a wait of `t` microseconds that ends on time.
///
/// A thread that sleeps wakes up late, so only the bulk of the wait is slept
/// and the last `limit` microseconds are spent spinning. A wait shorter than
/// `limit` is spun from the start.
pub fn sleep(t: u64, limit: u64) -> (next: Wait)
    ensures
        next == (if t < limit {
            Wait::Spin(t)
        } else {
            Wait::Nap(t)
        }),
{
    if t < limit {
        Wait::Spin(t)
    } else {
        Wait::Nap(t)
    }
}

/// Goes on with a wait after a nap: `remaining` microseconds were left before
/// the nap, and the nap took `elapsed`.
///
/// What the nap took is taken off what was left; a nap that took longer
/// leaves nothing. Once no more than `limit` is left, the rest is spun.
pub fn sleep_on(remaining: u64, elapsed: u64, limit: u64) -> (next: Wait)
    ensures
        next == (if remaining - elapsed <= limit {
            Wait::Spin(
                if remaining >= elapsed {
                    (remaining - elapsed) as u64
                } else {
                    0
                },
            )
        } else {
            Wait::Nap((remaining - elapsed) as u64)
        }),
{
    let left = remaining.saturating_sub(elapsed);
    if left <= limit {
        Wait::Spin(left)
    } else {
        Wait::Nap(left)
    }
}

/// Whether a spin that is to last `t` microseconds goes on after `elapsed`
/// microseconds.
pub fn spin_lock(elapsed: u64, t: u64) -> (again: bool)
    ensures
        again == (elapsed < t),
{
    elapsed < t
}

} // verus!
