use nodi::timer::{sleep, sleep_on, spin_lock};
use nodi::{
    Event, FixedTempo, FrameRate, Message, MidiEvent, Moment, Speed, Ticker, TimeFormat,
    TimeFormatError, Timer, Wait,
};

#[test]
fn a_new_ticker_takes_no_time() {
    let t = Ticker::new(480);
    assert_eq!(t, Ticker { ticks_per_beat: 480, tempo: 0, speed: Speed::new(1, 1) });
    assert_eq!(t.sleep_duration(1), 0);
    assert_eq!(t.sleep_duration(u32::MAX), 0);
}

#[test]
fn sleep_duration_divides_the_beat() {
    let t = Ticker::with_initial_tempo(480, 500_000);
    assert_eq!(t.sleep_duration(0), 0);
    assert_eq!(t.sleep_duration(1), 1041);
    assert_eq!(t.sleep_duration(2), 2083);
    assert_eq!(t.sleep_duration(480), 500_000);
    assert_eq!(t.sleep_duration(960), 1_000_000);
}

#[test]
fn sleep_duration_follows_the_tempo() {
    let mut t = Ticker::new(96);
    t.change_tempo(600_000);
    assert_eq!(t.sleep_duration(1), 6250);
    t.change_tempo(300_000);
    assert_eq!(t.sleep_duration(1), 3125);
    assert_eq!(t.tempo, 300_000);
}

#[test]
fn sleep_duration_follows_the_speed() {
    let mut t = Ticker::with_initial_tempo(480, 500_000);
    t.set_speed(2, 1);
    assert_eq!(t.sleep_duration(480), 250_000);
    assert_eq!(t.sleep_duration(1), 520);
    t.set_speed(1, 2);
    assert_eq!(t.sleep_duration(480), 1_000_000);
    t.set_speed(3, 2);
    assert_eq!(t.sleep_duration(3), 2083);
}

#[test]
fn sleep_duration_never_falls_with_more_ticks() {
    let mut t = Ticker::with_initial_tempo(7, 1_000_003);
    t.set_speed(3, 5);
    let mut last = 0;
    for n in 0..2000u32 {
        let now = t.sleep_duration(n);
        assert!(now >= last);
        last = now;
    }
    assert_eq!(t.sleep_duration(0), 0);
    assert!(t.sleep_duration(u32::MAX) >= last);
}

#[test]
fn sleep_duration_is_capped() {
    let mut t = Ticker::with_initial_tempo(1, u32::MAX);
    t.set_speed(1, u32::MAX);
    assert_eq!(t.sleep_duration(u32::MAX), u64::MAX);
    assert_eq!(t.sleep_duration(1), 18_446_744_065_119_617_025);
    let none = Ticker::with_initial_tempo(0, 500_000);
    assert_eq!(none.sleep_duration(0), 0);
    assert_eq!(none.sleep_duration(1), u64::MAX);
}

#[test]
fn ticker_try_from_takes_metrical_timing_only() {
    assert_eq!(Ticker::try_from(TimeFormat::Metrical(96)), Ok(Ticker::new(96)));
    assert_eq!(Ticker::try_from(TimeFormat::Timecode(FrameRate::Fps25, 40)), Err(TimeFormatError));
    assert_eq!(TimeFormatError.message(), "unsupported time format");
}

#[test]
fn fixed_tempo_try_from_takes_timecode_timing_only() {
    assert_eq!(
        FixedTempo::try_from(TimeFormat::Timecode(FrameRate::Fps25, 40)),
        Ok(FixedTempo(1000))
    );
    assert_eq!(
        FixedTempo::try_from(TimeFormat::Timecode(FrameRate::Fps24, 1)),
        Ok(FixedTempo(41_666))
    );
    assert_eq!(
        FixedTempo::try_from(TimeFormat::Timecode(FrameRate::Fps29, 2)),
        Ok(FixedTempo(16_683))
    );
    assert_eq!(
        FixedTempo::try_from(TimeFormat::Timecode(FrameRate::Fps30, 255)),
        Ok(FixedTempo(130))
    );
    assert_eq!(
        FixedTempo::try_from(TimeFormat::Timecode(FrameRate::Fps30, 0)),
        Ok(FixedTempo(u64::MAX))
    );
    assert_eq!(FixedTempo::try_from(TimeFormat::Metrical(96)), Err(TimeFormatError));
}

#[test]
fn fixed_tempo_ignores_the_tempo() {
    let mut t = FixedTempo(250);
    assert_eq!(t.sleep_duration(0), 0);
    assert_eq!(t.sleep_duration(4), 1000);
    t.change_tempo(1);
    assert_eq!(t, FixedTempo(250));
    assert_eq!(t.sleep_duration(4), 1000);
    assert_eq!(FixedTempo(u64::MAX).sleep_duration(2), u64::MAX);
    let moments = vec![Moment::default(), Moment { events: vec![Event::Tempo(9)] }, Moment::default()];
    assert_eq!(t.duration(&moments), 750);
    assert_eq!(FixedTempo(u64::MAX).duration(&moments), u64::MAX);
    assert_eq!(t.duration(&[]), 0);
}

#[test]
fn duration_follows_the_tempo_changes() {
    let note = Event::Midi(MidiEvent { channel: 0, message: Message::NoteOn { key: 1, vel: 1 } });
    let moments = vec![
        Moment { events: vec![Event::Tempo(100), note] },
        Moment::default(),
        Moment { events: vec![note, Event::Tempo(500), Event::Tempo(200)] },
        Moment::default(),
    ];
    let mut t = Ticker::new(10);
    // The first tick runs at the tempo from before: no time at all.
    assert_eq!(t.duration(&moments), 0 + 10 + 10 + 20);
    assert_eq!(t.tempo, 200);
    assert_eq!(t.duration(&moments), 20 + 10 + 10 + 20);
    assert_eq!(t.duration(&[]), 0);
    assert_eq!(t.tempo, 200);
}

#[test]
fn duration_is_capped() {
    let moments = vec![Moment::default(), Moment::default(), Moment::default()];
    let mut t = Ticker::with_initial_tempo(0, 1);
    assert_eq!(t.duration(&moments), u64::MAX);
}

#[test]
fn a_short_wait_is_spun() {
    assert_eq!(sleep(0, 3000), Wait::Spin(0));
    assert_eq!(sleep(2999, 3000), Wait::Spin(2999));
    assert_eq!(sleep(14_999, 15_000), Wait::Spin(14_999));
}

#[test]
fn a_long_wait_starts_with_a_nap() {
    assert_eq!(sleep(3000, 3000), Wait::Nap(3000));
    assert_eq!(sleep(1_000_000, 3000), Wait::Nap(1_000_000));
}

#[test]
fn a_nap_is_taken_off_the_wait() {
    assert_eq!(sleep_on(10_000, 1100, 3000), Wait::Nap(8900));
    assert_eq!(sleep_on(4100, 1100, 3000), Wait::Spin(3000));
    assert_eq!(sleep_on(4101, 1100, 3000), Wait::Nap(3001));
    assert_eq!(sleep_on(3500, 1100, 3000), Wait::Spin(2400));
}

#[test]
fn a_nap_that_overran_leaves_nothing() {
    assert_eq!(sleep_on(3500, 9000, 3000), Wait::Spin(0));
    assert_eq!(sleep_on(0, u64::MAX, 0), Wait::Spin(0));
    assert_eq!(sleep_on(u64::MAX, 0, 0), Wait::Nap(u64::MAX));
}

#[test]
fn a_wait_plays_out_without_losing_time() {
    let limit = 3000;
    let mut slept = 0u64;
    let mut step = sleep(10_000, limit);
    let mut naps = 0;
    while let Wait::Nap(left) = step {
        naps += 1;
        slept += 1250;
        step = sleep_on(left, 1250, limit);
    }
    assert_eq!(naps, 6);
    assert_eq!(step, Wait::Spin(2500));
    assert_eq!(slept + 2500, 10_000);
}

#[test]
fn the_spin_goes_on_until_the_time_is_up() {
    assert!(spin_lock(0, 1));
    assert!(spin_lock(2999, 3000));
    assert!(!spin_lock(3000, 3000));
    assert!(!spin_lock(3001, 3000));
    assert!(!spin_lock(0, 0));
}

/// A timer whose tick is as long as its tempo, and that counts the tempo
/// changes it is told of.
#[derive(Debug, PartialEq)]
struct Plain {
    tempo: u32,
    changes: u32,
}

impl Timer for Plain {
    fn sleep_duration(&self, n_ticks: u32) -> u64 {
        self.tempo as u64 * n_ticks as u64
    }

    fn change_tempo(&mut self, tempo: u32) {
        self.tempo = tempo;
        self.changes += 1;
    }
}

#[test]
fn any_timer_can_time_moments() {
    let note = Event::Midi(MidiEvent { channel: 0, message: Message::NoteOn { key: 1, vel: 1 } });
    let moments = vec![
        Moment { events: vec![Event::Tempo(100), note] },
        Moment::default(),
        Moment { events: vec![note, Event::Tempo(500), Event::Tempo(200)] },
        Moment::default(),
    ];
    let mut t = Plain { tempo: 7, changes: 0 };
    assert_eq!(t.duration(&moments), 7 + 100 + 100 + 200);
    assert_eq!(t, Plain { tempo: 200, changes: 3 });
    assert_eq!(t.duration(&[]), 0);
    assert_eq!(t.duration(&moments[1..2]), 200);
    assert_eq!(t, Plain { tempo: 200, changes: 3 });
}

#[test]
fn the_timers_time_moments_the_same_way_through_the_trait() {
    let moments = vec![
        Moment { events: vec![Event::Tempo(100)] },
        Moment::default(),
        Moment { events: vec![Event::Tempo(300)] },
    ];
    let mut t = Ticker::new(10);
    assert_eq!(Timer::duration(&mut t, &moments), 0 + 10 + 10);
    assert_eq!(t.tempo, 300);
    let mut f = FixedTempo(250);
    assert_eq!(Timer::duration(&mut f, &moments), 750);
    assert_eq!(f, FixedTempo(250));
    assert_eq!(Timer::duration(&mut FixedTempo(u64::MAX), &moments), u64::MAX);
}

#[test]
fn a_speed_keeps_its_ratio() {
    let s = Speed::new(3, 2);
    assert_eq!(s.num(), 3);
    assert_eq!(s.den(), 2);
    let mut t = Ticker::new(480);
    assert_eq!(t.speed, Speed::new(1, 1));
    t.set_speed(3, 2);
    assert_eq!(t.speed, s);
}
