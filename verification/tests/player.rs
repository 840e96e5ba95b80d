use nodi::player::plan;
use nodi::{
    Action, Compose, Connection, Event, Message, MidiEvent, Moment, Pace, Playback, Player,
    RawEvent, RawKind, Sheet, Step, Ticker, Timer,
};

fn msg(channel: u8, key: u8) -> MidiEvent {
    MidiEvent { channel, message: Message::NoteOn { key, vel: 64 } }
}

fn note(delta: u32, channel: u8, key: u8) -> RawEvent {
    RawEvent { delta, kind: RawKind::Midi { channel, message: Message::NoteOn { key, vel: 64 } } }
}

/// A sink that keeps what it is handed, and refuses the message number
/// `fail_at`, counted from one.
struct Recorder {
    sent: Vec<MidiEvent>,
    fail_at: Option<usize>,
}

impl Connection for Recorder {
    fn play(&mut self, event: MidiEvent) -> bool {
        self.sent.push(event);
        Some(self.sent.len()) != self.fail_at
    }
}

/// What a driver saw: the waits in microseconds that were not zero, and the
/// messages that reached the sink.
struct Seen {
    waits: Vec<u64>,
    sent: Vec<MidiEvent>,
    completed: bool,
}

/// Plays `sheet` as a driver does, without waiting.
fn drive(sheet: &[Moment], timer: Ticker, fail_at: Option<usize>) -> Seen {
    let mut player = Player::new(timer, Recorder { sent: Vec::new(), fail_at });
    let mut playback = Playback::new(sheet);
    let mut waits = Vec::new();
    loop {
        match player.play(&mut playback) {
            Pace::Sleep(n) => {
                let t = player.timer.sleep_duration(n);
                if t != 0 {
                    waits.push(t);
                }
            }
            Pace::Finished => return Seen { waits, sent: player.con.sent, completed: true },
            Pace::Stopped => {
                assert_eq!(player.play(&mut playback), Pace::Stopped);
                return Seen { waits, sent: player.con.sent, completed: false };
            }
        }
    }
}

#[test]
fn an_empty_sheet_takes_nothing() {
    assert_eq!(plan(&[]), vec![]);
    let silent = vec![Moment::default(), Moment::default()];
    assert_eq!(plan(&silent), vec![]);
    let mut playback = Playback::new(&silent);
    assert_eq!(playback.advance(true), Step::Finished);
    assert_eq!(playback.advance(true), Step::Finished);
    let seen = drive(&silent, Ticker::with_initial_tempo(1, 1), None);
    assert!(seen.completed);
    assert!(seen.waits.is_empty());
    assert!(seen.sent.is_empty());
}

#[test]
fn the_plan_waits_before_each_tick_with_events() {
    let sheet = vec![
        Moment::default(),
        Moment::default(),
        Moment { events: vec![Event::Midi(msg(0, 1)), Event::Tempo(5), Event::KeySignature(1, false)] },
        Moment { events: vec![Event::TimeSignature(3, 2, 24, 8)] },
        Moment::default(),
        Moment { events: vec![Event::Midi(msg(0, 2))] },
    ];
    assert_eq!(
        plan(&sheet),
        vec![
            Action::Sleep(2),
            Action::Send(msg(0, 1)),
            Action::Tempo(5),
            Action::Sleep(1),
            Action::Sleep(2),
            Action::Send(msg(0, 2)),
        ]
    );
}

#[test]
fn a_playback_hands_out_its_plan() {
    let sheet = vec![Moment { events: vec![Event::Tempo(9), Event::Midi(msg(0, 1))] }];
    let mut playback = Playback::new(&sheet);
    assert_eq!(playback.advance(true), Step::Do(Action::Sleep(0)));
    assert_eq!(playback.advance(true), Step::Do(Action::Tempo(9)));
    assert_eq!(playback.advance(true), Step::Do(Action::Send(msg(0, 1))));
    assert_eq!(playback.advance(true), Step::Finished);
    assert_eq!(playback.advance(true), Step::Finished);
}

#[test]
fn end_to_end() {
    let note_on = MidiEvent { channel: 0, message: Message::NoteOn { key: 60, vel: 64 } };
    let sheet = vec![
        Moment { events: vec![Event::Tempo(500_000)] },
        Moment { events: vec![Event::Midi(note_on)] },
        Moment::default(),
        Moment::default(),
    ];
    let seen = drive(&sheet, Ticker::new(480), None);
    assert!(seen.completed);
    assert_eq!(seen.waits, vec![Ticker::with_initial_tempo(480, 500_000).sleep_duration(1)]);
    assert_eq!(seen.waits, vec![1041]);
    assert_eq!(seen.sent, vec![note_on]);
    assert_eq!(
        plan(&sheet),
        vec![Action::Sleep(0), Action::Tempo(500_000), Action::Sleep(1), Action::Send(note_on)]
    );
}

#[test]
fn the_player_stops_at_each_wait() {
    let sheet = vec![
        Moment { events: vec![Event::Tempo(1000), Event::Midi(msg(0, 1))] },
        Moment::default(),
        Moment { events: vec![Event::Midi(msg(0, 2))] },
    ];
    let mut player = Player::new(Ticker::new(1), Recorder { sent: Vec::new(), fail_at: None });
    let mut playback = Playback::new(&sheet);
    assert_eq!(player.play(&mut playback), Pace::Sleep(0));
    assert_eq!(player.timer.tempo, 0);
    assert!(player.con.sent.is_empty());
    assert_eq!(player.play(&mut playback), Pace::Sleep(2));
    assert_eq!(player.timer.tempo, 1000);
    assert_eq!(player.con.sent, vec![msg(0, 1)]);
    assert_eq!(player.play(&mut playback), Pace::Finished);
    assert_eq!(player.con.sent, vec![msg(0, 1), msg(0, 2)]);
    assert_eq!(player.play(&mut playback), Pace::Finished);
    assert_eq!(player.con.sent.len(), 2);
}

#[test]
fn set_timer_gives_back_the_old_timer() {
    let mut player = Player::new(Ticker::new(1), Recorder { sent: Vec::new(), fail_at: None });
    let before = player.set_timer(Ticker::with_initial_tempo(2, 3));
    assert_eq!(before, Ticker::new(1));
    assert_eq!(player.timer, Ticker::with_initial_tempo(2, 3));
}

#[test]
fn a_tempo_change_bears_on_later_waits_only() {
    let sheet = vec![
        Moment { events: vec![Event::Tempo(1000)] },
        Moment::default(),
        Moment { events: vec![Event::Tempo(4000), Event::Midi(msg(0, 1))] },
        Moment::default(),
        Moment::default(),
        Moment { events: vec![Event::Midi(msg(0, 2))] },
    ];
    let seen = drive(&sheet, Ticker::new(1), None);
    assert!(seen.completed);
    assert_eq!(seen.waits, vec![2000, 12_000]);
    assert_eq!(seen.sent, vec![msg(0, 1), msg(0, 2)]);
}

#[test]
fn messages_go_out_in_tick_order_then_track_order() {
    let tracks = vec![
        vec![note(0, 0, 10), note(2, 0, 11), note(0, 0, 12), note(3, 0, 13)],
        vec![note(1, 1, 20), note(1, 1, 21), note(0, 1, 22), note(4, 1, 23)],
    ];
    let sheet = Sheet::parallel(&tracks);
    let seen = drive(sheet.as_moments(), Ticker::with_initial_tempo(1, 1), None);
    assert!(seen.completed);
    assert_eq!(
        seen.sent,
        vec![
            msg(0, 10),
            msg(1, 20),
            msg(0, 11),
            msg(0, 12),
            msg(1, 21),
            msg(1, 22),
            msg(0, 13),
            msg(1, 23),
        ]
    );
    assert_eq!(seen.waits, vec![1, 1, 3, 1]);
}

#[test]
fn a_refusal_ends_the_playback() {
    let sheet = vec![
        Moment { events: vec![Event::Midi(msg(0, 1)), Event::Midi(msg(0, 2))] },
        Moment { events: vec![Event::Midi(msg(0, 3))] },
        Moment { events: vec![Event::Midi(msg(0, 4))] },
    ];
    for n in 1..=4usize {
        let seen = drive(&sheet, Ticker::new(1), Some(n));
        assert!(!seen.completed);
        assert_eq!(seen.sent.len(), n);
        assert_eq!(seen.sent.last(), Some(&msg(0, n as u8)));
    }
    let seen = drive(&sheet, Ticker::new(1), Some(5));
    assert!(seen.completed);
    assert_eq!(seen.sent.len(), 4);
}

#[test]
fn a_stopped_playback_stays_stopped() {
    let sheet = vec![Moment { events: vec![Event::Midi(msg(0, 1)), Event::Midi(msg(0, 2))] }];
    let mut playback = Playback::new(&sheet);
    assert_eq!(playback.advance(true), Step::Do(Action::Sleep(0)));
    assert_eq!(playback.advance(true), Step::Do(Action::Send(msg(0, 1))));
    assert_eq!(playback.advance(false), Step::Stopped);
    assert_eq!(playback.advance(true), Step::Stopped);
    assert_eq!(playback.advance(true), Step::Stopped);
}

#[test]
fn a_transposing_connection_shifts_and_drops() {
    let inner = Recorder { sent: Vec::new(), fail_at: Some(2) };
    let mut con = inner.transpose(2, false);
    assert_eq!(con.shift, 2);
    assert!(!con.transpose_ch9);
    assert!(con.play(msg(0, 60)));
    assert!(con.play(msg(0, 126)));
    assert!(con.play(msg(0, 127)));
    assert!(!con.play(msg(9, 36)));
    assert!(con.play(msg(1, 0)));
    assert_eq!(con.con.sent, vec![msg(0, 62), msg(9, 36), msg(1, 2)]);
}

#[test]
fn a_mapping_connection_plays_what_comes_out() {
    let inner = Recorder { sent: Vec::new(), fail_at: Some(2) };
    let mut con = inner.map(|e: MidiEvent| MidiEvent { channel: 5, message: e.message });
    assert!(con.play(msg(0, 60)));
    assert!(!con.play(msg(1, 61)));
    assert!(con.play(msg(2, 62)));
    assert_eq!(con.con.sent, vec![msg(5, 60), msg(5, 61), msg(5, 62)]);
}

#[test]
fn a_filtering_connection_passes_over_the_rest() {
    let inner = Recorder { sent: Vec::new(), fail_at: Some(2) };
    let mut con = inner.filter(|e: &MidiEvent| e.channel != 9);
    assert!(con.play(msg(0, 60)));
    assert!(con.play(msg(9, 36)));
    assert!(!con.play(msg(1, 61)));
    assert!(con.play(msg(9, 37)));
    assert!(con.play(msg(2, 62)));
    assert_eq!(con.con.sent, vec![msg(0, 60), msg(1, 61), msg(2, 62)]);
}

#[test]
fn wrapped_last_is_applied_first() {
    let inner = Recorder { sent: Vec::new(), fail_at: None };
    let mut con = inner.filter(|e: &MidiEvent| e.channel != 9).transpose(12, true);
    let mut player_con = Recorder { sent: Vec::new(), fail_at: None }
        .transpose(12, true)
        .map(|e: MidiEvent| MidiEvent { channel: 9, message: e.message });
    assert!(con.play(msg(9, 120)));
    assert!(con.play(msg(9, 36)));
    assert!(con.play(msg(0, 36)));
    assert_eq!(con.con.con.sent, vec![msg(0, 48)]);
    assert!(player_con.play(msg(0, 36)));
    assert_eq!(player_con.con.con.sent, vec![msg(9, 48)]);
}

#[test]
fn a_player_plays_through_a_wrapped_connection() {
    let sheet = vec![
        Moment { events: vec![Event::Midi(msg(0, 120)), Event::Midi(msg(9, 36))] },
        Moment { events: vec![Event::Midi(msg(1, 60))] },
    ];
    let con = Recorder { sent: Vec::new(), fail_at: None }.transpose(12, false);
    let mut player = Player::new(Ticker::new(1), con);
    let mut playback = Playback::new(&sheet);
    assert_eq!(player.play(&mut playback), Pace::Sleep(0));
    assert_eq!(player.play(&mut playback), Pace::Sleep(1));
    assert_eq!(player.play(&mut playback), Pace::Finished);
    assert_eq!(player.con.con.sent, vec![msg(9, 36), msg(1, 72)]);
}

#[test]
fn two_tracks_reach_the_sink_tick_by_tick() {
    let on = |key: u8| Message::NoteOn { key, vel: 50 };
    let off = |key: u8| Message::NoteOff { key, vel: 0 };
    let raw = |delta: u32, message: Message| RawEvent {
        delta,
        kind: RawKind::Midi { channel: 0, message },
    };
    let first = vec![raw(0, on(60)), raw(2, off(60))];
    let second = vec![raw(0, on(64)), raw(1, on(67)), raw(1, off(64))];
    let sheet = Sheet::parallel(&[first, second]);
    let seen = drive(sheet.as_moments(), Ticker::new(480), None);
    assert!(seen.completed);
    let heard: Vec<Message> = seen.sent.iter().map(|e| e.message).collect();
    assert_eq!(heard, vec![on(60), on(64), on(67), off(60), off(64)]);
    assert!(seen.sent.iter().all(|e| e.channel == 0));
}

#[test]
fn the_timer_ends_at_the_tempo_of_the_timeline() {
    let note_on = MidiEvent { channel: 0, message: Message::NoteOn { key: 60, vel: 50 } };
    let sheet = vec![
        Moment { events: vec![Event::Tempo(500_000)] },
        Moment { events: vec![Event::Midi(note_on)] },
        Moment::default(),
        Moment::default(),
    ];
    let mut player = Player::new(Ticker::new(480), Recorder { sent: Vec::new(), fail_at: None });
    let mut playback = Playback::new(&sheet);
    assert_eq!(player.play(&mut playback), Pace::Sleep(0));
    assert_eq!(player.timer, Ticker::new(480));
    assert_eq!(player.play(&mut playback), Pace::Sleep(1));
    assert_eq!(player.timer, Ticker::with_initial_tempo(480, 500_000));
    assert_eq!(player.timer.sleep_duration(1), 1041);
    assert!(player.con.sent.is_empty());
    assert_eq!(player.play(&mut playback), Pace::Finished);
    assert_eq!(player.con.sent, vec![note_on]);
    assert_eq!(player.timer, Ticker::with_initial_tempo(480, 500_000));
}

#[test]
fn nothing_follows_a_refused_message() {
    let sheet = vec![
        Moment { events: vec![Event::Midi(msg(0, 1)), Event::Tempo(9), Event::Midi(msg(0, 2))] },
        Moment { events: vec![Event::Tempo(7), Event::Midi(msg(0, 3))] },
    ];
    let mut player = Player::new(Ticker::new(1), Recorder { sent: Vec::new(), fail_at: Some(1) });
    let mut playback = Playback::new(&sheet);
    assert_eq!(player.play(&mut playback), Pace::Sleep(0));
    assert_eq!(player.play(&mut playback), Pace::Stopped);
    assert_eq!(player.con.sent, vec![msg(0, 1)]);
    assert_eq!(player.timer, Ticker::new(1));
    assert_eq!(player.play(&mut playback), Pace::Stopped);
    assert_eq!(player.con.sent, vec![msg(0, 1)]);
    assert_eq!(player.timer, Ticker::new(1));
}
