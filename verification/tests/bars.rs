use nodi::bar::{find_time_sig, ticks_per_bar};
use nodi::{Event, Message, MidiEvent, Moment, Sheet, TimeSignature};

fn on(key: u8) -> Moment {
    Moment {
        events: vec![Event::Midi(MidiEvent {
            channel: 0,
            message: Message::NoteOn { key, vel: 64 },
        })],
    }
}

fn sig(numerator: u8, denominator: u8) -> Moment {
    Moment { events: vec![Event::TimeSignature(numerator, denominator, 24, 8)] }
}

fn numbered(n: u8) -> Vec<Moment> {
    (0..n).map(on).collect()
}

fn all_bars(sheet: Sheet, ticks_per_beat: u16) -> Vec<Vec<Moment>> {
    let mut bars = sheet.into_bars(ticks_per_beat);
    let mut out = Vec::new();
    while let Some(bar) = bars.next() {
        out.push(bar);
    }
    assert_eq!(bars.next(), None);
    out
}

#[test]
fn ticks_per_bar_follows_the_time_signature() {
    let four_four = TimeSignature { numerator: 4, denominator: 2 };
    assert_eq!(ticks_per_bar(four_four, 480), 1920);
    assert_eq!(ticks_per_bar(TimeSignature { numerator: 3, denominator: 2 }, 480), 1440);
    assert_eq!(ticks_per_bar(TimeSignature { numerator: 6, denominator: 3 }, 480), 1440);
    assert_eq!(ticks_per_bar(TimeSignature { numerator: 2, denominator: 1 }, 96), 384);
    assert_eq!(ticks_per_bar(TimeSignature { numerator: 1, denominator: 0 }, 1), 4);
}

#[test]
fn ticks_per_bar_rounds_down() {
    assert_eq!(ticks_per_bar(TimeSignature { numerator: 3, denominator: 5 }, 3), 1);
    assert_eq!(ticks_per_bar(TimeSignature { numerator: 1, denominator: 3 }, 1), 0);
    assert_eq!(ticks_per_bar(TimeSignature { numerator: 255, denominator: 31 }, 65535), 0);
    assert_eq!(ticks_per_bar(TimeSignature { numerator: 255, denominator: 32 }, 65535), 0);
    assert_eq!(ticks_per_bar(TimeSignature { numerator: 255, denominator: 255 }, 65535), 0);
    assert_eq!(ticks_per_bar(TimeSignature { numerator: 255, denominator: 0 }, 65535), 66_845_700);
}

#[test]
fn find_time_sig_takes_the_first() {
    let m = Moment {
        events: vec![
            Event::Tempo(1),
            Event::TimeSignature(3, 2, 24, 8),
            Event::TimeSignature(5, 3, 24, 8),
        ],
    };
    assert_eq!(find_time_sig(&m), Some(TimeSignature { numerator: 3, denominator: 2 }));
    assert_eq!(find_time_sig(&on(1)), None);
    assert_eq!(find_time_sig(&Moment::default()), None);
}

#[test]
fn an_empty_sheet_has_no_bar() {
    assert_eq!(all_bars(Sheet::new(), 480), Vec::<Vec<Moment>>::new());
}

#[test]
fn bars_start_in_four_four() {
    let moments = numbered(10);
    let bars = all_bars(Sheet(moments.clone()), 1);
    assert_eq!(bars.len(), 3);
    assert_eq!(bars[0], moments[0..4].to_vec());
    assert_eq!(bars[1], moments[4..8].to_vec());
    assert_eq!(bars[2], moments[8..10].to_vec());
}

#[test]
fn bars_cover_the_sheet() {
    let mut moments = numbered(50);
    moments[0] = sig(3, 2);
    moments[7] = sig(2, 2);
    moments[8] = sig(5, 3);
    moments[30] = sig(5, 3);
    moments[41] = sig(1, 9);
    for ticks_per_beat in [0u16, 1, 2, 3, 8, 480] {
        let bars = all_bars(Sheet(moments.clone()), ticks_per_beat);
        assert!(bars.iter().all(|bar| !bar.is_empty()));
        assert_eq!(bars.concat(), moments);
    }
}

#[test]
fn the_first_moment_sets_the_signature_of_its_bar() {
    let mut moments = numbered(7);
    moments[0] = sig(3, 2);
    let bars = all_bars(Sheet(moments.clone()), 1);
    assert_eq!(bars.len(), 3);
    assert_eq!(bars[0], moments[0..3].to_vec());
    assert_eq!(bars[1], moments[3..6].to_vec());
    assert_eq!(bars[2], moments[6..7].to_vec());
}

#[test]
fn a_new_signature_ends_the_bar_at_its_moment() {
    let mut moments = numbered(12);
    moments[2] = sig(3, 2);
    let bars = all_bars(Sheet(moments.clone()), 1);
    assert_eq!(bars.len(), 4);
    assert_eq!(bars[0], moments[0..3].to_vec());
    assert_eq!(bars[1], moments[3..6].to_vec());
    assert_eq!(bars[2], moments[6..9].to_vec());
    assert_eq!(bars[3], moments[9..12].to_vec());
}

#[test]
fn the_same_signature_again_ends_no_bar() {
    let mut moments = numbered(8);
    moments[2] = sig(4, 2);
    let bars = all_bars(Sheet(moments.clone()), 1);
    assert_eq!(bars.len(), 2);
    assert_eq!(bars[0], moments[0..4].to_vec());
    assert_eq!(bars[1], moments[4..8].to_vec());
}

#[test]
fn a_bar_has_at_least_one_moment() {
    let moments = numbered(3);
    let bars = all_bars(Sheet(moments.clone()), 0);
    assert_eq!(bars.len(), 3);
    assert_eq!(bars[1], moments[1..2].to_vec());
}

#[test]
fn one_moment_is_one_bar() {
    let bars = all_bars(Sheet(vec![on(1)]), 480);
    assert_eq!(bars, vec![vec![on(1)]]);
}
