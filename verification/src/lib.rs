//! A MIDI timeline engine: tracks are merged into one sequence of moments,
//! one per tick, which can be transposed, cut into bars, timed and played.

pub mod bar;
pub mod compose;
pub mod event;
pub mod player;
pub mod sheet;
pub mod smf;
pub mod timer;
pub mod transpose;

pub use crate::bar::{Bars, TimeSignature};
pub use crate::compose::{Compose, Filter, Mapped, Transpose};
pub use crate::event::{Event, Meta, MidiEvent, Message, Moment, RawEvent, RawKind};
pub use crate::player::{Action, Connection, Pace, Playback, Player, Step};
pub use crate::sheet::Sheet;
pub use crate::timer::{
    FixedTempo, FrameRate, Speed, Ticker, TimeFormat, TimeFormatError, Timer, Wait,
};
