//! An event-sourced fleet tracker.
//!
//! Domain events (a ship is enrolled, arrives in a port, departs) are first
//! written to an append-only log of one record per line, and only then folded
//! into a projection that maps each ship's name to the port it is docked in.
//! The fold, the bookkeeping around the log and the framing of its lines are
//! verified here; reading the clock, encoding records and touching the disk are
//! left to the caller.

mod journal;
mod model;
mod projection;
mod projector;

pub use journal::{
    frame_record, framed, lemma_log_append, lemma_log_lines, line_end, lines_of, log_text, separator,
    single_line,
};
pub use model::{Command, Event, LogError, Port, Ship, StateEvent};
pub use projection::{
    lemma_arrival_departure, lemma_reenrol_resets_port, lemma_unknown_ship, names_unique, ships_map,
    step, Fleet, State,
};
pub use projector::{Projector, ProjectorView};
