use vstd::prelude::*;

use crate::model::{Event, LogError, Port, StateEvent};
use crate::projection::{step, Fleet, State};

verus! {

/// Drives the fold: hands out the envelope of each new event, and applies an
/// event to the projection once its record has been appended to the log.
///
/// Identifiers are handed out in increasing order and move on only when a
/// record reached the log, so no two logged records share one.
#[derive(Debug)]
pub struct Projector {
    state: State,
    next_id: u64,
}

/// What a projector holds: the projection, and the identifier that the next
/// record gets.
pub struct ProjectorView {
    pub fleet: Fleet,
    pub next_id: u64,
}

impl View for Projector {
    type V = ProjectorView;

    closed spec fn view(&self) -> ProjectorView {
        ProjectorView { fleet: self.state@, next_id: self.next_id }
    }
}

impl Projector {
    pub closed spec fn wf(&self) -> bool {
        self.state.wf()
    }

    /// A projector with no ship, whose first record gets identifier 0.
    pub fn new() -> (r: Projector)
        ensures
            r.wf(),
            r@.fleet == Map::<Seq<char>, Option<Port>>::empty(),
            r@.next_id == 0,
    {
        Projector { state: State::new(), next_id: 0 }
    }

    /// The projection as it stands.
    pub fn state(&self) -> (r: &State)
        requires
            self.wf(),
        ensures
            r.wf(),
            r@ == self@.fleet,
    {
        &self.state
    }

    /// The identifier that the next logged record gets.
    pub fn next_id(&self) -> (r: u64)
        ensures
            r == self@.next_id,
    {
        self.next_id
    }

    /// The envelope of a new event, stamped with the next identifier and with
    /// `ts`, the current time in seconds since the Unix epoch. This is the
    /// record to append to the log before the event is processed.
    pub fn stamp(&self, event: StateEvent, ts: u64) -> (r: Event)
        ensures
            r.id == self@.next_id,
            r.ts == ts,
            r.event == event,
    {
        Event { id: self.next_id, ts, event }
    }

    /// Processes the event of `record` once the attempt to append `record` to
    /// the log has ended with `logged`.
    ///
    /// On success the event is applied to the projection and the next
    /// identifier moves on. On failure nothing changes and the log's error is
    /// returned: every projected effect has its record in the log.
    pub fn process_event(&mut self, record: &Event, logged: Result<(), LogError>) -> (r: Result<
        (),
        LogError,
    >)
        requires
            old(self).wf(),
            logged is Ok ==> old(self)@.next_id < u64::MAX,
        ensures
            final(self).wf(),
            r == logged,
            logged is Ok ==> final(self)@.fleet == step(old(self)@.fleet, record.event@)
                && final(self)@.next_id == old(self)@.next_id + 1,
            logged is Err ==> final(self)@ == old(self)@,
    {
        if logged.is_ok() {
            self.state.apply(&record.event);
            self.next_id = self.next_id + 1;
        }
        logged
    }
}

} // verus!
