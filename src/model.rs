use vstd::prelude::*;

verus! {

/// A harbour where a ship can dock.
#[derive(Clone, Copy, Debug, PartialEq, Eq, Structural)]
pub enum Port {
    SanFrancisco,
    Porto,
    LosAngeles,
    HongKong,
    Tokyo,
}

/// One tracked vessel: its name, which never changes, and where it is docked
/// (`None` while it is at sea).
#[derive(Clone, Debug)]
pub struct Ship {
    pub name: String,
    pub port: Option<Port>,
}

impl Ship {
    pub fn new(name: String, port: Option<Port>) -> (r: Ship)
        ensures
            r.name@ == name@,
            r.port == port,
    {
        Ship { name, port }
    }
}

/// A domain event, as the caller hands it in.
#[derive(Clone, Debug)]
pub enum StateEvent {
    /// Adds a ship to the fleet, at sea.
    EnrolShip { ship: String },
    /// The ship has arrived at a port.
    Arrival { ship: String, port: Port },
    /// The ship has left its port and is out at sea.
    Departure { ship: String },
}

/// What a domain event says, with the ship's name as a sequence of characters.
pub enum Command {
    Enrol { ship: Seq<char> },
    Arrive { ship: Seq<char>, port: Port },
    Depart { ship: Seq<char> },
}

impl View for StateEvent {
    type V = Command;

    open spec fn view(&self) -> Command {
        match self {
            StateEvent::EnrolShip { ship } => Command::Enrol { ship: ship@ },
            StateEvent::Arrival { ship, port } => Command::Arrive { ship: ship@, port: *port },
            StateEvent::Departure { ship } => Command::Depart { ship: ship@ },
        }
    }
}

/// The durable envelope of one domain event: a record identifier, the time
/// in seconds since the Unix epoch (UTC), and the event itself.
#[derive(Clone, Debug)]
pub struct Event {
    pub id: u64,
    pub ts: u64,
    pub event: StateEvent,
}

/// Why an event could not be appended to the log.
#[derive(Clone, Copy, Debug, PartialEq, Eq, Structural)]
pub enum LogError {
    /// The event could not be encoded as one line of the log.
    SerializationFailed,
    /// The log could not be written.
    IoFailure,
}

} // verus!
