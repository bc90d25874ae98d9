use vstd::prelude::*;

use crate::model::{Command, Port, Ship, StateEvent};

verus! {

/// The projection as a mathematical map: ship name to current port.
pub type Fleet = Map<Seq<char>, Option<Port>>;

/// The effect of one domain event on the projection.
///
/// Enrolling (re-)creates the ship at sea; arriving and departing change the
/// port of a known ship and leave the projection alone for an unknown one.
pub open spec fn step(fleet: Fleet, cmd: Command) -> Fleet {
    match cmd {
        Command::Enrol { ship } => fleet.insert(ship, None),
        Command::Arrive { ship, port } => if fleet.contains_key(ship) {
            fleet.insert(ship, Some(port))
        } else {
            fleet
        },
        Command::Depart { ship } => if fleet.contains_key(ship) {
            fleet.insert(ship, None)
        } else {
            fleet
        },
    }
}

/// The map described by a list of ships, later entries taking precedence.
pub open spec fn ships_map(ships: Seq<Ship>) -> Fleet
    decreases ships.len(),
{
    if ships.len() == 0 {
        Map::empty()
    } else {
        ships_map(ships.drop_last()).insert(ships.last().name@, ships.last().port)
    }
}

/// No two ships of the list share a name.
pub open spec fn names_unique(ships: Seq<Ship>) -> bool {
    forall|i: int, j: int|
        0 <= i < ships.len() && 0 <= j < ships.len() && i != j ==> #[trigger] ships[i].name@
            != #[trigger] ships[j].name@
}

proof fn lemma_ships_map(ships: Seq<Ship>)
    requires
        names_unique(ships),
    ensures
        forall|k: Seq<char>|
            #[trigger] ships_map(ships).contains_key(k) <==> exists|i: int|
                0 <= i < ships.len() && ships[i].name@ == k,
        forall|i: int|
            0 <= i < ships.len() ==> #[trigger] ships_map(ships)[ships[i].name@] == ships[i].port,
        ships_map(ships).dom().len() == ships.len(),
        ships_map(ships).dom().finite(),
    decreases ships.len(),
{
    if ships.len() > 0 {
        let init = ships.drop_last();
        assert(names_unique(init)) by {
            assert forall|i: int, j: int|
                0 <= i < init.len() && 0 <= j < init.len() && i != j implies #[trigger] init[i].name@
                != #[trigger] init[j].name@ by {
                assert(init[i] == ships[i] && init[j] == ships[j]);
            }
        }
        lemma_ships_map(init);
        let last = ships.last();
        assert(!ships_map(init).contains_key(last.name@)) by {
            if ships_map(init).contains_key(last.name@) {
                let i = choose|i: int| 0 <= i < init.len() && init[i].name@ == last.name@;
                assert(ships[i].name@ == ships[ships.len() - 1].name@);
            }
        }
        assert forall|k: Seq<char>|
            #[trigger] ships_map(ships).contains_key(k) <==> exists|i: int|
                0 <= i < ships.len() && ships[i].name@ == k by {
            if ships_map(ships).contains_key(k) && k != last.name@ {
                let i = choose|i: int| 0 <= i < init.len() && init[i].name@ == k;
                assert(ships[i].name@ == k);
            }
            if k == last.name@ {
                assert(ships[ships.len() - 1].name@ == k);
            }
            if exists|i: int| 0 <= i < ships.len() && ships[i].name@ == k {
                let i = choose|i: int| 0 <= i < ships.len() && ships[i].name@ == k;
                if i < ships.len() - 1 {
                    assert(init[i].name@ == k);
                }
            }
        }
        assert forall|i: int| 0 <= i < ships.len() implies #[trigger] ships_map(ships)[ships[i].name@]
            == ships[i].port by {
            if i < ships.len() - 1 {
                assert(init[i] == ships[i]);
                assert(ships[i].name@ != last.name@);
            }
        }
    }
}

/// The projection: each enrolled ship, by name, with its current port.
#[derive(Debug)]
pub struct State {
    ships: Vec<Ship>,
}

impl View for State {
    type V = Fleet;

    closed spec fn view(&self) -> Fleet {
        ships_map(self.ships@)
    }
}

impl State {
    /// Ship names are the keys of the projection: no two entries share one.
    pub closed spec fn wf(&self) -> bool {
        names_unique(self.ships@)
    }

    /// An empty projection.
    pub fn new() -> (r: State)
        ensures
            r.wf(),
            r@ == Map::<Seq<char>, Option<Port>>::empty(),
    {
        State { ships: Vec::new() }
    }

    /// The number of enrolled ships.
    pub fn len(&self) -> (r: usize)
        requires
            self.wf(),
        ensures
            r == self@.dom().len(),
    {
        proof {
            lemma_ships_map(self.ships@);
        }
        self.ships.len()
    }

    /// Where the ship of the given name stands in the list, if it is enrolled.
    fn find(&self, name: &String) -> (r: Option<usize>)
        requires
            self.wf(),
        ensures
            match r {
                Some(i) => i < self.ships@.len() && self.ships@[i as int].name@ == name@,
                None => !self@.contains_key(name@),
            },
    {
        proof {
            lemma_ships_map(self.ships@);
        }
        let mut i: usize = 0;
        while i < self.ships.len()
            invariant
                i <= self.ships@.len(),
                forall|j: int| 0 <= j < i ==> self.ships@[j].name@ != name@,
            decreases self.ships@.len() - i,
        {
            if self.ships[i].name == *name {
                return Some(i);
            }
            i = i + 1;
        }
        None
    }

    /// The ship of the given name, if it is enrolled.
    pub fn get(&self, name: &str) -> (r: Option<&Ship>)
        requires
            self.wf(),
        ensures
            match r {
                Some(s) => self@.contains_key(name@) && s.name@ == name@ && s.port == self@[name@],
                None => !self@.contains_key(name@),
            },
    {
        proof {
            lemma_ships_map(self.ships@);
        }
        let key = name.to_owned();
        match self.find(&key) {
            Some(i) => Some(&self.ships[i]),
            None => None,
        }
    }

    /// Applies one domain event to the projection.
    pub fn apply(&mut self, event: &StateEvent)
        requires
            old(self).wf(),
        ensures
            final(self).wf(),
            final(self)@ == step(old(self)@, event@),
    {
        proof {
            lemma_ships_map(self.ships@);
        }
        let ghost before = self.ships@;
        match event {
            StateEvent::EnrolShip { ship } => {
                match self.find(ship) {
                    Some(i) => {
                        self.ships[i].port = None;
                        proof { self.lemma_updated(before, i as int); }
                    },
                    None => {
                        self.ships.push(Ship::new(ship.clone(), None));
                        proof {
                            assert(self.ships@.drop_last() =~= before);
                            assert(names_unique(self.ships@)) by {
                                assert forall|a: int, b: int|
                                    0 <= a < self.ships@.len() && 0 <= b < self.ships@.len() && a
                                        != b implies #[trigger] self.ships@[a].name@
                                    != #[trigger] self.ships@[b].name@ by {
                                    if a < before.len() && b < before.len() {
                                        assert(before[a] == self.ships@[a]);
                                        assert(before[b] == self.ships@[b]);
                                    } else if a < before.len() {
                                        assert(before[a] == self.ships@[a]);
                                        assert(ships_map(before).contains_key(before[a].name@));
                                    } else {
                                        assert(before[b] == self.ships@[b]);
                                        assert(ships_map(before).contains_key(before[b].name@));
                                    }
                                }
                            }
                        }
                    },
                }
            },
            StateEvent::Arrival { ship, port } => {
                if let Some(i) = self.find(ship) {
                    self.ships[i].port = Some(*port);
                    proof { self.lemma_updated(before, i as int); }
                }
            },
            StateEvent::Departure { ship } => {
                if let Some(i) = self.find(ship) {
                    self.ships[i].port = None;
                    proof { self.lemma_updated(before, i as int); }
                }
            },
        }
    }

    /// Changing the port of one entry keeps the names unique and updates the
    /// map at that name alone.
    proof fn lemma_updated(&self, before: Seq<Ship>, i: int)
        requires
            names_unique(before),
            0 <= i < before.len(),
            self.ships@.len() == before.len(),
            self.ships@[i].name@ == before[i].name@,
            forall|j: int| 0 <= j < before.len() && j != i ==> self.ships@[j] == before[j],
        ensures
            self.wf(),
            self@ == ships_map(before).insert(before[i].name@, self.ships@[i].port),
    {
        let after = self.ships@;
        assert(names_unique(after)) by {
            assert forall|a: int, b: int|
                0 <= a < after.len() && 0 <= b < after.len() && a != b implies #[trigger] after[a].name@
                != #[trigger] after[b].name@ by {
                assert(after[a].name@ == before[a].name@);
                assert(after[b].name@ == before[b].name@);
            }
        }
        lemma_ships_map(before);
        lemma_ships_map(after);
        let m = ships_map(before).insert(before[i].name@, after[i].port);
        assert forall|k: Seq<char>| #[trigger] ships_map(after).contains_key(k) <==> m.contains_key(k) by {
            if ships_map(after).contains_key(k) {
                let j = choose|j: int| 0 <= j < after.len() && after[j].name@ == k;
                assert(before[j].name@ == k);
            }
            if ships_map(before).contains_key(k) {
                let j = choose|j: int| 0 <= j < before.len() && before[j].name@ == k;
                assert(after[j].name@ == k);
            }
        }
        assert forall|k: Seq<char>| #[trigger] ships_map(after).contains_key(k) implies ships_map(after)[k]
            == m[k] by {
            let j = choose|j: int| 0 <= j < after.len() && after[j].name@ == k;
            assert(after[j].name@ == before[j].name@);
        }
        assert(ships_map(after) =~= m);
    }
}

} // verus!

verus! {

/// Enrolling a ship that is already in the projection keeps the set of ships
/// and resets its port to `None`, whatever it was; no other ship changes.
pub proof fn lemma_reenrol_resets_port(fleet: Fleet, ship: Seq<char>)
    requires
        fleet.contains_key(ship),
    ensures
        step(fleet, Command::Enrol { ship }).dom() == fleet.dom(),
        step(fleet, Command::Enrol { ship })[ship] == None::<Port>,
        forall|k: Seq<char>|
            fleet.contains_key(k) && k != ship ==> #[trigger] step(fleet, Command::Enrol { ship })[k]
                == fleet[k],
{
    assert(step(fleet, Command::Enrol { ship }).dom() =~= fleet.dom());
}

/// A ship that is enrolled, then arrives in a port, then departs, is at sea
/// again, and the projection is the one right after its enrolment.
pub proof fn lemma_arrival_departure(fleet: Fleet, ship: Seq<char>, port: Port)
    ensures
        ({
            let enrolled = step(fleet, Command::Enrol { ship });
            let docked = step(enrolled, Command::Arrive { ship, port });
            let departed = step(docked, Command::Depart { ship });
            &&& docked[ship] == Some(port)
            &&& departed[ship] == None::<Port>
            &&& departed == enrolled
        }),
{
    let enrolled = step(fleet, Command::Enrol { ship });
    let docked = step(enrolled, Command::Arrive { ship, port });
    let departed = step(docked, Command::Depart { ship });
    assert(departed =~= enrolled);
}

/// An arrival or a departure of a ship that is not enrolled leaves the
/// projection exactly as it was.
pub proof fn lemma_unknown_ship(fleet: Fleet, ship: Seq<char>, port: Port)
    requires
        !fleet.contains_key(ship),
    ensures
        step(fleet, Command::Arrive { ship, port }) == fleet,
        step(fleet, Command::Depart { ship }) == fleet,
        step(fleet, Command::Arrive { ship, port }).dom().len() == fleet.dom().len(),
{
}

} // verus!
