use event_sourcing::{frame_record, Event, LogError, Port, Projector, Ship, State, StateEvent};

fn process(projector: &mut Projector, event: StateEvent) -> Event {
    let record = projector.stamp(event, 1700000000);
    projector.process_event(&record, Ok(())).unwrap();
    record
}

fn enrol(name: &str) -> StateEvent {
    StateEvent::EnrolShip { ship: name.into() }
}

fn arrive(name: &str, port: Port) -> StateEvent {
    StateEvent::Arrival {
        ship: name.into(),
        port,
    }
}

fn depart(name: &str) -> StateEvent {
    StateEvent::Departure { ship: name.into() }
}

#[test]
fn it_can_process_events() {
    let mut projector = Projector::new();
    process(&mut projector, enrol("hms_at_sea"));
    process(&mut projector, enrol("hms_hello"));
    process(&mut projector, arrive("hms_at_sea", Port::SanFrancisco));
    process(&mut projector, arrive("hms_hello", Port::Tokyo));
    process(&mut projector, depart("hms_at_sea"));

    let state = projector.state();
    assert_eq!(
        state.len(),
        2,
        "there should be 2 ships but got {}",
        state.len()
    );
    assert!(
        state.get("hms_at_sea").unwrap().port.is_none(),
        "hms_at_sea should be at sea",
    );
    assert_eq!(
        state.get("hms_hello").unwrap().port,
        Some(Port::Tokyo),
        "hms_hello should be docked at Tokyo",
    );
}

#[test]
fn reenrolment_resets_port() {
    let mut projector = Projector::new();
    process(&mut projector, enrol("hms_hello"));
    process(&mut projector, enrol("hms_other"));
    process(&mut projector, arrive("hms_hello", Port::Porto));
    process(&mut projector, arrive("hms_other", Port::HongKong));
    assert_eq!(projector.state().get("hms_hello").unwrap().port, Some(Port::Porto));
    process(&mut projector, enrol("hms_hello"));
    let state = projector.state();
    assert_eq!(state.len(), 2);
    assert_eq!(state.get("hms_hello").unwrap().port, None);
    assert_eq!(state.get("hms_hello").unwrap().name, "hms_hello");
    assert_eq!(state.get("hms_other").unwrap().port, Some(Port::HongKong));
}

#[test]
fn reenrolment_of_ship_at_sea_keeps_it_at_sea() {
    let mut state = State::new();
    state.apply(&enrol("hms_at_sea"));
    state.apply(&enrol("hms_at_sea"));
    assert_eq!(state.len(), 1);
    assert_eq!(state.get("hms_at_sea").unwrap().port, None);
}

#[test]
fn arrival_then_departure_returns_to_sea() {
    let mut state = State::new();
    state.apply(&enrol("hms_hello"));
    state.apply(&arrive("hms_hello", Port::LosAngeles));
    assert_eq!(state.get("hms_hello").unwrap().port, Some(Port::LosAngeles));
    state.apply(&depart("hms_hello"));
    assert_eq!(state.len(), 1);
    assert_eq!(state.get("hms_hello").unwrap().port, None);
}

#[test]
fn unknown_ship_events_leave_projection_unchanged() {
    let mut projector = Projector::new();
    process(&mut projector, enrol("hms_hello"));
    process(&mut projector, arrive("hms_hello", Port::Tokyo));
    process(&mut projector, arrive("hms_ghost", Port::Porto));
    process(&mut projector, depart("hms_phantom"));
    let state = projector.state();
    assert_eq!(state.len(), 1);
    assert!(state.get("hms_ghost").is_none());
    assert!(state.get("hms_phantom").is_none());
    assert_eq!(state.get("hms_hello").unwrap().port, Some(Port::Tokyo));
}

#[test]
fn events_on_empty_projection_are_tolerated() {
    let mut state = State::new();
    state.apply(&depart("hms_nobody"));
    state.apply(&arrive("hms_nobody", Port::SanFrancisco));
    assert_eq!(state.len(), 0);
    assert!(state.get("hms_nobody").is_none());
}

#[test]
fn failed_append_changes_nothing() {
    let mut projector = Projector::new();
    process(&mut projector, enrol("hms_hello"));
    let record = projector.stamp(arrive("hms_hello", Port::Tokyo), 7);
    assert_eq!(
        projector.process_event(&record, Err(LogError::IoFailure)),
        Err(LogError::IoFailure)
    );
    assert_eq!(projector.next_id(), 1);
    assert_eq!(projector.state().get("hms_hello").unwrap().port, None);

    let record = projector.stamp(enrol("hms_other"), 8);
    assert_eq!(
        projector.process_event(&record, Err(LogError::SerializationFailed)),
        Err(LogError::SerializationFailed)
    );
    assert_eq!(projector.state().len(), 1);
    assert_eq!(projector.next_id(), 1);
}

#[test]
fn records_get_increasing_identifiers() {
    let mut projector = Projector::new();
    assert_eq!(projector.next_id(), 0);
    let first = process(&mut projector, enrol("hms_hello"));
    let second = process(&mut projector, depart("hms_hello"));
    let third = projector.stamp(enrol("hms_other"), 42);
    assert_eq!(first.id, 0);
    assert_eq!(second.id, 1);
    assert_eq!(third.id, 2);
    assert_eq!(third.ts, 42);
    assert!(matches!(third.event, StateEvent::EnrolShip { ref ship } if ship == "hms_other"));
    assert_eq!(projector.next_id(), 2);
}

#[test]
fn new_ship_keeps_its_fields() {
    let ship = Ship::new("hms_hello".into(), Some(Port::Porto));
    assert_eq!(ship.name, "hms_hello");
    assert_eq!(ship.port, Some(Port::Porto));
}

#[test]
fn frame_record_appends_separator() {
    let record = r#"{"id":"0","ts":1700000000,"event":{"enrol_ship":{"ship":"hms_hello"}}}"#;
    let line = frame_record(record.to_string()).unwrap();
    assert_eq!(line, format!("{}\n", record));
    assert_eq!(frame_record(String::new()), Ok("\n".to_string()));
}

#[test]
fn frame_record_refuses_multiline_record() {
    assert_eq!(
        frame_record("{\"id\":\n\"0\"}".to_string()),
        Err(LogError::SerializationFailed)
    );
    assert_eq!(
        frame_record("\n".to_string()),
        Err(LogError::SerializationFailed)
    );
}

#[test]
fn framed_records_read_back_one_per_line() {
    let records = [
        r#"{"id":"0","ts":1,"event":{"enrol_ship":{"ship":"hms_hello"}}}"#,
        r#"{"id":"1","ts":2,"event":{"arrival":{"ship":"hms_hello","port":"tokyo"}}}"#,
        r#"{"id":"2","ts":3,"event":{"departure":{"ship":"hms_hello"}}}"#,
    ];
    let mut log = String::new();
    for record in records.iter() {
        log.push_str(&frame_record(record.to_string()).unwrap());
    }
    let lines: Vec<&str> = log.lines().collect();
    assert_eq!(lines.len(), 3);
    assert_eq!(lines, records.to_vec());
    assert_eq!(log.matches('\n').count(), 3);
}
