use cqrs_core::Counter;
use cqrs_core::CounterCommand;
use cqrs_core::CounterPatch;
use cqrs_core::Entity;
use cqrs_core::EntityId;
use cqrs_core::Event;
use cqrs_core::FoldError;
use cqrs_core::CommandError;
use cqrs_core::apply;
use cqrs_core::replay;

fn counter(id: EntityId, value: u64) -> Counter {
    Counter { id, value }
}

#[test]
fn create_folds_to_the_snapshot() {
    let id = EntityId::from_name("counter-a");
    let state = apply(None, &Event::Create(counter(id, 7))).unwrap();
    assert_eq!(state, counter(id, 7));
}

#[test]
fn create_on_existing_state_is_double_create() {
    let id = EntityId::from_name("counter-a");
    let r = apply(Some(counter(id, 1)), &Event::Create(counter(id, 7)));
    assert_eq!(r, Err(FoldError::DoubleCreate));
}

#[test]
fn update_without_state_is_unknown_entity() {
    let id = EntityId::from_name("counter-a");
    let r = apply::<Counter>(None, &Event::Update(id, CounterPatch { add: 3 }));
    assert_eq!(r, Err(FoldError::UnknownEntity));
}

#[test]
fn update_folds_the_patch() {
    let id = EntityId::from_name("counter-a");
    let r = apply(Some(counter(id, 10)), &Event::Update(id, CounterPatch { add: 3 }));
    assert_eq!(r, Ok(counter(id, 13)));
}

#[test]
fn updates_saturate_at_the_ceiling() {
    let id = EntityId::from_name("counter-a");
    let r = apply(Some(counter(id, u64::MAX - 1)), &Event::Update(id, CounterPatch { add: 5 }));
    assert_eq!(r, Ok(counter(id, u64::MAX)));
}

#[test]
fn replay_equals_folding_one_event_at_a_time() {
    let id = EntityId::from_name("counter-a");
    let events = vec![
        Event::Create(counter(id, 1)),
        Event::Update(id, CounterPatch { add: 2 }),
        Event::Update(id, CounterPatch { add: 30 }),
    ];

    let replayed = replay(None, &events).unwrap();

    let mut step = None;
    for ev in &events {
        step = Some(apply(step, ev).unwrap());
    }
    assert_eq!(replayed, step);
    assert_eq!(replayed, Some(counter(id, 33)));
}

#[test]
fn replay_reports_the_first_folding_error() {
    let id = EntityId::from_name("counter-a");
    let events = vec![
        Event::Update(id, CounterPatch { add: 2 }),
        Event::Create(counter(id, 1)),
    ];
    assert_eq!(replay::<Counter>(None, &events), Err(FoldError::UnknownEntity));
}

#[test]
fn replay_of_nothing_is_the_start_state() {
    let events: Vec<Event<Counter>> = Vec::new();
    assert_eq!(replay::<Counter>(None, &events), Ok(None));
}

#[test]
fn register_command_creates_exactly_when_absent() {
    let id = EntityId::from_name("counter-a");
    let command = CounterCommand::Register { id, start: 5 };

    let events = Counter::handle_command(&None, &command).unwrap();
    assert_eq!(events.len(), 1);
    match &events[0] {
        Event::Create(c) => assert_eq!(*c, counter(id, 5)),
        Event::Update(..) => panic!("register must produce a creation event"),
    }

    let rejected = Counter::handle_command(&Some(counter(id, 5)), &command);
    assert!(matches!(rejected, Err(CommandError::CommandRejected)));
}

#[test]
fn add_command_updates_exactly_when_present() {
    let id = EntityId::from_name("counter-a");
    let command = CounterCommand::Add { amount: 3 };

    let rejected = Counter::handle_command(&None, &command);
    assert!(matches!(rejected, Err(CommandError::CommandRejected)));

    let events = Counter::handle_command(&Some(counter(id, 5)), &command).unwrap();
    assert_eq!(events.len(), 1);
    match &events[0] {
        Event::Update(target, patch) => {
            assert_eq!(*target, id);
            assert_eq!(*patch, CounterPatch { add: 3 });
        }
        Event::Create(_) => panic!("add must produce an update event"),
    }
}

#[test]
fn every_event_resolves_to_one_entity() {
    let id = EntityId::from_name("counter-a");
    assert_eq!(Event::Create(counter(id, 1)).entity_id(), id);
    assert_eq!(
        Event::<Counter>::Update(id, CounterPatch { add: 1 }).entity_id(),
        id
    );
}
