use cqrs_core::Counter;
use cqrs_core::CounterPatch;
use cqrs_core::EntityId;
use cqrs_core::Event;
use cqrs_core::Store;
use cqrs_core::StoreError;

fn counter(id: EntityId, value: u64) -> Counter {
    Counter { id, value }
}

#[test]
fn optimistic_concurrency_scenario() {
    let mut store: Store<Counter> = Store::new();
    let a = EntityId::from_name("entity-a");

    let c0 = store.propose(a, None, Event::Create(counter(a, 0)), 100).unwrap();
    assert_eq!(c0.sequence, 0);
    assert_eq!(c0.entity_id, a);
    assert_eq!(c0.timestamp, 100);

    let c1 = store
        .propose(a, Some(0), Event::Update(a, CounterPatch { add: 1 }), 101)
        .unwrap();
    assert_eq!(c1.sequence, 1);

    // Two writers race at expected sequence 1: exactly one wins.
    let first = store.propose(a, Some(1), Event::Update(a, CounterPatch { add: 2 }), 102);
    let second = store.propose(a, Some(1), Event::Update(a, CounterPatch { add: 3 }), 103);
    assert_eq!(first.unwrap().sequence, 2);
    assert_eq!(second.err().unwrap(), StoreError::Conflict(Some(2)));
}

#[test]
fn stale_writer_must_not_mutate_the_stream() {
    let mut store: Store<Counter> = Store::new();
    let a = EntityId::from_name("entity-a");
    store.propose(a, None, Event::Create(counter(a, 0)), 1).unwrap();

    let stale = store.propose(a, Some(5), Event::Update(a, CounterPatch { add: 1 }), 2);
    assert_eq!(stale.err().unwrap(), StoreError::Conflict(Some(0)));
    assert_eq!(store.load(a).len(), 1);
    assert_eq!(store.current_sequence(a), Some(0));
}

#[test]
fn proposing_against_an_absent_stream_with_an_expectation_conflicts() {
    let mut store: Store<Counter> = Store::new();
    let a = EntityId::from_name("entity-a");
    let r = store.propose(a, Some(0), Event::Create(counter(a, 0)), 1);
    assert_eq!(r.err().unwrap(), StoreError::Conflict(None));
    assert_eq!(store.current_sequence(a), None);
}

#[test]
fn load_of_an_unknown_entity_is_empty_not_an_error() {
    let store: Store<Counter> = Store::new();
    let unknown = EntityId::from_name("never-written");
    assert!(store.load(unknown).is_empty());
}

#[test]
fn sequences_are_contiguous_from_zero() {
    let mut store: Store<Counter> = Store::new();
    let a = EntityId::from_name("entity-a");
    store.propose(a, None, Event::Create(counter(a, 0)), 1).unwrap();
    for i in 0..5u64 {
        store
            .propose(a, Some(i), Event::Update(a, CounterPatch { add: 1 }), 2 + i)
            .unwrap();
    }

    let commits = store.load(a);
    assert_eq!(commits.len(), 6);
    for (i, c) in commits.iter().enumerate() {
        assert_eq!(c.sequence, i as u64);
        assert_eq!(c.entity_id, a);
    }
    assert_eq!(store.current_sequence(a), Some(5));
}

#[test]
fn streams_of_different_entities_are_independent() {
    let mut store: Store<Counter> = Store::new();
    let a = EntityId::from_name("entity-a");
    let b = EntityId::from_name("entity-b");

    store.propose(a, None, Event::Create(counter(a, 0)), 1).unwrap();
    store.propose(b, None, Event::Create(counter(b, 9)), 2).unwrap();
    store.propose(a, Some(0), Event::Update(a, CounterPatch { add: 1 }), 3).unwrap();

    assert_eq!(store.load(a).len(), 2);
    assert_eq!(store.load(b).len(), 1);
    assert_eq!(store.current_sequence(a), Some(1));
    assert_eq!(store.current_sequence(b), Some(0));
}
