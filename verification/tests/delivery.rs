use cqrs_core::BusError;
use cqrs_core::CommandError;
use cqrs_core::Counter;
use cqrs_core::CounterCommand;
use cqrs_core::CounterPatch;
use cqrs_core::CounterTally;
use cqrs_core::ES;
use cqrs_core::EntityId;
use cqrs_core::EsError;
use cqrs_core::Event;
use cqrs_core::EventBus;
use cqrs_core::FoldError;

fn counter(id: EntityId, value: u64) -> Counter {
    Counter { id, value }
}

fn added_amount(ev: &Event<Counter>, expect_id: EntityId) -> u64 {
    match ev {
        Event::Update(id, CounterPatch { add }) => {
            assert_eq!(*id, expect_id);
            *add
        }
        Event::Create(_) => panic!("expected an update event"),
    }
}

#[test]
fn bus_delivers_in_publish_order() {
    let mut bus: EventBus<Counter> = EventBus::new(16);
    let a = EntityId::from_name("entity-a");
    let h = bus.subscribe();

    for add in 1..=3u64 {
        bus.publish(Event::Update(a, CounterPatch { add }));
    }
    for add in 1..=3u64 {
        let ev = bus.poll(h).unwrap().unwrap();
        assert_eq!(added_amount(&ev, a), add);
    }
    assert!(bus.poll(h).unwrap().is_none());
}

#[test]
fn late_subscriber_gets_no_history() {
    let mut bus: EventBus<Counter> = EventBus::new(16);
    let a = EntityId::from_name("entity-a");
    for add in 1..=3u64 {
        bus.publish(Event::Update(a, CounterPatch { add }));
    }

    let h = bus.subscribe();
    bus.publish(Event::Update(a, CounterPatch { add: 4 }));

    let ev = bus.poll(h).unwrap().unwrap();
    assert_eq!(added_amount(&ev, a), 4);
    assert!(bus.poll(h).unwrap().is_none());
}

#[test]
fn a_slow_subscriber_overflows_observably() {
    let mut bus: EventBus<Counter> = EventBus::new(1);
    let a = EntityId::from_name("entity-a");
    let slow = bus.subscribe();
    let live = bus.subscribe();

    bus.publish(Event::Update(a, CounterPatch { add: 1 }));
    let ev = bus.poll(live).unwrap().unwrap();
    assert_eq!(added_amount(&ev, a), 1);

    // The slow subscriber's buffer still holds the first event; the second
    // publication overflows it, observably.
    bus.publish(Event::Update(a, CounterPatch { add: 2 }));
    assert_eq!(bus.poll(slow).err().unwrap(), BusError::SubscriberOverflow);

    // The publisher and the subscriber that kept up are unaffected; the
    // slow handle keeps reporting the overflow.
    let ev = bus.poll(live).unwrap().unwrap();
    assert_eq!(added_amount(&ev, a), 2);
    bus.publish(Event::Update(a, CounterPatch { add: 3 }));
    assert_eq!(bus.poll(slow).err().unwrap(), BusError::SubscriberOverflow);
    let ev = bus.poll(live).unwrap().unwrap();
    assert_eq!(added_amount(&ev, a), 3);
}

#[test]
fn subscriber_sees_one_entity_in_commit_order() {
    let mut es: ES<Counter> = ES::new(32);
    let a = EntityId::from_name("entity-a");
    let b = EntityId::from_name("entity-b");
    let h = es.subscribe();

    es.execute(a, &CounterCommand::Register { id: a, start: 0 }, 1).unwrap();
    es.execute(b, &CounterCommand::Register { id: b, start: 0 }, 2).unwrap();
    es.execute(a, &CounterCommand::Add { amount: 10 }, 3).unwrap();
    es.execute(b, &CounterCommand::Add { amount: 99 }, 4).unwrap();
    es.execute(a, &CounterCommand::Add { amount: 20 }, 5).unwrap();

    // Restricted to entity A, delivery order is A's commit order, however
    // B's commits interleave.
    let mut seen_for_a = Vec::new();
    while let Some(ev) = es.poll(h).unwrap() {
        if ev.entity_id() == a {
            seen_for_a.push(ev);
        }
    }
    assert_eq!(seen_for_a.len(), 3);
    assert!(matches!(&seen_for_a[0], Event::Create(c) if *c == counter(a, 0)));
    assert_eq!(added_amount(&seen_for_a[1], a), 10);
    assert_eq!(added_amount(&seen_for_a[2], a), 20);

    // And A's commit order is exactly what the store replays.
    let commits = es.load(a);
    assert_eq!(commits.len(), 3);
    for (i, c) in commits.iter().enumerate() {
        assert_eq!(c.sequence, i as u64);
    }
}

#[test]
fn subscriber_attaching_after_three_commits_sees_only_later_ones() {
    let mut es: ES<Counter> = ES::new(32);
    let a = EntityId::from_name("entity-a");

    es.execute(a, &CounterCommand::Register { id: a, start: 0 }, 1).unwrap();
    es.execute(a, &CounterCommand::Add { amount: 1 }, 2).unwrap();
    es.execute(a, &CounterCommand::Add { amount: 2 }, 3).unwrap();

    let h = es.subscribe();
    es.execute(a, &CounterCommand::Add { amount: 3 }, 4).unwrap();

    let ev = es.poll(h).unwrap().unwrap();
    assert_eq!(added_amount(&ev, a), 3);
    assert!(es.poll(h).unwrap().is_none());

    // History stays available, through the store only.
    assert_eq!(es.load(a).len(), 4);
}

#[test]
fn execute_runs_the_full_write_path() {
    let mut es: ES<Counter> = ES::new(8);
    let a = EntityId::from_name("entity-a");

    let commits = es.execute(a, &CounterCommand::Register { id: a, start: 5 }, 1).unwrap();
    assert_eq!(commits.len(), 1);
    assert_eq!(commits[0].sequence, 0);

    let commits = es.execute(a, &CounterCommand::Add { amount: 7 }, 2).unwrap();
    assert_eq!(commits.len(), 1);
    assert_eq!(commits[0].sequence, 1);

    let history = es.load(a);
    let events = cqrs_core::events_of_commits(&history);
    let state = cqrs_core::replay(None, &events).unwrap();
    assert_eq!(state, Some(counter(a, 12)));
}

#[test]
fn execute_rejects_invalid_commands_untouched() {
    let mut es: ES<Counter> = ES::new(8);
    let a = EntityId::from_name("entity-a");

    let r = es.execute(a, &CounterCommand::Add { amount: 7 }, 1);
    assert_eq!(r.err().unwrap(), EsError::Rejected(CommandError::CommandRejected));
    assert!(es.load(a).is_empty());

    es.execute(a, &CounterCommand::Register { id: a, start: 0 }, 2).unwrap();
    let r = es.execute(a, &CounterCommand::Register { id: a, start: 0 }, 3);
    assert_eq!(r.err().unwrap(), EsError::Rejected(CommandError::CommandRejected));
    assert_eq!(es.load(a).len(), 1);
}

#[test]
fn execute_reports_a_stream_that_does_not_fold() {
    let mut es: ES<Counter> = ES::new(8);
    let a = EntityId::from_name("entity-a");

    // A broken writer records an update as the first commit of a stream.
    es.propose_and_publish(a, None, Event::Update(a, CounterPatch { add: 1 }), 1)
        .unwrap();

    let r = es.execute(a, &CounterCommand::Add { amount: 1 }, 2);
    assert_eq!(r.err().unwrap(), EsError::CorruptStream(FoldError::UnknownEntity));
}

#[test]
fn conflicting_proposal_publishes_nothing() {
    let mut es: ES<Counter> = ES::new(8);
    let a = EntityId::from_name("entity-a");
    let h = es.subscribe();

    es.propose_and_publish(a, None, Event::Create(counter(a, 0)), 1).unwrap();
    let stale = es.propose_and_publish(a, None, Event::Create(counter(a, 0)), 2);
    assert!(stale.is_err());

    assert!(es.poll(h).unwrap().unwrap().entity_id() == a);
    assert!(es.poll(h).unwrap().is_none());
}

#[test]
fn a_projection_folds_deliveries_in_order() {
    let mut es: ES<Counter> = ES::new(32);
    let a = EntityId::from_name("entity-a");
    let b = EntityId::from_name("entity-b");
    let h = es.subscribe();

    es.execute(a, &CounterCommand::Register { id: a, start: 0 }, 1).unwrap();
    es.execute(b, &CounterCommand::Register { id: b, start: 0 }, 2).unwrap();
    es.execute(a, &CounterCommand::Add { amount: 10 }, 3).unwrap();
    es.execute(b, &CounterCommand::Add { amount: 5 }, 4).unwrap();

    let mut tally = CounterTally { creations: 0, additions: 0 };
    let delivered = es.drain_into(h, &mut tally).unwrap();
    assert_eq!(delivered, 4);
    assert_eq!(tally, CounterTally { creations: 2, additions: 15 });

    // Nothing is replayed: a second drain delivers nothing new.
    let delivered = es.drain_into(h, &mut tally).unwrap();
    assert_eq!(delivered, 0);
    assert_eq!(tally, CounterTally { creations: 2, additions: 15 });
}
