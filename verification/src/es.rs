//! The composition root: a store wired to an event bus.
//!
//! Every accepted commit is published on the bus, exactly once, right
//! after it is recorded, so the bus republishes events in commit order:
//! for each entity, the events a subscriber observes are that entity's
//! committed events, in sequence order, however commits to other entities
//! interleave with them.

use vstd::prelude::*;

use crate::bus::BusError;
use crate::bus::EventBus;
use crate::entity::CommandError;
use crate::entity::Entity;
use crate::entity::FoldError;
use crate::entity::fold_spec;
use crate::entity::replay;
use crate::event::Dup;
use crate::event::Event;
use crate::ids::EntityId;
use crate::store::Commit;
use crate::store::Store;
use crate::store::StoreError;
use crate::query::Query;
use crate::query::absorb_all;
use crate::store::contiguous;
use crate::store::current_of;
use crate::store::events_of;
use crate::store::events_of_commits;
use crate::store::stream_owned_by;

verus! {

/// Why a command submitted through the composition root was not turned
/// into commits.
#[derive(Clone, Copy, Debug, PartialEq, Eq, Structural)]
pub enum EsError {
    /// The entity rejected the command as invalid for its current state.
    Rejected(CommandError),
    /// The entity's recorded history does not fold: the stream is
    /// corrupted or was written by a broken writer. Fatal for this
    /// operation; no stream is touched.
    CorruptStream(FoldError),
}

/// Selects the events that belong to the named entity.
pub open spec fn for_entity<T: Entity>(id: u128) -> spec_fn(Event<T>) -> bool {
    |ev: Event<T>| ev.entity_id_spec() == id
}

/// An event-sourced system: the append-only store, and the bus that fans
/// every accepted event out to read-side subscribers.
pub struct ES<T: Entity> {
    store: Store<T>,
    bus: EventBus<T>,
}

impl<T: Entity> ES<T> {
    /// Every event published on the bus so far, in publish order.
    pub closed spec fn published(&self) -> Seq<Event<T>> {
        self.bus.published()
    }

    /// The entity's commits, in ascending sequence order.
    pub closed spec fn stream_of(&self, id: u128) -> Seq<Commit<T>> {
        self.store.stream_of(id)
    }

    /// How many subscribers have attached.
    pub closed spec fn sub_count(&self) -> int {
        self.bus.sub_count()
    }

    /// The bus's per-subscriber buffering bound.
    pub closed spec fn capacity_spec(&self) -> int {
        self.bus.capacity_spec()
    }

    /// How many events had been published when this subscriber attached.
    pub closed spec fn joined_at(&self, h: int) -> int {
        self.bus.joined_at(h)
    }

    /// The events this subscriber has already taken delivery of.
    pub closed spec fn delivered_to(&self, h: int) -> Seq<Event<T>> {
        self.bus.delivered_to(h)
    }

    /// The events still buffered for this subscriber.
    pub closed spec fn pending_for(&self, h: int) -> Seq<Event<T>> {
        self.bus.pending_for(h)
    }

    /// Whether this subscriber fell behind and was disconnected.
    pub closed spec fn is_overflowed(&self, h: int) -> bool {
        self.bus.is_overflowed(h)
    }

    /// The system invariant: store and bus are each well-formed, and for
    /// every entity the events published on the bus, restricted to that
    /// entity, are exactly the events of its committed stream, in commit
    /// order.
    pub closed spec fn wf(&self) -> bool {
        &&& self.store.wf()
        &&& self.bus.wf()
        &&& forall|id: u128|
            self.bus.published().filter(for_entity::<T>(id)) == events_of(
                #[trigger] self.store.stream_of(id),
            )
    }

    /// A fresh system: an empty store and a bus with no subscribers,
    /// buffering at most `capacity` undelivered events per subscriber.
    pub fn new(capacity: usize) -> (r: ES<T>)
        requires
            capacity >= 1,
        ensures
            r.wf(),
            r.published() == Seq::<Event<T>>::empty(),
            forall|id: u128| r.stream_of(id) == Seq::<Commit<T>>::empty(),
            r.sub_count() == 0,
            r.capacity_spec() == capacity,
    {
        let r = ES { store: Store::new(), bus: EventBus::new(capacity) };
        proof {
            assert forall|id: u128|
                r.bus.published().filter(for_entity::<T>(id)) == events_of(
                    #[trigger] r.store.stream_of(id),
                ) by {
                assert(r.bus.published().filter(for_entity::<T>(id))
                    =~= Seq::<Event<T>>::empty());
                assert(events_of(r.store.stream_of(id)) =~= Seq::<Event<T>>::empty());
            }
        }
        r
    }

    /// Proposes an event under the optimistic-concurrency gate and, if and
    /// only if it is accepted, publishes it on the bus. The commit and its
    /// publication are a single step: no observer sees one without the
    /// other. Subscribers' past deliveries and attachment points never
    /// change here; conflicts change nothing at all.
    pub fn propose_and_publish(
        &mut self,
        entity_id: EntityId,
        expected_sequence: Option<u64>,
        event: Event<T>,
        timestamp: u64,
    ) -> (r: Result<Commit<T>, StoreError>)
        requires
            old(self).wf(),
            event.entity_id_spec() == entity_id@,
        ensures
            final(self).wf(),
            final(self).sub_count() == old(self).sub_count(),
            final(self).capacity_spec() == old(self).capacity_spec(),
            forall|h: int|
                0 <= h < old(self).sub_count() ==> final(self).joined_at(h) == old(self).joined_at(
                    h,
                ) && final(self).delivered_to(h) == old(self).delivered_to(h),
            ({
                let before = old(self).stream_of(entity_id@);
                let after = final(self).stream_of(entity_id@);
                if expected_sequence == current_of(before) {
                    &&& r matches Ok(c)
                    &&& r matches Ok(c) ==> {
                        &&& c.entity_id@ == entity_id@
                        &&& c.sequence == before.len()
                        &&& c.event == event
                        &&& c.timestamp == timestamp
                        &&& after == before.push(c)
                        &&& final(self).published() == old(self).published().push(event)
                    }
                } else {
                    &&& r == Err::<Commit<T>, StoreError>(
                        StoreError::Conflict(current_of(before)),
                    )
                    &&& after == before
                    &&& final(self).published() == old(self).published()
                }
            }),
            forall|other: u128|
                other != entity_id@ ==> final(self).stream_of(other) == old(self).stream_of(other),
    {
        let for_bus = event.dup();
        match self.store.propose(entity_id, expected_sequence, event, timestamp) {
            Ok(c) => {
                let ghost pub0 = self.bus.published();
                self.bus.publish(for_bus);
                proof {
                    assert forall|id: u128|
                        self.bus.published().filter(for_entity::<T>(id)) == events_of(
                            #[trigger] self.store.stream_of(id),
                        ) by {
                        let p = for_entity::<T>(id);
                        lemma_filter_push(pub0, event, p);
                        if id == entity_id@ {
                            assert(self.store.stream_of(id) == old(self).store.stream_of(id).push(
                                c,
                            ));
                            assert(events_of(old(self).store.stream_of(id).push(c))
                                =~= events_of(old(self).store.stream_of(id)).push(event));
                        } else {
                            assert(self.store.stream_of(id) == old(self).store.stream_of(id));
                        }
                    }
                }
                Ok(c)
            },
            Err(e) => Err(e),
        }
    }

    /// The full write path for one command: reload the entity's history,
    /// fold it to current state, let the entity turn the command into
    /// candidate events, and commit and publish each of them in order.
    /// Rejections and folding failures leave the whole system untouched;
    /// an accepted command appends exactly the produced events, in order,
    /// to the published stream.
    pub fn execute(&mut self, entity_id: EntityId, command: &T::Command, timestamp: u64) -> (r:
        Result<Vec<Commit<T>>, EsError>)
        requires
            old(self).wf(),
        ensures
            final(self).wf(),
            final(self).sub_count() == old(self).sub_count(),
            final(self).capacity_spec() == old(self).capacity_spec(),
            forall|h: int|
                0 <= h < old(self).sub_count() ==> final(self).joined_at(h) == old(self).joined_at(
                    h,
                ) && final(self).delivered_to(h) == old(self).delivered_to(h),
            ({
                let history = events_of(old(self).stream_of(entity_id@));
                match fold_spec(None::<T>, history) {
                    Err(e) => {
                        &&& r == Err::<Vec<Commit<T>>, EsError>(EsError::CorruptStream(e))
                        &&& final(self).published() == old(self).published()
                        &&& forall|id: u128| final(self).stream_of(id) == old(self).stream_of(id)
                    },
                    Ok(state) => match T::handle_spec(state, *command) {
                        Err(e) => {
                            &&& r == Err::<Vec<Commit<T>>, EsError>(EsError::Rejected(e))
                            &&& final(self).published() == old(self).published()
                            &&& forall|id: u128|
                                final(self).stream_of(id) == old(self).stream_of(id)
                        },
                        Ok(events) => {
                            &&& r matches Ok(commits)
                            &&& r matches Ok(commits) ==> events_of(commits@) == events
                            &&& final(self).published() == old(self).published() + events
                        },
                    },
                }
            }),
    {
        let loaded = self.store.load(entity_id);
        let past = events_of_commits(&loaded);
        let state = match replay(None, &past) {
            Ok(s) => s,
            Err(e) => {
                return Err(EsError::CorruptStream(e));
            },
        };
        let events = match T::handle_command(&state, command) {
            Ok(v) => v,
            Err(e) => {
                return Err(EsError::Rejected(e));
            },
        };
        let ghost evs = events@;
        let ghost pub0 = self.published();
        let mut commits: Vec<Commit<T>> = Vec::new();
        let mut i: usize = 0;
        proof {
            assert(pub0 + evs.take(0) =~= pub0);
        }
        while i < events.len()
            invariant
                i <= events@.len(),
                events@ == evs,
                self.wf(),
                self.sub_count() == old(self).sub_count(),
                self.capacity_spec() == old(self).capacity_spec(),
                forall|h: int|
                    0 <= h < old(self).sub_count() ==> self.joined_at(h) == old(self).joined_at(h)
                        && self.delivered_to(h) == old(self).delivered_to(h),
                events_of(commits@) =~= evs.take(i as int),
                self.published() == pub0 + evs.take(i as int),
            decreases events@.len() - i,
        {
            let ev = events[i].dup();
            let target = ev.entity_id();
            let expected = self.store.current_sequence(target);
            match self.propose_and_publish(target, expected, ev, timestamp) {
                Ok(c) => {
                    commits.push(c);
                    proof {
                        assert(events_of(commits@) =~= evs.take(i as int + 1));
                        assert(pub0 + evs.take(i as int + 1) =~= (pub0 + evs.take(i as int)).push(
                            evs[i as int],
                        ));
                    }
                },
                Err(_) => {
                    // The expected sequence was read from the stream itself,
                    // so the proposal cannot conflict: this arm is provably
                    // unreachable.
                    proof {
                        assert(false);
                    }
                    return Err(EsError::Rejected(CommandError::CommandRejected));
                },
            }
            i = i + 1;
        }
        proof {
            assert(evs.take(evs.len() as int) =~= evs);
        }
        Ok(commits)
    }

    /// Attaches a new subscriber; it will be handed every event published
    /// after this moment, in publish order, and none from before.
    pub fn subscribe(&mut self) -> (h: usize)
        requires
            old(self).wf(),
        ensures
            final(self).wf(),
            h == old(self).sub_count(),
            final(self).sub_count() == old(self).sub_count() + 1,
            final(self).published() == old(self).published(),
            final(self).capacity_spec() == old(self).capacity_spec(),
            forall|id: u128| final(self).stream_of(id) == old(self).stream_of(id),
            final(self).joined_at(h as int) == old(self).published().len(),
            final(self).delivered_to(h as int) == Seq::<Event<T>>::empty(),
            final(self).pending_for(h as int) == Seq::<Event<T>>::empty(),
            !final(self).is_overflowed(h as int),
    {
        self.bus.subscribe()
    }

    /// Takes delivery of the next event for the named subscriber: the
    /// oldest undelivered event, none if it is caught up, or the overflow
    /// report if it fell behind.
    pub fn poll(&mut self, h: usize) -> (r: Result<Option<Event<T>>, BusError>)
        requires
            old(self).wf(),
            h < old(self).sub_count(),
        ensures
            final(self).wf(),
            final(self).published() == old(self).published(),
            final(self).sub_count() == old(self).sub_count(),
            final(self).capacity_spec() == old(self).capacity_spec(),
            forall|id: u128| final(self).stream_of(id) == old(self).stream_of(id),
            final(self).joined_at(h as int) == old(self).joined_at(h as int),
            final(self).is_overflowed(h as int) == old(self).is_overflowed(h as int),
            old(self).is_overflowed(h as int) ==> r == Err::<Option<Event<T>>, BusError>(
                BusError::SubscriberOverflow,
            ) && final(self).delivered_to(h as int) == old(self).delivered_to(h as int) && final(self).pending_for(h as int) == old(self).pending_for(h as int),
            !old(self).is_overflowed(h as int) && old(self).pending_for(h as int).len() == 0 ==> r
                == Ok::<Option<Event<T>>, BusError>(None) && final(self).delivered_to(h as int)
                == old(self).delivered_to(h as int) && final(self).pending_for(h as int) == old(self).pending_for(h as int),
            !old(self).is_overflowed(h as int) && old(self).pending_for(h as int).len() > 0 ==> r
                == Ok::<Option<Event<T>>, BusError>(Some(old(self).pending_for(h as int)[0]))
                && final(self).delivered_to(h as int) == old(self).delivered_to(h as int).push(
                old(self).pending_for(h as int)[0],
            ) && final(self).pending_for(h as int) == old(self).pending_for(h as int).skip(1),
    {
        self.bus.poll(h)
    }

    /// Pumps everything waiting for the named subscriber into a
    /// read-side projection, in delivery order, and reports how many
    /// events were delivered; an overflowed subscriber gets the overflow
    /// report instead, with the projection untouched.
    pub fn drain_into<Q: Query<T>>(&mut self, h: usize, q: &mut Q) -> (r: Result<usize, BusError>)
        requires
            old(self).wf(),
            h < old(self).sub_count(),
        ensures
            final(self).wf(),
            final(self).published() == old(self).published(),
            final(self).sub_count() == old(self).sub_count(),
            final(self).capacity_spec() == old(self).capacity_spec(),
            forall|id: u128| final(self).stream_of(id) == old(self).stream_of(id),
            final(self).joined_at(h as int) == old(self).joined_at(h as int),
            final(self).is_overflowed(h as int) == old(self).is_overflowed(h as int),
            old(self).is_overflowed(h as int) ==> r == Err::<usize, BusError>(
                BusError::SubscriberOverflow,
            ) && *final(q) == *old(q) && final(self).delivered_to(h as int) == old(
                self,
            ).delivered_to(h as int) && final(self).pending_for(h as int) == old(self).pending_for(
                h as int,
            ),
            !old(self).is_overflowed(h as int) ==> {
                &&& r == Ok::<usize, BusError>(old(self).pending_for(h as int).len() as usize)
                &&& *final(q) == absorb_all(*old(q), old(self).pending_for(h as int))
                &&& final(self).delivered_to(h as int) == old(self).delivered_to(h as int) + old(
                    self,
                ).pending_for(h as int)
                &&& final(self).pending_for(h as int) == Seq::<Event<T>>::empty()
            },
    {
        self.bus.drain_into(h, q)
    }

    /// All commits for the entity, in ascending sequence order; empty if
    /// the entity has none. History is read here, never through the bus.
    pub fn load(&self, entity_id: EntityId) -> (r: Vec<Commit<T>>)
        requires
            self.wf(),
        ensures
            r@ == self.stream_of(entity_id@),
    {
        self.store.load(entity_id)
    }

    /// The entity's last committed sequence number, or none.
    pub fn current_sequence(&self, entity_id: EntityId) -> (r: Option<u64>)
        requires
            self.wf(),
        ensures
            r == current_of(self.stream_of(entity_id@)),
    {
        self.store.current_sequence(entity_id)
    }

    /// Every entity's committed stream is contiguous from 0 with no gaps,
    /// owned by that entity, and free of duplicate sequence numbers.
    pub proof fn lemma_stream_invariant(&self, id: u128)
        requires
            self.wf(),
        ensures
            contiguous(self.stream_of(id)),
            stream_owned_by(self.stream_of(id), id),
            forall|i: int, k: int|
                0 <= i < k < self.stream_of(id).len() ==> (#[trigger] self.stream_of(
                    id,
                )[i]).sequence != (#[trigger] self.stream_of(id)[k]).sequence,
    {
        self.store.lemma_stream_invariant(id);
    }

    /// For any one entity, a live subscriber's delivery order matches that
    /// entity's commit order, whatever commits to other entities
    /// interleave: what the subscriber has seen and has waiting, restricted
    /// to the entity, is exactly the entity's committed event sequence less
    /// the commits from before the subscriber attached.
    pub proof fn lemma_subscriber_sees_commit_order(&self, h: int, id: u128)
        requires
            self.wf(),
            0 <= h < self.sub_count(),
            !self.is_overflowed(h),
        ensures
            ({
                let seen = (self.delivered_to(h) + self.pending_for(h)).filter(
                    for_entity::<T>(id),
                );
                let all = events_of(self.stream_of(id));
                let missed = self.published().take(self.joined_at(h)).filter(
                    for_entity::<T>(id),
                ).len();
                &&& missed <= all.len()
                &&& seen == all.skip(missed as int)
            }),
    {
        self.bus.lemma_delivery_order(h);
        let p = for_entity::<T>(id);
        let publ = self.published();
        let j = self.joined_at(h);
        assert(publ.take(j) + publ.skip(j) =~= publ);
        Seq::filter_distributes_over_add(publ.take(j), publ.skip(j), p);
        let all = events_of(self.stream_of(id));
        assert(all == publ.filter(p));
        assert(all =~= publ.take(j).filter(p) + publ.skip(j).filter(p));
        let missed = publ.take(j).filter(p).len();
        assert(all.skip(missed as int) =~= publ.skip(j).filter(p));
        assert((self.delivered_to(h) + self.pending_for(h)).filter(p) == publ.skip(j).filter(p));
    }
}

/// Filtering commutes with appending one element: the element stays at
/// the end when it satisfies the predicate and vanishes when it does not.
proof fn lemma_filter_push<A>(s: Seq<A>, e: A, p: spec_fn(A) -> bool)
    ensures
        s.push(e).filter(p) == if p(e) {
            s.filter(p).push(e)
        } else {
            s.filter(p)
        },
{
    reveal(Seq::filter);
    assert(s.push(e).drop_last() =~= s);
    assert(s.push(e).last() == e);
    assert(s.push(e).len() == s.len() + 1);
}

} // verus!
