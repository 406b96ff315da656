//! The broadcast channel that republishes every committed event to
//! zero or more subscribers, preserving publish order.
//!
//! Delivery is buffered per subscriber, with a fixed bound. A subscriber
//! that falls behind the bound overflows: it stops receiving events and
//! the overflow is reported to it — never silently — while commits and the
//! other subscribers are unaffected. A subscriber receives only events
//! published after it subscribed; history is read through the store, not
//! the bus.

use vstd::prelude::*;

use crate::event::Aggregate;
use crate::event::Dup;
use crate::event::Event;
use crate::query::Query;
use crate::query::absorb_all;
use crate::query::lemma_absorb_all_step;

verus! {

/// A subscriber fell behind the bus's buffering capacity. Reported to
/// that subscriber only; it does not affect commit success or other
/// subscribers.
#[derive(Clone, Copy, Debug, PartialEq, Eq, Structural)]
pub enum BusError {
    SubscriberOverflow,
}

struct Subscriber<T: Aggregate> {
    queue: Vec<Event<T>>,
    overflowed: bool,
    joined: Ghost<int>,
    delivered: Ghost<Seq<Event<T>>>,
}

/// A broadcast channel from the committing side to read-side subscribers.
pub struct EventBus<T: Aggregate> {
    subscribers: Vec<Subscriber<T>>,
    capacity: usize,
    published: Ghost<Seq<Event<T>>>,
}

impl<T: Aggregate> EventBus<T> {
    /// Every event ever published on this bus, in publish order.
    pub closed spec fn published(&self) -> Seq<Event<T>> {
        self.published@
    }

    /// How many subscribers have attached (handles are never reused).
    pub closed spec fn sub_count(&self) -> int {
        self.subscribers@.len() as int
    }

    /// Per-subscriber buffering bound.
    pub closed spec fn capacity_spec(&self) -> int {
        self.capacity as int
    }

    /// How many events had already been published when this subscriber
    /// attached: it receives none of them.
    pub closed spec fn joined_at(&self, h: int) -> int {
        self.subscribers@[h].joined@
    }

    /// The events this subscriber has already taken delivery of, in
    /// delivery order.
    pub closed spec fn delivered_to(&self, h: int) -> Seq<Event<T>> {
        self.subscribers@[h].delivered@
    }

    /// The events buffered for this subscriber, oldest first.
    pub closed spec fn pending_for(&self, h: int) -> Seq<Event<T>> {
        self.subscribers@[h].queue@
    }

    /// Whether this subscriber fell behind the buffering bound and was
    /// disconnected from further delivery.
    pub closed spec fn is_overflowed(&self, h: int) -> bool {
        self.subscribers@[h].overflowed
    }

    /// The bus invariant: a live subscriber's deliveries followed by its
    /// buffer are exactly the events published since it attached.
    pub closed spec fn wf(&self) -> bool {
        &&& self.capacity >= 1
        &&& forall|h: int|
            0 <= h < self.subscribers@.len() ==> {
                let s = #[trigger] self.subscribers@[h];
                &&& 0 <= s.joined@ <= self.published@.len()
                &&& s.queue@.len() <= self.capacity
                &&& (!s.overflowed ==> s.delivered@ + s.queue@ == self.published@.skip(s.joined@))
            }
    }

    /// A bus with no subscribers and nothing published, buffering at most
    /// `capacity` undelivered events per subscriber.
    pub fn new(capacity: usize) -> (r: EventBus<T>)
        requires
            capacity >= 1,
        ensures
            r.wf(),
            r.published() == Seq::<Event<T>>::empty(),
            r.sub_count() == 0,
            r.capacity_spec() == capacity,
    {
        EventBus { subscribers: Vec::new(), capacity, published: Ghost(Seq::empty()) }
    }

    /// Attaches a new subscriber and returns its handle. The subscriber
    /// will receive every event published from this moment on, in publish
    /// order, and none of the events published before.
    pub fn subscribe(&mut self) -> (h: usize)
        requires
            old(self).wf(),
        ensures
            final(self).wf(),
            h == old(self).sub_count(),
            final(self).sub_count() == old(self).sub_count() + 1,
            final(self).published() == old(self).published(),
            final(self).capacity_spec() == old(self).capacity_spec(),
            final(self).joined_at(h as int) == old(self).published().len(),
            final(self).delivered_to(h as int) == Seq::<Event<T>>::empty(),
            final(self).pending_for(h as int) == Seq::<Event<T>>::empty(),
            !final(self).is_overflowed(h as int),
            forall|g: int|
                0 <= g < old(self).sub_count() ==> final(self).joined_at(g) == old(self).joined_at(
                    g,
                ) && final(self).delivered_to(g) == old(self).delivered_to(g) && final(self).pending_for(g) == old(self).pending_for(g) && final(self).is_overflowed(g) == old(self).is_overflowed(g),
    {
        let h = self.subscribers.len();
        let ghost joined = self.published@.len() as int;
        self.subscribers.push(
            Subscriber {
                queue: Vec::new(),
                overflowed: false,
                joined: Ghost(joined),
                delivered: Ghost(Seq::empty()),
            },
        );
        proof {
            assert(self.subscribers@[h as int].delivered@ + self.subscribers@[h as int].queue@
                =~= self.published@.skip(joined));
        }
        h
    }

    /// Publishes one event to every live subscriber, in publish order: a
    /// subscriber with buffer room gets the event appended to its buffer;
    /// one whose buffer is full overflows and is disconnected from further
    /// delivery; one already overflowed stays untouched. Publishing never
    /// blocks and never fails, whatever the subscribers' state.
    pub fn publish(&mut self, event: Event<T>)
        requires
            old(self).wf(),
        ensures
            final(self).wf(),
            final(self).published() == old(self).published().push(event),
            final(self).sub_count() == old(self).sub_count(),
            final(self).capacity_spec() == old(self).capacity_spec(),
            forall|h: int|
                0 <= h < old(self).sub_count() ==> {
                    &&& final(self).joined_at(h) == old(self).joined_at(h)
                    &&& final(self).delivered_to(h) == old(self).delivered_to(h)
                    &&& (old(self).is_overflowed(h) ==> final(self).is_overflowed(h) && final(self).pending_for(h) == old(self).pending_for(h))
                    &&& (!old(self).is_overflowed(h) && old(self).pending_for(h).len() < old(self).capacity_spec() ==> !final(self).is_overflowed(h) && final(self).pending_for(
                        h,
                    ) == old(self).pending_for(h).push(event))
                    &&& (!old(self).is_overflowed(h) && old(self).pending_for(h).len() == old(self).capacity_spec() ==> final(self).is_overflowed(h) && final(self).pending_for(
                        h,
                    ) == old(self).pending_for(h))
                },
    {
        let ghost pre = *self;
        let ghost pubnew = self.published@.push(event);
        let mut k: usize = 0;
        let n = self.subscribers.len();
        while k < n
            invariant
                k <= n,
                n == self.subscribers@.len(),
                n == pre.subscribers@.len(),
                self.capacity == pre.capacity,
                self.capacity >= 1,
                self.published@ == pre.published@,
                pubnew == pre.published@.push(event),
                forall|h: int| k <= h < n ==> self.subscribers@[h] == pre.subscribers@[h],
                pre.wf(),
                forall|h: int|
                    0 <= h < k ==> {
                        let s0 = pre.subscribers@[h];
                        let s1 = #[trigger] self.subscribers@[h];
                        &&& s1.joined@ == s0.joined@
                        &&& 0 <= s1.joined@ <= pubnew.len()
                        &&& s1.delivered@ == s0.delivered@
                        &&& s1.queue@.len() <= self.capacity
                        &&& (s0.overflowed ==> s1.overflowed && s1.queue@ == s0.queue@)
                        &&& (!s0.overflowed && s0.queue@.len() < self.capacity ==> !s1.overflowed
                            && s1.queue@ == s0.queue@.push(event))
                        &&& (!s0.overflowed && s0.queue@.len() == self.capacity ==> s1.overflowed
                            && s1.queue@ == s0.queue@)
                        &&& (!s1.overflowed ==> s1.delivered@ + s1.queue@ == pubnew.skip(
                            s1.joined@,
                        ))
                    },
            decreases n - k,
        {
            proof {
                assert(pre.subscribers@[k as int] == self.subscribers@[k as int]);
            }
            let ghost s0 = self.subscribers@[k as int];
            if !self.subscribers[k].overflowed {
                if self.subscribers[k].queue.len() < self.capacity {
                    self.subscribers[k].queue.push(event.dup());
                    proof {
                        let s1 = self.subscribers@[k as int];
                        assert(s1.delivered@ + s1.queue@ =~= pubnew.skip(s1.joined@)) by {
                            assert(s0.delivered@ + s0.queue@ == pre.published@.skip(s0.joined@));
                            assert(pubnew.skip(s0.joined@) =~= pre.published@.skip(
                                s0.joined@,
                            ).push(event));
                        }
                    }
                } else {
                    self.subscribers[k].overflowed = true;
                }
            }
            k = k + 1;
        }
        self.published = Ghost(pubnew);
    }

    /// Takes delivery of the oldest buffered event for the named
    /// subscriber: the next event, none if it is fully caught up, or the
    /// overflow report if it fell behind the buffering bound.
    pub fn poll(&mut self, h: usize) -> (r: Result<Option<Event<T>>, BusError>)
        requires
            old(self).wf(),
            h < old(self).sub_count(),
        ensures
            final(self).wf(),
            final(self).published() == old(self).published(),
            final(self).sub_count() == old(self).sub_count(),
            final(self).capacity_spec() == old(self).capacity_spec(),
            final(self).joined_at(h as int) == old(self).joined_at(h as int),
            final(self).is_overflowed(h as int) == old(self).is_overflowed(h as int),
            old(self).is_overflowed(h as int) ==> r == Err::<Option<Event<T>>, BusError>(
                BusError::SubscriberOverflow,
            ) && final(self).delivered_to(h as int) == old(self).delivered_to(h as int) && final(self).pending_for(h as int) == old(self).pending_for(h as int),
            !old(self).is_overflowed(h as int) && old(self).pending_for(h as int).len() == 0 ==> r
                == Ok::<Option<Event<T>>, BusError>(None) && final(self).delivered_to(h as int)
                == old(self).delivered_to(h as int) && final(self).pending_for(h as int) == old(self).pending_for(h as int),
            !old(self).is_overflowed(h as int) && old(self).pending_for(h as int).len() > 0 ==> r
                == Ok::<Option<Event<T>>, BusError>(Some(old(self).pending_for(h as int)[0]))
                && final(self).delivered_to(h as int) == old(self).delivered_to(h as int).push(
                old(self).pending_for(h as int)[0],
            ) && final(self).pending_for(h as int) == old(self).pending_for(h as int).skip(1),
            forall|g: int|
                0 <= g < old(self).sub_count() && g != h ==> final(self).joined_at(g) == old(self).joined_at(g) && final(self).delivered_to(g) == old(self).delivered_to(g) && final(self).pending_for(g) == old(self).pending_for(g) && final(self).is_overflowed(g) == old(self).is_overflowed(g),
    {
        if self.subscribers[h].overflowed {
            return Err(BusError::SubscriberOverflow);
        }
        if self.subscribers[h].queue.len() == 0 {
            return Ok(None);
        }
        let ghost s0 = self.subscribers@[h as int];
        let event = self.subscribers[h].queue.remove(0);
        let ghost d = self.subscribers@[h as int].delivered@.push(event);
        self.subscribers[h].delivered = Ghost(d);
        proof {
            let s1 = self.subscribers@[h as int];
            assert(s1.queue@ =~= s0.queue@.skip(1));
            assert(s1.delivered@ + s1.queue@ =~= s0.delivered@ + s0.queue@);
        }
        Ok(Some(event))
    }

    /// Pumps every event waiting for the named subscriber into a
    /// read-side projection, in delivery order, and reports how many were
    /// delivered. An overflowed subscriber gets the overflow report
    /// instead, with the projection untouched.
    pub fn drain_into<Q: Query<T>>(&mut self, h: usize, q: &mut Q) -> (r: Result<usize, BusError>)
        requires
            old(self).wf(),
            h < old(self).sub_count(),
        ensures
            final(self).wf(),
            final(self).published() == old(self).published(),
            final(self).sub_count() == old(self).sub_count(),
            final(self).capacity_spec() == old(self).capacity_spec(),
            final(self).joined_at(h as int) == old(self).joined_at(h as int),
            final(self).is_overflowed(h as int) == old(self).is_overflowed(h as int),
            forall|g: int|
                0 <= g < old(self).sub_count() && g != h ==> final(self).joined_at(g) == old(self).joined_at(g) && final(self).delivered_to(g) == old(self).delivered_to(g)
                    && final(self).pending_for(g) == old(self).pending_for(g) && final(self).is_overflowed(g) == old(self).is_overflowed(g),
            old(self).is_overflowed(h as int) ==> r == Err::<usize, BusError>(
                BusError::SubscriberOverflow,
            ) && *final(q) == *old(q) && final(self).delivered_to(h as int) == old(self).delivered_to(h as int) && final(self).pending_for(h as int) == old(self).pending_for(
                h as int,
            ),
            !old(self).is_overflowed(h as int) ==> {
                &&& r == Ok::<usize, BusError>(old(self).pending_for(h as int).len() as usize)
                &&& *final(q) == absorb_all(*old(q), old(self).pending_for(h as int))
                &&& final(self).delivered_to(h as int) == old(self).delivered_to(h as int) + old(self).pending_for(h as int)
                &&& final(self).pending_for(h as int) == Seq::<Event<T>>::empty()
            },
    {
        if self.subscribers[h].overflowed {
            return Err(BusError::SubscriberOverflow);
        }
        let ghost q0 = *q;
        let pending_len = self.subscribers[h].queue.len();
        let ghost p0 = self.pending_for(h as int);
        let ghost d0 = self.delivered_to(h as int);
        let mut count: usize = 0;
        proof {
            assert(p0.take(0) =~= Seq::<Event<T>>::empty());
        }
        while self.subscribers[h].queue.len() > 0
            invariant
                self.wf(),
                h < self.sub_count(),
                !self.is_overflowed(h as int),
                count <= p0.len(),
                p0.len() == pending_len,
                self.published() == old(self).published(),
                self.sub_count() == old(self).sub_count(),
                self.capacity_spec() == old(self).capacity_spec(),
                self.joined_at(h as int) == old(self).joined_at(h as int),
                forall|g: int|
                    0 <= g < old(self).sub_count() && g != h ==> self.joined_at(g) == old(self).joined_at(g) && self.delivered_to(g) == old(self).delivered_to(g)
                        && self.pending_for(g) == old(self).pending_for(g) && self.is_overflowed(g)
                        == old(self).is_overflowed(g),
                self.delivered_to(h as int) == d0 + p0.take(count as int),
                self.pending_for(h as int) == p0.skip(count as int),
                *q == absorb_all(q0, p0.take(count as int)),
            decreases p0.len() - count,
        {
            let ghost taken = p0.take(count as int);
            match self.poll(h) {
                Ok(Some(event)) => {
                    q.on_event(&event);
                    proof {
                        assert(p0.skip(count as int)[0] == p0[count as int]);
                        assert(p0.take(count as int + 1) =~= taken.push(p0[count as int]));
                        assert(p0.skip(count as int).skip(1) =~= p0.skip(count as int + 1));
                        lemma_absorb_all_step::<T, Q>(q0, taken, p0[count as int]);
                        assert(d0 + taken + seq![p0[count as int]] =~= d0 + p0.take(
                            count as int + 1,
                        ));
                        assert((d0 + taken).push(p0[count as int]) =~= d0 + taken + seq![
                            p0[count as int],
                        ]);
                    }
                    count = count + 1;
                },
                Ok(None) => {
                    proof {
                        assert(false);
                    }
                },
                Err(_) => {
                    proof {
                        assert(false);
                    }
                },
            }
        }
        proof {
            assert(p0.skip(count as int).len() == 0);
            assert(count == p0.len());
            assert(p0.take(count as int) =~= p0);
        }
        Ok(count)
    }

    /// What a live subscriber has taken delivery of, followed by what
    /// still awaits it in its buffer, is exactly the sequence of events
    /// published since it attached, in publish order: delivery order
    /// matches publish order, with no replay of earlier history.
    pub proof fn lemma_delivery_order(&self, h: int)
        requires
            self.wf(),
            0 <= h < self.sub_count(),
            !self.is_overflowed(h),
        ensures
            0 <= self.joined_at(h) <= self.published().len(),
            self.delivered_to(h) + self.pending_for(h) == self.published().skip(self.joined_at(h)),
    {
    }
}

} // verus!
