//! The query capability: read-side projections.
//!
//! A projection consumes delivered events, one at a time and in delivery
//! order, to maintain a derived read model. Absorbing an event is a pure
//! step function of the projection's state, so a projection's value after
//! any run of deliveries is the fold of that run.

use vstd::prelude::*;

use crate::event::Aggregate;
use crate::event::Event;

verus! {

/// The capability a read-side projection implements: absorbing one
/// delivered event into the derived view, pinned to the spec-level step
/// the implementor declares.
pub trait Query<T: Aggregate>: Sized {
    /// What absorbing one event does to the view.
    spec fn absorb_spec(state: Self, event: Event<T>) -> Self;

    /// Updates the derived read model with one delivered event. Invoked
    /// once per delivery, in delivery order.
    fn on_event(&mut self, event: &Event<T>)
        ensures
            *final(self) == Self::absorb_spec(*old(self), *event),
    ;
}

/// The view a projection reaches after absorbing a whole run of events,
/// in order.
pub open spec fn absorb_all<T: Aggregate, Q: Query<T>>(state: Q, events: Seq<Event<T>>) -> Q
    decreases events.len(),
{
    if events.len() == 0 {
        state
    } else {
        absorb_all(Q::absorb_spec(state, events[0]), events.skip(1))
    }
}

/// Absorbing one more event equals absorbing it after the run so far:
/// a projection's view is the left fold of its deliveries.
pub proof fn lemma_absorb_all_step<T: Aggregate, Q: Query<T>>(
    state: Q,
    events: Seq<Event<T>>,
    event: Event<T>,
)
    ensures
        absorb_all(state, events.push(event)) == Q::absorb_spec(absorb_all(state, events), event),
    decreases events.len(),
{
    if events.len() == 0 {
        assert(events.push(event)[0] == event);
        assert(events.push(event).skip(1) =~= Seq::<Event<T>>::empty());
        assert(absorb_all(state, events) == state);
        assert(absorb_all(Q::absorb_spec(state, event), events.push(event).skip(1))
            == Q::absorb_spec(state, event));
    } else {
        assert(events.push(event)[0] == events[0]);
        assert(events.push(event).skip(1) =~= events.skip(1).push(event));
        lemma_absorb_all_step(Q::absorb_spec(state, events[0]), events.skip(1), event);
    }
}

} // verus!
