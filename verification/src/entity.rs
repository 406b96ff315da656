//! The entity capability and the folding engine.
//!
//! An entity turns incoming commands into candidate events and folds
//! accepted events into the in-memory state of one aggregate instance.
//! Folding is deterministic and side-effect free: replaying the same event
//! sequence from the same starting state always yields the same state,
//! which is what makes replay-based reconstruction valid.

use vstd::prelude::*;

use crate::event::Aggregate;
use crate::event::Dup;
use crate::event::Event;

verus! {

/// A command was invalid given the current folded state; it is reported to
/// the command's caller and never retried automatically.
#[derive(Clone, Copy, Debug, PartialEq, Eq, Structural)]
pub enum CommandError {
    CommandRejected,
}

/// A folding-order violation: either a `Create` was applied to an entity
/// that already had state, or an `Update` was applied with no prior state.
/// Both indicate a logic error in the caller or a corrupted stream, and are
/// fatal for that fold operation, never silently skipped.
#[derive(Clone, Copy, Debug, PartialEq, Eq, Structural)]
pub enum FoldError {
    DoubleCreate,
    UnknownEntity,
}

/// The capability for turning commands into events and folding events into
/// the state of a single aggregate instance. Both operations are pure
/// functions of their arguments, pinned to the spec-level functions the
/// implementor declares.
pub trait Entity: Aggregate {
    /// The external command type this entity processes.
    type Command;

    /// The domain fold of one partial-update payload onto existing state.
    spec fn update_spec(state: Self, patch: Self::Update) -> Self;

    /// What `handle_command` decides for a given state and command: either
    /// zero or more candidate events, or a rejection.
    spec fn handle_spec(state: Option<Self>, command: Self::Command) -> Result<
        Seq<Event<Self>>,
        CommandError,
    >;

    /// Folds one partial-update payload onto existing state.
    fn update(self, patch: &Self::Update) -> (r: Self)
        ensures
            r == Self::update_spec(self, *patch),
    ;

    /// Given the current folded state (absent if the entity does not yet
    /// exist) and an external command, produces zero or more candidate
    /// events, or rejects the command as invalid for that state. A pure
    /// function of `(state, command)`: no side effects, no input or output.
    fn handle_command(state: &Option<Self>, command: &Self::Command) -> (r: Result<
        Vec<Event<Self>>,
        CommandError,
    >)
        ensures
            match (r, Self::handle_spec(*state, *command)) {
                (Ok(events), Ok(expected)) => events@ == expected,
                (Err(e), Err(expected)) => e == expected,
                _ => false,
            },
    ;
}

/// What folding a single event onto optional prior state yields: for
/// `Create`, the snapshot itself, unless state was already present
/// (`DoubleCreate`); for `Update`, the domain fold of the payload, unless
/// prior state is absent (`UnknownEntity`).
pub open spec fn apply_spec<T: Entity>(state: Option<T>, event: Event<T>) -> Result<T, FoldError> {
    match event {
        Event::Create(snapshot) => {
            if state is Some {
                Err(FoldError::DoubleCreate)
            } else {
                Ok(snapshot)
            }
        },
        Event::Update(_, patch) => {
            match state {
                None => Err(FoldError::UnknownEntity),
                Some(prior) => Ok(T::update_spec(prior, patch)),
            }
        },
    }
}

/// Folds a single event onto optional prior state to produce new state.
/// Deterministic and side-effect free.
pub fn apply<T: Entity>(state: Option<T>, event: &Event<T>) -> (r: Result<T, FoldError>)
    ensures
        r == apply_spec(state, *event),
{
    match event {
        Event::Create(snapshot) => {
            if state.is_some() {
                Err(FoldError::DoubleCreate)
            } else {
                Ok(snapshot.dup())
            }
        },
        Event::Update(_, patch) => {
            match state {
                None => Err(FoldError::UnknownEntity),
                Some(prior) => Ok(prior.update(patch)),
            }
        },
    }
}

/// What folding a whole event sequence, in order, onto optional starting
/// state yields: the state after the last event, or the first folding
/// error.
pub open spec fn fold_spec<T: Entity>(state: Option<T>, events: Seq<Event<T>>) -> Result<
    Option<T>,
    FoldError,
>
    decreases events.len(),
{
    if events.len() == 0 {
        Ok(state)
    } else {
        match apply_spec(state, events[0]) {
            Err(e) => Err(e),
            Ok(next) => fold_spec(Some(next), events.skip(1)),
        }
    }
}

/// Reconstructs state by applying every event in order, starting from an
/// optional snapshot. Replay is deterministic: the result is exactly the
/// fold of the event sequence.
pub fn replay<T: Entity>(start: Option<T>, events: &Vec<Event<T>>) -> (r: Result<
    Option<T>,
    FoldError,
>)
    ensures
        r == fold_spec(start, events@),
{
    let ghost all = events@;
    proof {
        assert(all.skip(0) =~= all);
    }
    let mut state: Option<T> = start;
    let mut i: usize = 0;
    while i < events.len()
        invariant
            i <= events.len(),
            events@ == all,
            fold_spec(start, all) == fold_spec(state, all.skip(i as int)),
        decreases events.len() - i,
    {
        let ghost prior = state;
        proof {
            assert(all.skip(i as int).len() > 0);
            assert(all.skip(i as int)[0] == all[i as int]);
            assert(all.skip(i as int).skip(1) =~= all.skip(i as int + 1));
        }
        match apply(state, &events[i]) {
            Err(e) => {
                proof {
                    assert(fold_spec(prior, all.skip(i as int)) == Err::<Option<T>, FoldError>(e));
                }
                return Err(e);
            },
            Ok(next) => {
                state = Some(next);
                proof {
                    assert(fold_spec(prior, all.skip(i as int)) == fold_spec(
                        Some(next),
                        all.skip(i as int + 1),
                    ));
                }
            },
        }
        i = i + 1;
    }
    proof {
        assert(all.skip(i as int) =~= Seq::<Event<T>>::empty());
    }
    Ok(state)
}

/// Fold composes over concatenation: folding `prefix + suffix` in one pass
/// equals folding `prefix` first and then, from the state it reached,
/// folding `suffix` — the fold-associativity half of replay determinism
/// (the other half is that the fold is a function of its inputs alone).
pub proof fn lemma_fold_append<T: Entity>(
    state: Option<T>,
    prefix: Seq<Event<T>>,
    suffix: Seq<Event<T>>,
)
    ensures
        fold_spec(state, prefix + suffix) == (match fold_spec(state, prefix) {
            Ok(mid) => fold_spec(mid, suffix),
            Err(e) => Err::<Option<T>, FoldError>(e),
        }),
    decreases prefix.len(),
{
    if prefix.len() == 0 {
        assert(prefix + suffix =~= suffix);
    } else {
        assert((prefix + suffix)[0] == prefix[0]);
        assert((prefix + suffix).skip(1) =~= prefix.skip(1) + suffix);
        match apply_spec(state, prefix[0]) {
            Err(_) => {
            },
            Ok(next) => {
                lemma_fold_append(Some(next), prefix.skip(1), suffix);
            },
        }
    }
}

/// Folding one more event equals applying that event to the fold of the
/// history so far: replaying a whole history in one pass agrees with
/// folding events one at a time, in order.
pub proof fn lemma_fold_step<T: Entity>(state: Option<T>, events: Seq<Event<T>>, event: Event<T>)
    ensures
        fold_spec(state, events.push(event)) == (match fold_spec(state, events) {
            Ok(mid) => match apply_spec(mid, event) {
                Ok(next) => Ok::<Option<T>, FoldError>(Some(next)),
                Err(e) => Err::<Option<T>, FoldError>(e),
            },
            Err(e) => Err::<Option<T>, FoldError>(e),
        }),
{
    assert(events.push(event) =~= events + seq![event]);
    lemma_fold_append(state, events, seq![event]);
    match fold_spec(state, events) {
        Ok(mid) => {
            assert(seq![event].len() == 1);
            assert(seq![event][0] == event);
            assert(seq![event].skip(1) =~= Seq::<Event<T>>::empty());
            match apply_spec(mid, event) {
                Ok(next) => {
                    assert(fold_spec(Some(next), seq![event].skip(1)) == Ok::<
                        Option<T>,
                        FoldError,
                    >(Some(next)));
                    assert(fold_spec(mid, seq![event]) == Ok::<Option<T>, FoldError>(Some(next)));
                },
                Err(e) => {
                    assert(fold_spec(mid, seq![event]) == Err::<Option<T>, FoldError>(e));
                },
            }
        },
        Err(_) => {
        },
    }
}

} // verus!
