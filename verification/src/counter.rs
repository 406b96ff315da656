//! A small concrete aggregate: a named saturating counter.
//!
//! Domain aggregates implement the `Aggregate` and `Entity` capabilities
//! directly; this one is the library's own reference implementation,
//! small enough to read in one sitting and rich enough to exercise
//! creation, updates, rejection of invalid commands, and saturation at
//! the numeric ceiling.

use vstd::prelude::*;

use crate::entity::CommandError;
use crate::entity::Entity;
use crate::event::Aggregate;
use crate::event::Dup;
use crate::event::Event;
use crate::ids::EntityId;
use crate::query::Query;

verus! {

/// A counter with an identity and a current value.
#[derive(Clone, Copy, Debug, PartialEq, Eq, Structural)]
pub struct Counter {
    /// The counter's identity.
    pub id: EntityId,
    /// The counter's current value.
    pub value: u64,
}

/// The counter's partial-update payload: how much to add. Additions
/// saturate at the numeric ceiling instead of wrapping.
#[derive(Clone, Copy, Debug, PartialEq, Eq, Structural)]
pub struct CounterPatch {
    /// The amount added to the counter's value.
    pub add: u64,
}

/// Commands a counter entity processes.
#[derive(Clone, Copy, Debug, PartialEq, Eq, Structural)]
pub enum CounterCommand {
    /// Bring a new counter into existence with a starting value. Invalid
    /// if the counter already exists.
    Register { id: EntityId, start: u64 },
    /// Add to an existing counter. Invalid if the counter does not exist.
    Add { amount: u64 },
}

/// Saturating addition on the counter's value.
pub open spec fn saturating_value(value: u64, add: u64) -> u64 {
    if value + add <= u64::MAX {
        (value + add) as u64
    } else {
        u64::MAX
    }
}

impl Dup for Counter {
    fn dup(&self) -> (r: Counter)
        ensures
            r == *self,
    {
        *self
    }
}

impl Dup for CounterPatch {
    fn dup(&self) -> (r: CounterPatch)
        ensures
            r == *self,
    {
        *self
    }
}

impl Aggregate for Counter {
    type Update = CounterPatch;

    open spec fn id_spec(&self) -> u128 {
        self.id@
    }

    fn id(&self) -> (r: EntityId) {
        self.id
    }
}

impl Entity for Counter {
    type Command = CounterCommand;

    open spec fn update_spec(state: Counter, patch: CounterPatch) -> Counter {
        Counter { id: state.id, value: saturating_value(state.value, patch.add) }
    }

    open spec fn handle_spec(state: Option<Counter>, command: CounterCommand) -> Result<
        Seq<Event<Counter>>,
        CommandError,
    > {
        match command {
            CounterCommand::Register { id, start } => match state {
                Some(_) => Err(CommandError::CommandRejected),
                None => Ok(seq![Event::Create(Counter { id, value: start })]),
            },
            CounterCommand::Add { amount } => match state {
                None => Err(CommandError::CommandRejected),
                Some(c) => Ok(seq![Event::Update(c.id, CounterPatch { add: amount })]),
            },
        }
    }

    fn update(self, patch: &CounterPatch) -> (r: Counter) {
        let value = if self.value <= u64::MAX - patch.add {
            self.value + patch.add
        } else {
            u64::MAX
        };
        Counter { id: self.id, value }
    }

    fn handle_command(state: &Option<Counter>, command: &CounterCommand) -> (r: Result<
        Vec<Event<Counter>>,
        CommandError,
    >) {
        match command {
            CounterCommand::Register { id, start } => match state {
                Some(_) => Err(CommandError::CommandRejected),
                None => {
                    let events = vec![Event::Create(Counter { id: *id, value: *start })];
                    proof {
                        assert(events@ =~= seq![
                            Event::<Counter>::Create(Counter { id: *id, value: *start }),
                        ]);
                    }
                    Ok(events)
                },
            },
            CounterCommand::Add { amount } => match state {
                None => Err(CommandError::CommandRejected),
                Some(c) => {
                    let events = vec![Event::Update(c.id, CounterPatch { add: *amount })];
                    proof {
                        assert(events@ =~= seq![
                            Event::<Counter>::Update(c.id, CounterPatch { add: *amount }),
                        ]);
                    }
                    Ok(events)
                },
            },
        }
    }
}

/// A read-side projection over counter events: how many counters were
/// brought into existence, and the saturating total of every amount
/// added, across all counters the subscriber observed.
#[derive(Clone, Copy, Debug, PartialEq, Eq, Structural)]
pub struct CounterTally {
    /// How many creation events were absorbed.
    pub creations: u64,
    /// The saturating sum of all absorbed added amounts.
    pub additions: u64,
}

impl Query<Counter> for CounterTally {
    open spec fn absorb_spec(state: CounterTally, event: Event<Counter>) -> CounterTally {
        match event {
            Event::Create(_) => CounterTally {
                creations: saturating_value(state.creations, 1),
                additions: state.additions,
            },
            Event::Update(_, patch) => CounterTally {
                creations: state.creations,
                additions: saturating_value(state.additions, patch.add),
            },
        }
    }

    fn on_event(&mut self, event: &Event<Counter>) {
        match event {
            Event::Create(_) => {
                if self.creations < u64::MAX {
                    self.creations = self.creations + 1;
                }
            },
            Event::Update(_, patch) => {
                self.additions = if self.additions <= u64::MAX - patch.add {
                    self.additions + patch.add
                } else {
                    u64::MAX
                };
            },
        }
    }
}

} // verus!
