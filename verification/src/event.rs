//! Events and the aggregate capability.
//!
//! An event is a change to the system: either the creation of an entity,
//! carrying a full aggregate snapshot, or an incremental update to an
//! existing entity, carrying the target identity plus a partial-update
//! payload whose shape the aggregate type defines.

use vstd::prelude::*;

use crate::ids::EntityId;

verus! {

/// Ability to produce an owned copy equal to the original. Event payloads
/// need it because a committed event is shared, read-only, with the store
/// and with every bus subscriber.
pub trait Dup: Sized {
    fn dup(&self) -> (r: Self)
        ensures
            r == *self,
    ;
}

impl Dup for EntityId {
    fn dup(&self) -> (r: EntityId)
        ensures
            r == *self,
    {
        *self
    }
}

/// The capability every domain entity type implements: it can report its
/// own identity, and it names the payload type of its legal partial
/// mutations.
pub trait Aggregate: Sized + Dup {
    /// The partial-update payload type for this aggregate. Folding a prior
    /// snapshot with a sequence of such payloads is enough to reconstruct
    /// any reachable state.
    type Update: Dup;

    /// The identity this aggregate value reports.
    spec fn id_spec(&self) -> u128;

    /// Reports this aggregate value's own identity.
    fn id(&self) -> (r: EntityId)
        ensures
            r@ == self.id_spec(),
    ;
}

/// Events are changes to the system generated by entities after processing
/// other events or external commands.
pub enum Event<T: Aggregate> {
    Create(T),
    Update(EntityId, T::Update),
}

impl<T: Aggregate> Event<T> {
    /// The one entity this event resolves to: the identity embedded in the
    /// snapshot for `Create`, the explicit identity field for `Update`.
    pub open spec fn entity_id_spec(&self) -> u128 {
        match self {
            Event::Create(snapshot) => snapshot.id_spec(),
            Event::Update(id, _) => id@,
        }
    }

    /// Every event resolves to exactly one entity identifier.
    pub fn entity_id(&self) -> (r: EntityId)
        ensures
            r@ == self.entity_id_spec(),
    {
        match self {
            Event::Create(snapshot) => snapshot.id(),
            Event::Update(id, _) => *id,
        }
    }

    /// An event recording the creation of an entity from a full snapshot.
    pub fn create(snapshot: T) -> (r: Event<T>)
        ensures
            r == Event::<T>::Create(snapshot),
    {
        Event::Create(snapshot)
    }

    /// An event recording an incremental update to the named entity.
    pub fn update(id: EntityId, patch: T::Update) -> (r: Event<T>)
        ensures
            r == Event::<T>::Update(id, patch),
    {
        Event::Update(id, patch)
    }
}

impl<T: Aggregate> Dup for Event<T> {
    fn dup(&self) -> (r: Event<T>)
        ensures
            r == *self,
    {
        match self {
            Event::Create(snapshot) => Event::Create(snapshot.dup()),
            Event::Update(id, patch) => Event::Update(*id, patch.dup()),
        }
    }
}

} // verus!
