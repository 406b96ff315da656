//! Globally unique entity identifiers.
//!
//! An identifier is an opaque 128-bit value. It is built either at random,
//! for brand-new entities, or deterministically from a name, so that the
//! same name always reproduces the same identifier across processes.

use vstd::prelude::*;

verus! {

/// The 128-bit identifier derived from a name by the stable one-way digest
/// of the name-based identifier scheme. The digest is a function of the
/// name's characters alone, so equal names always give equal results.
pub uninterp spec fn name_digest(name: Seq<char>) -> u128;

/// The canonical lowercase hyphenated text of a 128-bit identifier.
/// It is a function of the identifier's value alone.
pub uninterp spec fn canonical_text(value: u128) -> Seq<char>;

/// Uniquely identifies an entity.
#[derive(Clone, Copy, Debug, PartialEq, Eq, Hash, PartialOrd, Ord, Structural)]
pub struct EntityId(u128);

impl View for EntityId {
    type V = u128;

    closed spec fn view(&self) -> u128 {
        self.0
    }
}

/// Relies on uuid::Uuid::new_v4 via Uuid::as_u128: a freshly drawn random
/// identifier. Nothing is promised of the value: it is random.
#[verifier::external_body]
fn random_u128() -> u128 {
    uuid::Uuid::new_v4().as_u128()
}

/// Relies on uuid::Uuid::new_v5 (the name-based digest over the URL
/// namespace) via Uuid::as_u128: the result depends on the name's bytes
/// alone, so the same name always yields the same value.
#[verifier::external_body]
fn digest_of_name(name: &str) -> (r: u128)
    ensures
        r == name_digest(name@),
{
    uuid::Uuid::new_v5(&uuid::Uuid::NAMESPACE_URL, name.as_bytes()).as_u128()
}

/// Relies on uuid::Uuid::from_u128 and the Hyphenated display form: 36
/// characters, the 32 lowercase hex digits of the value in four-hyphen
/// grouping, a function of the value alone.
#[verifier::external_body]
fn format_canonical(value: u128) -> (r: String)
    ensures
        r@ == canonical_text(value),
        r@.len() == 36,
{
    uuid::Uuid::from_u128(value).hyphenated().to_string()
}

impl EntityId {
    /// A fresh random identifier for a brand-new entity.
    pub fn new() -> EntityId {
        EntityId(random_u128())
    }

    /// The identifier deterministically derived from `name`: the same name
    /// always reproduces the same identifier.
    pub fn from_name(name: &str) -> (r: EntityId)
        ensures
            r@ == name_digest(name@),
    {
        EntityId(digest_of_name(name))
    }

    /// An identifier holding exactly the given 128-bit value.
    pub fn from_value(value: u128) -> (r: EntityId)
        ensures
            r@ == value,
    {
        EntityId(value)
    }

    /// The raw 128-bit value of this identifier.
    pub fn value(&self) -> (r: u128)
        ensures
            r == self@,
    {
        self.0
    }

    /// The canonical lowercase hyphenated string form, for logging and
    /// debugging.
    pub fn to_canonical(&self) -> (r: String)
        ensures
            r@ == canonical_text(self@),
            r@.len() == 36,
    {
        format_canonical(self.0)
    }
}

impl Default for EntityId {
    /// A fresh random identifier, as `new` gives.
    fn default() -> EntityId {
        EntityId::new()
    }
}

/// Identifier derivation from a name is deterministic: equal names give
/// equal identifiers.
pub proof fn lemma_name_digest_deterministic(a: Seq<char>, b: Seq<char>)
    requires
        a == b,
    ensures
        name_digest(a) == name_digest(b),
{
}

} // verus!
