//! Core mechanics of an event-sourced, command/query-separated system:
//! entities derive their state by folding an append-only, per-entity-ordered
//! stream of immutable events; a store commits proposed events under
//! optimistic concurrency; a bus fans committed events out to subscribers in
//! commit order.

mod bus;
mod codec;
mod counter;
mod entity;
mod es;
mod event;
mod ids;
mod query;
mod store;

pub use bus::BusError;
pub use bus::EventBus;
pub use codec::CommitRecord;
pub use codec::EventKind;
pub use codec::RecordView;
pub use codec::decode_record;
pub use codec::decode_spec;
pub use codec::encode_record;
pub use codec::encode_spec;
pub use codec::kind_byte;
pub use codec::lemma_record_round_trip;
pub use counter::Counter;
pub use counter::CounterTally;
pub use counter::CounterCommand;
pub use counter::CounterPatch;
pub use counter::saturating_value;
pub use entity::CommandError;
pub use entity::Entity;
pub use entity::FoldError;
pub use entity::apply;
pub use entity::apply_spec;
pub use entity::fold_spec;
pub use entity::lemma_fold_append;
pub use entity::lemma_fold_step;
pub use entity::replay;
pub use es::ES;
pub use es::EsError;
pub use es::for_entity;
pub use event::Aggregate;
pub use event::Dup;
pub use event::Event;
pub use ids::EntityId;
pub use query::Query;
pub use query::absorb_all;
pub use query::lemma_absorb_all_step;
pub use store::Commit;
pub use store::Store;
pub use store::StoreError;
pub use store::contiguous;
pub use store::current_of;
pub use store::events_of;
pub use store::events_of_commits;
pub use store::lemma_at_most_one_winner;
pub use store::stream_owned_by;

