//! The append-only, per-entity-ordered event store.
//!
//! The store accepts proposed events under an optimistic-concurrency gate:
//! a proposal names the sequence number its author last read, and it is
//! accepted only if the stream has not moved past it. Within one entity's
//! stream, sequence numbers are contiguous starting at 0, strictly
//! increasing and unique: no gaps, no duplicates.

use vstd::prelude::*;

use crate::event::Aggregate;
use crate::event::Dup;
use crate::event::Event;
use crate::ids::EntityId;

verus! {

/// A single durably recorded, sequence-numbered event belonging to one
/// entity's stream. Created only by the store upon accepting a proposed
/// event; never mutated.
pub struct Commit<T: Aggregate> {
    /// The entity whose stream this commit belongs to.
    pub entity_id: EntityId,
    /// Position in that entity's stream, starting at 0.
    pub sequence: u64,
    /// The accepted event.
    pub event: Event<T>,
    /// When the commit was recorded, as the caller's clock reads it.
    pub timestamp: u64,
}

impl<T: Aggregate> Dup for Commit<T> {
    fn dup(&self) -> (r: Commit<T>)
        ensures
            r == *self,
    {
        Commit {
            entity_id: self.entity_id,
            sequence: self.sequence,
            event: self.event.dup(),
            timestamp: self.timestamp,
        }
    }
}

/// Why a proposal was not committed.
#[derive(Clone, Copy, Debug, PartialEq, Eq)]
pub enum StoreError {
    /// Optimistic-concurrency failure: the stream's current sequence number
    /// (none for an empty stream) differed from the one the proposal
    /// expected. Recoverable: reload state and resubmit.
    Conflict(Option<u64>),
    /// Durability failure in a backing store. Fatal for the in-flight
    /// operation, and deliberately distinct from `Conflict` so callers
    /// never conflate "someone else won the race" with "the write might
    /// not have happened". The in-memory store never raises it; durable
    /// backends report their write failures through this variant.
    StorageFailure,
}

/// The last sequence number of a stream, or none if it has no commits.
pub open spec fn current_of<T: Aggregate>(s: Seq<Commit<T>>) -> Option<u64> {
    if s.len() == 0 {
        None
    } else {
        Some(s[s.len() - 1].sequence)
    }
}

/// The events carried by a run of commits, in the same order.
pub open spec fn events_of<T: Aggregate>(s: Seq<Commit<T>>) -> Seq<Event<T>> {
    s.map_values(|c: Commit<T>| c.event)
}

/// Extracts the events carried by a run of commits, in the same order.
pub fn events_of_commits<T: Aggregate>(commits: &Vec<Commit<T>>) -> (r: Vec<Event<T>>)
    ensures
        r@ == events_of(commits@),
{
    let mut out: Vec<Event<T>> = Vec::new();
    let mut i: usize = 0;
    while i < commits.len()
        invariant
            i <= commits@.len(),
            out@ == events_of(commits@.take(i as int)),
        decreases commits@.len() - i,
    {
        out.push(commits[i].event.dup());
        proof {
            assert(out@ =~= events_of(commits@.take(i as int + 1)));
        }
        i = i + 1;
    }
    proof {
        assert(commits@.take(commits@.len() as int) =~= commits@);
    }
    out
}

/// Sequence numbers are contiguous starting at 0: the commit at position
/// `i` carries sequence number `i`.
pub open spec fn contiguous<T: Aggregate>(s: Seq<Commit<T>>) -> bool {
    forall|i: int| 0 <= i < s.len() ==> (#[trigger] s[i]).sequence == i
}

/// Every commit of the stream belongs to the named entity, and so does the
/// event it carries.
pub open spec fn stream_owned_by<T: Aggregate>(s: Seq<Commit<T>>, id: u128) -> bool {
    forall|i: int|
        0 <= i < s.len() ==> (#[trigger] s[i]).entity_id@ == id && s[i].event.entity_id_spec()
            == id
}

struct StreamRec<T: Aggregate> {
    id: EntityId,
    commits: Vec<Commit<T>>,
}

/// The append-only, per-entity-ordered persistence and
/// optimistic-concurrency layer.
pub struct Store<T: Aggregate> {
    streams: Vec<StreamRec<T>>,
}

impl<T: Aggregate> Store<T> {
    /// Whether the store holds any commits for the given entity.
    pub closed spec fn has_stream(&self, id: u128) -> bool {
        exists|j: int| 0 <= j < self.streams@.len() && self.streams@[j].id@ == id
    }

    /// The entity's commits, in ascending sequence order; empty if the
    /// entity has none.
    pub closed spec fn stream_of(&self, id: u128) -> Seq<Commit<T>> {
        if self.has_stream(id) {
            let j = choose|j: int| 0 <= j < self.streams@.len() && self.streams@[j].id@ == id;
            self.streams@[j].commits@
        } else {
            Seq::empty()
        }
    }

    /// The store's internal invariant: one stream per entity, and every
    /// stream non-empty, contiguous from 0 and owned by its entity.
    pub closed spec fn wf(&self) -> bool {
        &&& forall|j: int, k: int|
            0 <= j < k < self.streams@.len() ==> (#[trigger] self.streams@[j].id@)
                != (#[trigger] self.streams@[k].id@)
        &&& forall|j: int|
            0 <= j < self.streams@.len() ==> {
                let rec = #[trigger] self.streams@[j];
                &&& rec.commits@.len() >= 1
                &&& contiguous(rec.commits@)
                &&& stream_owned_by(rec.commits@, rec.id@)
            }
    }

    proof fn lemma_stream_of_at(&self, k: int)
        requires
            self.wf(),
            0 <= k < self.streams@.len(),
        ensures
            self.has_stream(self.streams@[k].id@),
            self.stream_of(self.streams@[k].id@) == self.streams@[k].commits@,
    {
        let id = self.streams@[k].id@;
        assert(0 <= k < self.streams@.len() && self.streams@[k].id@ == id);
        let j = choose|j: int| 0 <= j < self.streams@.len() && self.streams@[j].id@ == id;
        if j < k {
            assert(self.streams@[j].id@ != self.streams@[k].id@);
        } else if k < j {
            assert(self.streams@[k].id@ != self.streams@[j].id@);
        }
        assert(j == k);
    }

    /// An empty store: no entity has any commits yet.
    pub fn new() -> (r: Store<T>)
        ensures
            r.wf(),
            forall|id: u128| r.stream_of(id) == Seq::<Commit<T>>::empty(),
    {
        Store { streams: Vec::new() }
    }

    fn find_stream(&self, entity_id: EntityId) -> (r: Option<usize>)
        ensures
            match r {
                Some(j) => 0 <= j < self.streams@.len() && self.streams@[j as int].id@
                    == entity_id@,
                None => forall|k: int|
                    0 <= k < self.streams@.len() ==> (#[trigger] self.streams@[k].id@)
                        != entity_id@,
            },
    {
        let mut j: usize = 0;
        while j < self.streams.len()
            invariant
                j <= self.streams@.len(),
                forall|k: int| 0 <= k < j ==> (#[trigger] self.streams@[k].id@) != entity_id@,
            decreases self.streams@.len() - j,
        {
            if self.streams[j].id.value() == entity_id.value() {
                return Some(j);
            }
            j = j + 1;
        }
        None
    }

    /// Atomically, for the named entity's stream: if the stream's current
    /// sequence number equals `expected_sequence`, appends the event as a
    /// new commit at the next sequence number (0 for a fresh stream) and
    /// returns it; otherwise fails with `Conflict` carrying the current
    /// sequence number, without touching the stream. At most one proposal
    /// can succeed per (entity, expected sequence) pair. No other entity's
    /// stream is ever affected.
    pub fn propose(
        &mut self,
        entity_id: EntityId,
        expected_sequence: Option<u64>,
        event: Event<T>,
        timestamp: u64,
    ) -> (r: Result<Commit<T>, StoreError>)
        requires
            old(self).wf(),
            event.entity_id_spec() == entity_id@,
        ensures
            final(self).wf(),
            ({
                let before = old(self).stream_of(entity_id@);
                let after = final(self).stream_of(entity_id@);
                if expected_sequence == current_of(before) {
                    &&& r matches Ok(c)
                    &&& r matches Ok(c) ==> {
                        &&& c.entity_id@ == entity_id@
                        &&& c.sequence == before.len()
                        &&& c.event == event
                        &&& c.timestamp == timestamp
                        &&& after == before.push(c)
                    }
                } else {
                    &&& r == Err::<Commit<T>, StoreError>(
                        StoreError::Conflict(current_of(before)),
                    )
                    &&& after == before
                }
            }),
            forall|other: u128|
                other != entity_id@ ==> final(self).stream_of(other) == old(self).stream_of(other),
    {
        match self.find_stream(entity_id) {
            None => {
                proof {
                    assert(!old(self).has_stream(entity_id@));
                    assert(old(self).stream_of(entity_id@) == Seq::<Commit<T>>::empty());
                }
                match expected_sequence {
                    Some(_) => Err(StoreError::Conflict(None)),
                    None => {
                        let commit = Commit { entity_id, sequence: 0u64, event, timestamp };
                        let stored = commit.dup();
                        let ghost pre = *self;
                        self.streams.push(StreamRec { id: entity_id, commits: vec![stored] });
                        proof {
                            let n = pre.streams@.len();
                            assert(self.streams@ =~= pre.streams@.push(
                                StreamRec { id: entity_id, commits: self.streams@[n as int].commits },
                            ));
                            assert(self.streams@[n as int].commits@ =~= seq![commit]);
                            assert forall|j: int, k: int|
                                0 <= j < k < self.streams@.len() implies (
                            #[trigger] self.streams@[j].id@) != (#[trigger] self.streams@[k].id@) by {
                                if k == n {
                                    assert(pre.streams@[j].id@ != entity_id@);
                                }
                            }
                            assert(self.wf());
                            self.lemma_stream_of_at(n as int);
                            assert(self.stream_of(entity_id@) =~= pre.stream_of(entity_id@).push(
                                commit,
                            ));
                            assert forall|other: u128| other != entity_id@ implies self.stream_of(
                                other,
                            ) == pre.stream_of(other) by {
                                self.lemma_frame_after_push(pre, other);
                            }
                        }
                        Ok(commit)
                    },
                }
            },
            Some(j) => {
                proof {
                    old(self).lemma_stream_of_at(j as int);
                }
                let len = self.streams[j].commits.len();
                let cur: u64 = self.streams[j].commits[len - 1].sequence;
                proof {
                    assert(old(self).streams@[j as int].commits@[len - 1].sequence == len - 1);
                }
                let accept = match expected_sequence {
                    None => false,
                    Some(n) => n == cur,
                };
                if accept {
                    let commit = Commit { entity_id, sequence: cur + 1, event, timestamp };
                    let stored = commit.dup();
                    let ghost pre = *self;
                    self.streams[j].commits.push(stored);
                    proof {
                        assert(self.streams@ =~= pre.streams@.update(
                            j as int,
                            StreamRec {
                                id: pre.streams@[j as int].id,
                                commits: self.streams@[j as int].commits,
                            },
                        ));
                        assert(self.streams@[j as int].commits@ =~= pre.streams@[
                        j as int].commits@.push(commit));
                        assert(self.wf());
                        self.lemma_stream_of_at(j as int);
                        assert(self.stream_of(entity_id@) == pre.stream_of(entity_id@).push(
                            commit,
                        ));
                        assert forall|other: u128| other != entity_id@ implies self.stream_of(
                            other,
                        ) == pre.stream_of(other) by {
                            self.lemma_frame_after_update(pre, j as int, other);
                        }
                    }
                    Ok(commit)
                } else {
                    Err(StoreError::Conflict(Some(cur)))
                }
            },
        }
    }

    proof fn lemma_frame_after_push(&self, pre: Store<T>, other: u128)
        requires
            pre.wf(),
            self.wf(),
            self.streams@.len() == pre.streams@.len() + 1,
            forall|k: int|
                0 <= k < pre.streams@.len() ==> (#[trigger] self.streams@[k]) == pre.streams@[k],
            self.streams@[pre.streams@.len() as int].id@ != other,
        ensures
            self.stream_of(other) == pre.stream_of(other),
    {
        if pre.has_stream(other) {
            let k = choose|k: int| 0 <= k < pre.streams@.len() && pre.streams@[k].id@ == other;
            pre.lemma_stream_of_at(k);
            assert(self.streams@[k].id@ == other);
            self.lemma_stream_of_at(k);
        } else {
            assert(!self.has_stream(other)) by {
                if self.has_stream(other) {
                    let k = choose|k: int|
                        0 <= k < self.streams@.len() && self.streams@[k].id@ == other;
                    assert(k < pre.streams@.len());
                    assert(pre.streams@[k].id@ == other);
                }
            }
        }
    }

    proof fn lemma_frame_after_update(&self, pre: Store<T>, j: int, other: u128)
        requires
            pre.wf(),
            self.wf(),
            self.streams@.len() == pre.streams@.len(),
            0 <= j < pre.streams@.len(),
            forall|k: int|
                0 <= k < pre.streams@.len() && k != j ==> (#[trigger] self.streams@[k])
                    == pre.streams@[k],
            self.streams@[j].id@ == pre.streams@[j].id@,
            pre.streams@[j].id@ != other,
        ensures
            self.stream_of(other) == pre.stream_of(other),
    {
        if pre.has_stream(other) {
            let k = choose|k: int| 0 <= k < pre.streams@.len() && pre.streams@[k].id@ == other;
            pre.lemma_stream_of_at(k);
            assert(k != j);
            assert(self.streams@[k].id@ == other);
            self.lemma_stream_of_at(k);
        } else {
            assert(!self.has_stream(other)) by {
                if self.has_stream(other) {
                    let k = choose|k: int|
                        0 <= k < self.streams@.len() && self.streams@[k].id@ == other;
                    assert(k != j);
                    assert(pre.streams@[k].id@ == other);
                }
            }
        }
    }

    /// All commits for the entity, in ascending sequence order, finite and
    /// restartable: callers may reload independently. An absent entity
    /// yields an empty sequence, not an error.
    pub fn load(&self, entity_id: EntityId) -> (r: Vec<Commit<T>>)
        requires
            self.wf(),
        ensures
            r@ == self.stream_of(entity_id@),
    {
        match self.find_stream(entity_id) {
            None => {
                proof {
                    assert(!self.has_stream(entity_id@));
                }
                Vec::new()
            },
            Some(j) => {
                proof {
                    self.lemma_stream_of_at(j as int);
                }
                let ghost src = self.streams@[j as int].commits@;
                let mut out: Vec<Commit<T>> = Vec::new();
                let n = self.streams[j].commits.len();
                let mut i: usize = 0;
                while i < n
                    invariant
                        i <= n,
                        n == src.len(),
                        0 <= j < self.streams@.len(),
                        self.streams@[j as int].commits@ == src,
                        out@ == src.subrange(0, i as int),
                    decreases n - i,
                {
                    out.push(self.streams[j].commits[i].dup());
                    proof {
                        assert(out@ =~= src.subrange(0, i as int + 1));
                    }
                    i = i + 1;
                }
                proof {
                    assert(out@ =~= src);
                }
                out
            },
        }
    }

    /// The entity's last committed sequence number, or none if it has no
    /// commits.
    pub fn current_sequence(&self, entity_id: EntityId) -> (r: Option<u64>)
        requires
            self.wf(),
        ensures
            r == current_of(self.stream_of(entity_id@)),
    {
        match self.find_stream(entity_id) {
            None => {
                proof {
                    assert(!self.has_stream(entity_id@));
                }
                None
            },
            Some(j) => {
                proof {
                    self.lemma_stream_of_at(j as int);
                }
                let len = self.streams[j].commits.len();
                Some(self.streams[j].commits[len - 1].sequence)
            },
        }
    }

    /// In a well-formed store, every entity's stream is contiguous from 0
    /// with no gaps, owned by that entity, and free of duplicate sequence
    /// numbers.
    pub proof fn lemma_stream_invariant(&self, id: u128)
        requires
            self.wf(),
        ensures
            contiguous(self.stream_of(id)),
            stream_owned_by(self.stream_of(id), id),
            forall|i: int, k: int|
                0 <= i < k < self.stream_of(id).len() ==> (#[trigger] self.stream_of(
                    id,
                )[i]).sequence != (#[trigger] self.stream_of(id)[k]).sequence,
    {
        if self.has_stream(id) {
            let j = choose|j: int| 0 <= j < self.streams@.len() && self.streams@[j].id@ == id;
            assert(self.streams@[j].commits@.len() >= 1);
        }
    }
}

/// At most one proposal is accepted per (entity, expected sequence) pair:
/// a proposal is accepted exactly when its expected sequence equals the
/// stream's current one, and once a commit is appended the current
/// sequence has moved past that value, so every later proposal carrying
/// the same expected sequence fails with a conflict.
pub proof fn lemma_at_most_one_winner<T: Aggregate>(
    before: Seq<Commit<T>>,
    expected: Option<u64>,
    c: Commit<T>,
)
    requires
        contiguous(before),
        expected == current_of(before),
        c.sequence == before.len(),
    ensures
        expected != current_of(before.push(c)),
{
    assert(before.push(c)[before.len() as int] == c);
}

} // verus!
