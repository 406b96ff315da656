//! The persisted commit record and its byte-level framing.
//!
//! A conformant durable backend must write, at minimum, the entity
//! identifier, the sequence number, the event kind, the opaque serialized
//! payload and the timestamp of every commit. This module fixes one frame
//! for those fields and proves that encoding and decoding round-trip
//! exactly; the payload's own serialization is the codec collaborator's
//! business and stays opaque here.

use vstd::bytes::lemma_auto_spec_u128_to_from_le_bytes;
use vstd::bytes::lemma_auto_spec_u64_to_from_le_bytes;
use vstd::bytes::spec_u128_from_le_bytes;
use vstd::bytes::spec_u128_to_le_bytes;
use vstd::bytes::spec_u64_from_le_bytes;
use vstd::bytes::spec_u64_to_le_bytes;
use vstd::bytes::u128_from_le_bytes;
use vstd::bytes::u128_to_le_bytes;
use vstd::bytes::u64_from_le_bytes;
use vstd::bytes::u64_to_le_bytes;
use vstd::prelude::*;
use vstd::slice::slice_subrange;

verus! {

/// Whether a persisted event created its entity or updated it.
#[derive(Clone, Copy, Debug, PartialEq, Eq, Structural)]
pub enum EventKind {
    Create,
    Update,
}

/// One durably persisted commit, with its payload as opaque serialized
/// bytes.
#[derive(Clone, Debug, PartialEq, Eq)]
pub struct CommitRecord {
    /// The entity whose stream the commit belongs to.
    pub entity_id: u128,
    /// Position in that entity's stream.
    pub sequence: u64,
    /// Whether the event created the entity or updated it.
    pub kind: EventKind,
    /// The serialized event payload, opaque to the store.
    pub payload: Vec<u8>,
    /// When the commit was recorded.
    pub timestamp: u64,
}

/// The mathematical image of a persisted commit record.
pub ghost struct RecordView {
    pub entity_id: u128,
    pub sequence: u64,
    pub kind: EventKind,
    pub payload: Seq<u8>,
    pub timestamp: u64,
}

impl View for CommitRecord {
    type V = RecordView;

    open spec fn view(&self) -> RecordView {
        RecordView {
            entity_id: self.entity_id,
            sequence: self.sequence,
            kind: self.kind,
            payload: self.payload@,
            timestamp: self.timestamp,
        }
    }
}

/// The one byte that tags the event kind on disk.
pub open spec fn kind_byte(k: EventKind) -> u8 {
    match k {
        EventKind::Create => 0u8,
        EventKind::Update => 1u8,
    }
}

/// The frame: entity identifier (16 bytes), sequence (8), timestamp (8),
/// kind tag (1), payload length (8), then the payload bytes, all
/// little-endian.
pub open spec fn encode_spec(r: RecordView) -> Seq<u8> {
    spec_u128_to_le_bytes(r.entity_id) + spec_u64_to_le_bytes(r.sequence) + spec_u64_to_le_bytes(
        r.timestamp,
    ) + seq![kind_byte(r.kind)] + spec_u64_to_le_bytes(r.payload.len() as u64) + r.payload
}

/// What a byte string decodes to: the unique record it is the frame of,
/// or nothing when it is too short, carries an unknown kind tag, or has a
/// length field that disagrees with the bytes that follow.
pub open spec fn decode_spec(b: Seq<u8>) -> Option<RecordView> {
    if b.len() < 41 {
        None
    } else {
        let payload = b.subrange(41, b.len() as int);
        if b[32] != 0 && b[32] != 1 {
            None
        } else if payload.len() != spec_u64_from_le_bytes(b.subrange(33, 41)) {
            None
        } else {
            Some(
                RecordView {
                    entity_id: spec_u128_from_le_bytes(b.subrange(0, 16)),
                    sequence: spec_u64_from_le_bytes(b.subrange(16, 24)),
                    kind: if b[32] == 0 {
                        EventKind::Create
                    } else {
                        EventKind::Update
                    },
                    payload,
                    timestamp: spec_u64_from_le_bytes(b.subrange(24, 32)),
                },
            )
        }
    }
}

/// Encodes a record into its frame.
pub fn encode_record(r: &CommitRecord) -> (out: Vec<u8>)
    ensures
        out@ == encode_spec(r@),
{
    let mut out = u128_to_le_bytes(r.entity_id);
    let mut part = u64_to_le_bytes(r.sequence);
    out.append(&mut part);
    let mut part = u64_to_le_bytes(r.timestamp);
    out.append(&mut part);
    out.push(
        match r.kind {
            EventKind::Create => 0u8,
            EventKind::Update => 1u8,
        },
    );
    let mut part = u64_to_le_bytes(r.payload.len() as u64);
    out.append(&mut part);
    let ghost head = out@;
    let mut i: usize = 0;
    while i < r.payload.len()
        invariant
            i <= r.payload@.len(),
            out@ == head + r.payload@.take(i as int),
        decreases r.payload@.len() - i,
    {
        out.push(r.payload[i]);
        proof {
            assert(out@ =~= head + r.payload@.take(i as int + 1));
        }
        i = i + 1;
    }
    proof {
        assert(r.payload@.take(r.payload@.len() as int) =~= r.payload@);
        assert(out@ =~= encode_spec(r@));
    }
    out
}

/// Decodes a frame back into the record it encodes, or reports that the
/// bytes are not a frame.
pub fn decode_record(bytes: &Vec<u8>) -> (r: Option<CommitRecord>)
    ensures
        r matches Some(rec) ==> decode_spec(bytes@) == Some(rec@),
        r is None ==> decode_spec(bytes@) is None,
{
    let n = bytes.len();
    if n < 41 {
        return None;
    }
    let s = bytes.as_slice();
    let entity_id = u128_from_le_bytes(slice_subrange(s, 0, 16));
    let sequence = u64_from_le_bytes(slice_subrange(s, 16, 24));
    let timestamp = u64_from_le_bytes(slice_subrange(s, 24, 32));
    let tag = bytes[32];
    let len = u64_from_le_bytes(slice_subrange(s, 33, 41));
    if tag != 0 && tag != 1 {
        return None;
    }
    let kind = if tag == 0 {
        EventKind::Create
    } else {
        EventKind::Update
    };
    if (n - 41) as u64 != len {
        return None;
    }
    let mut payload: Vec<u8> = Vec::new();
    let mut i: usize = 41;
    while i < n
        invariant
            41 <= i <= n,
            n == bytes@.len(),
            payload@ == bytes@.subrange(41, i as int),
        decreases n - i,
    {
        payload.push(bytes[i]);
        proof {
            assert(payload@ =~= bytes@.subrange(41, i as int + 1));
        }
        i = i + 1;
    }
    Some(CommitRecord { entity_id, sequence, kind, payload, timestamp })
}

/// Encoding a record and decoding the frame yields the record again,
/// payload included, for every record whose payload length fits the
/// length field.
pub proof fn lemma_record_round_trip(v: RecordView)
    requires
        v.payload.len() <= u64::MAX,
    ensures
        decode_spec(encode_spec(v)) == Some(v),
{
    lemma_auto_spec_u128_to_from_le_bytes();
    lemma_auto_spec_u64_to_from_le_bytes();
    let e = encode_spec(v);
    assert(e.len() == 41 + v.payload.len());
    assert(e.subrange(0, 16) =~= spec_u128_to_le_bytes(v.entity_id));
    assert(e.subrange(16, 24) =~= spec_u64_to_le_bytes(v.sequence));
    assert(e.subrange(24, 32) =~= spec_u64_to_le_bytes(v.timestamp));
    assert(e[32] == kind_byte(v.kind));
    assert(e.subrange(33, 41) =~= spec_u64_to_le_bytes(v.payload.len() as u64));
    assert(e.subrange(41, e.len() as int) =~= v.payload);
    match v.kind {
        EventKind::Create => {
            assert(e[32] == 0);
        },
        EventKind::Update => {
            assert(e[32] == 1);
        },
    }
}

} // verus!
