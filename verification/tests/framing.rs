use cqrs_core::CommitRecord;
use cqrs_core::EventKind;
use cqrs_core::decode_record;
use cqrs_core::encode_record;

fn sample() -> CommitRecord {
    CommitRecord {
        entity_id: 0x0102030405060708090a0b0c0d0e0f10u128,
        sequence: 7,
        kind: EventKind::Update,
        payload: vec![0xde, 0xad, 0xbe, 0xef],
        timestamp: 123_456_789,
    }
}

#[test]
fn encoding_then_decoding_round_trips() {
    let record = sample();
    let bytes = encode_record(&record);
    let back = decode_record(&bytes).unwrap();
    assert_eq!(back, record);
}

#[test]
fn round_trip_with_empty_payload() {
    let record = CommitRecord {
        entity_id: 0,
        sequence: 0,
        kind: EventKind::Create,
        payload: Vec::new(),
        timestamp: 0,
    };
    let bytes = encode_record(&record);
    assert_eq!(bytes.len(), 41);
    assert_eq!(decode_record(&bytes).unwrap(), record);
}

#[test]
fn frame_layout_is_fixed_little_endian() {
    let record = CommitRecord {
        entity_id: 1,
        sequence: 2,
        kind: EventKind::Update,
        payload: vec![9, 9],
        timestamp: 3,
    };
    let bytes = encode_record(&record);

    let mut expected = vec![1u8];
    expected.extend_from_slice(&[0u8; 15]); // entity id, little-endian
    expected.extend_from_slice(&[2, 0, 0, 0, 0, 0, 0, 0]); // sequence
    expected.extend_from_slice(&[3, 0, 0, 0, 0, 0, 0, 0]); // timestamp
    expected.push(1); // kind tag: update
    expected.extend_from_slice(&[2, 0, 0, 0, 0, 0, 0, 0]); // payload length
    expected.extend_from_slice(&[9, 9]); // payload
    assert_eq!(bytes, expected);
}

#[test]
fn short_buffers_do_not_decode() {
    assert!(decode_record(&vec![0u8; 40]).is_none());
    assert!(decode_record(&Vec::new()).is_none());
}

#[test]
fn unknown_kind_tags_do_not_decode() {
    let mut bytes = encode_record(&sample());
    bytes[32] = 7;
    assert!(decode_record(&bytes).is_none());
}

#[test]
fn length_field_must_match_the_payload() {
    let mut bytes = encode_record(&sample());
    bytes.push(0); // trailing garbage the length field does not cover
    assert!(decode_record(&bytes).is_none());
}
