use message_lanes::codec::{
    decode_lane_state, decode_payload, decode_u64, encode_lane_state, encode_payload, encode_u64,
};
use message_lanes::inbound::UnrewardedRelayerEntry;
use message_lanes::types::{BridgeError, MessagePayload};

#[test]
fn u64_encodes_little_endian() {
    let mut out: Vec<u8> = Vec::new();
    encode_u64(0x0102030405060708, &mut out);
    assert_eq!(out, vec![0x08, 0x07, 0x06, 0x05, 0x04, 0x03, 0x02, 0x01]);
    assert_eq!(decode_u64(&out, 0), 0x0102030405060708);
}

#[test]
fn u64_round_trips_at_the_extremes() {
    for value in [0u64, 1, 255, 256, u64::MAX - 1, u64::MAX] {
        let mut out: Vec<u8> = Vec::new();
        encode_u64(value, &mut out);
        assert_eq!(out.len(), 8);
        assert_eq!(decode_u64(&out, 0), value);
    }
}

#[test]
fn payload_encoding_is_weight_then_bytes() {
    let payload = MessagePayload { data: vec![0xaa, 0xbb], declared_weight: 3 };
    let bytes = encode_payload(&payload);
    assert_eq!(bytes, vec![3, 0, 0, 0, 0, 0, 0, 0, 0xaa, 0xbb]);
}

#[test]
fn payload_round_trips() {
    let payload = MessagePayload { data: vec![9, 8, 7, 6, 5], declared_weight: 77 };
    let bytes = encode_payload(&payload);
    let back = decode_payload(&bytes).unwrap();
    assert_eq!(back.declared_weight, 77);
    assert_eq!(back.data, vec![9, 8, 7, 6, 5]);
}

#[test]
fn empty_payload_body_round_trips() {
    let payload = MessagePayload { data: vec![], declared_weight: 0 };
    let bytes = encode_payload(&payload);
    assert_eq!(bytes.len(), 8);
    let back = decode_payload(&bytes).unwrap();
    assert_eq!(back.declared_weight, 0);
    assert_eq!(back.data, Vec::<u8>::new());
}

#[test]
fn short_bytes_fail_payload_decoding() {
    let bytes: Vec<u8> = vec![1, 2, 3];
    assert_eq!(decode_payload(&bytes).unwrap_err(), BridgeError::PayloadDecodeError);
}

#[test]
fn lane_state_round_trips() {
    let entries = vec![
        UnrewardedRelayerEntry { relayer: 10, begin: 3, end: 5 },
        UnrewardedRelayerEntry { relayer: 20, begin: 6, end: 6 },
    ];
    let bytes = encode_lane_state(2, &entries);
    assert_eq!(bytes.len(), 16 + 24 * 2);
    let (floor, back) = decode_lane_state(&bytes).unwrap();
    assert_eq!(floor, 2);
    assert_eq!(back, entries);
}

#[test]
fn empty_lane_state_round_trips() {
    let bytes = encode_lane_state(0, &vec![]);
    assert_eq!(bytes.len(), 16);
    let (floor, back) = decode_lane_state(&bytes).unwrap();
    assert_eq!(floor, 0);
    assert_eq!(back, vec![]);
}

#[test]
fn truncated_lane_state_fails_decoding() {
    let bytes: Vec<u8> = vec![0; 10];
    assert_eq!(decode_lane_state(&bytes).unwrap_err(), BridgeError::InvalidProof);
}

#[test]
fn lane_state_with_wrong_count_fails_decoding() {
    let entries = vec![UnrewardedRelayerEntry { relayer: 1, begin: 1, end: 1 }];
    let mut bytes = encode_lane_state(0, &entries);
    // Claim two records while carrying one.
    bytes[8] = 2;
    assert_eq!(decode_lane_state(&bytes).unwrap_err(), BridgeError::InvalidProof);
}
