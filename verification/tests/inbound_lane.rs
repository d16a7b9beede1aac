use message_lanes::dispatch::{CountingDispatch, ForbidDispatch};
use message_lanes::inbound::{InboundLane, InboundLaneLimits, UnrewardedRelayerEntry};
use message_lanes::types::{BridgeError, DispatchOutcome, LaneId, MessagePayload};

fn limits(max_entries: u64, max_unconfirmed: u64) -> InboundLaneLimits {
    InboundLaneLimits {
        max_unrewarded_relayer_entries: max_entries,
        max_unconfirmed_messages: max_unconfirmed,
        min_payload_size: 5,
        max_payload_size: 1024,
        max_payload_weight: 2048,
    }
}

fn payload(bytes: Vec<u8>, weight: u64) -> MessagePayload {
    MessagePayload { data: bytes, declared_weight: weight }
}

fn ok_payload() -> MessagePayload {
    payload(vec![1, 2, 3, 4, 5], 10)
}

#[test]
fn contiguous_batches_are_accepted_and_merged_per_relayer() {
    let mut lane = InboundLane::new(LaneId(0), limits(16, 16));
    let mut dispatcher = CountingDispatch { dispatched: 0 };
    let outcomes = lane
        .receive_batch(&mut dispatcher, 7, 1, &vec![ok_payload(), ok_payload()])
        .unwrap();
    assert_eq!(outcomes, vec![DispatchOutcome::Dispatched, DispatchOutcome::Dispatched]);
    let outcomes2 = lane.receive_batch(&mut dispatcher, 7, 3, &vec![ok_payload()]).unwrap();
    assert_eq!(outcomes2, vec![DispatchOutcome::Dispatched]);
    // Same relayer again: the record is extended, not duplicated.
    assert_eq!(lane.relayers, vec![UnrewardedRelayerEntry { relayer: 7, begin: 1, end: 3 }]);
    assert_eq!(dispatcher.dispatched, 3);
}

#[test]
fn gap_in_nonces_fails_and_changes_nothing() {
    let mut lane = InboundLane::new(LaneId(0), limits(16, 16));
    let mut dispatcher = CountingDispatch { dispatched: 0 };
    lane.receive_batch(&mut dispatcher, 7, 1, &vec![ok_payload()]).unwrap();
    let relayers_before = lane.relayers.clone();
    let confirmed_before = lane.last_confirmed_nonce;
    // Expected next nonce is 2: a gap (3) and a replay (1) both fail.
    let gap = lane.receive_batch(&mut dispatcher, 7, 3, &vec![ok_payload()]);
    assert_eq!(gap.unwrap_err(), BridgeError::InvalidNonceOrder);
    let replay = lane.receive_batch(&mut dispatcher, 8, 1, &vec![ok_payload()]);
    assert_eq!(replay.unwrap_err(), BridgeError::InvalidNonceOrder);
    assert_eq!(lane.relayers, relayers_before);
    assert_eq!(lane.last_confirmed_nonce, confirmed_before);
    assert_eq!(dispatcher.dispatched, 1);
}

#[test]
fn unrewarded_entry_bound_gives_backpressure() {
    // Lane with bound "max 2 unrewarded entries".
    let mut lane = InboundLane::new(LaneId(0), limits(2, 16));
    let mut dispatcher = CountingDispatch { dispatched: 0 };
    // Relayer X delivers nonces 1-2, relayer Y delivers nonce 3.
    lane.receive_batch(&mut dispatcher, 10, 1, &vec![ok_payload(), ok_payload()]).unwrap();
    lane.receive_batch(&mut dispatcher, 20, 3, &vec![ok_payload()]).unwrap();
    assert_eq!(
        lane.relayers,
        vec![
            UnrewardedRelayerEntry { relayer: 10, begin: 1, end: 2 },
            UnrewardedRelayerEntry { relayer: 20, begin: 3, end: 3 },
        ]
    );
    // A third relayer cannot open a third record.
    let blocked = lane.receive_batch(&mut dispatcher, 30, 4, &vec![ok_payload()]);
    assert_eq!(blocked.unwrap_err(), BridgeError::LaneCapacityExceeded);
    // A confirmation clears a record and the delivery goes through.
    lane.confirm(2).unwrap();
    lane.receive_batch(&mut dispatcher, 30, 4, &vec![ok_payload()]).unwrap();
    assert_eq!(
        lane.relayers,
        vec![
            UnrewardedRelayerEntry { relayer: 20, begin: 3, end: 3 },
            UnrewardedRelayerEntry { relayer: 30, begin: 4, end: 4 },
        ]
    );
}

#[test]
fn unconfirmed_span_bound_gives_backpressure() {
    let mut lane = InboundLane::new(LaneId(0), limits(16, 3));
    let mut dispatcher = CountingDispatch { dispatched: 0 };
    lane.receive_batch(&mut dispatcher, 7, 1, &vec![ok_payload(), ok_payload(), ok_payload()])
        .unwrap();
    let blocked = lane.receive_batch(&mut dispatcher, 7, 4, &vec![ok_payload()]);
    assert_eq!(blocked.unwrap_err(), BridgeError::LaneCapacityExceeded);
    lane.confirm(1).unwrap();
    lane.receive_batch(&mut dispatcher, 7, 4, &vec![ok_payload()]).unwrap();
}

#[test]
fn oversize_and_undersize_payloads_are_rejected_not_dispatched() {
    let mut lane = InboundLane::new(LaneId(0), limits(16, 16));
    let mut dispatcher = CountingDispatch { dispatched: 0 };
    let too_small = payload(vec![1, 2], 1);
    let too_heavy = payload(vec![1, 2, 3, 4, 5], 4000);
    let outcomes = lane
        .receive_batch(&mut dispatcher, 7, 1, &vec![too_small, ok_payload(), too_heavy])
        .unwrap();
    assert_eq!(
        outcomes,
        vec![DispatchOutcome::Rejected, DispatchOutcome::Dispatched, DispatchOutcome::Rejected]
    );
    // Rejected payloads still consume their nonces.
    assert_eq!(lane.relayers, vec![UnrewardedRelayerEntry { relayer: 7, begin: 1, end: 3 }]);
    assert_eq!(dispatcher.dispatched, 1);
}

#[test]
fn dispatch_failure_is_reported_but_consumes_the_nonce() {
    let mut lane = InboundLane::new(LaneId(0), limits(16, 16));
    let mut dispatcher = ForbidDispatch {};
    let outcomes = lane.receive_batch(&mut dispatcher, 7, 1, &vec![ok_payload()]).unwrap();
    assert_eq!(outcomes, vec![DispatchOutcome::DispatchFailed]);
    assert_eq!(lane.relayers, vec![UnrewardedRelayerEntry { relayer: 7, begin: 1, end: 1 }]);
}

#[test]
fn confirm_returns_covered_entries_and_splits_partial_ones() {
    let mut lane = InboundLane::new(LaneId(0), limits(16, 16));
    let mut dispatcher = CountingDispatch { dispatched: 0 };
    lane.receive_batch(&mut dispatcher, 10, 1, &vec![ok_payload(), ok_payload()]).unwrap();
    lane.receive_batch(&mut dispatcher, 20, 3, &vec![ok_payload(), ok_payload()]).unwrap();
    // Confirm into the middle of relayer 20's range: its record is split.
    let confirmed = lane.confirm(3).unwrap();
    assert_eq!(
        confirmed,
        vec![
            UnrewardedRelayerEntry { relayer: 10, begin: 1, end: 2 },
            UnrewardedRelayerEntry { relayer: 20, begin: 3, end: 3 },
        ]
    );
    assert_eq!(lane.last_confirmed_nonce, 3);
    assert_eq!(lane.relayers, vec![UnrewardedRelayerEntry { relayer: 20, begin: 4, end: 4 }]);
}

#[test]
fn confirm_is_idempotent_on_replay() {
    let mut lane = InboundLane::new(LaneId(0), limits(16, 16));
    let mut dispatcher = CountingDispatch { dispatched: 0 };
    lane.receive_batch(&mut dispatcher, 7, 1, &vec![ok_payload(), ok_payload()]).unwrap();
    let first = lane.confirm(2).unwrap();
    assert_eq!(first.len(), 1);
    let relayers_after = lane.relayers.clone();
    // The same (or an older) confirmation hands nothing out a second time.
    let again = lane.confirm(2).unwrap();
    assert_eq!(again, vec![]);
    let older = lane.confirm(1).unwrap();
    assert_eq!(older, vec![]);
    assert_eq!(lane.last_confirmed_nonce, 2);
    assert_eq!(lane.relayers, relayers_after);
}

#[test]
fn confirm_rejects_nonce_beyond_delivery() {
    let mut lane = InboundLane::new(LaneId(0), limits(16, 16));
    let mut dispatcher = CountingDispatch { dispatched: 0 };
    lane.receive_batch(&mut dispatcher, 7, 1, &vec![ok_payload()]).unwrap();
    assert_eq!(lane.confirm(2).unwrap_err(), BridgeError::NonceNotInFlight);
    assert_eq!(lane.last_confirmed_nonce, 0);
    assert_eq!(lane.relayers, vec![UnrewardedRelayerEntry { relayer: 7, begin: 1, end: 1 }]);
}

#[test]
fn reward_conservation_over_a_run() {
    let mut lane = InboundLane::new(LaneId(0), limits(16, 16));
    let mut dispatcher = CountingDispatch { dispatched: 0 };
    lane.receive_batch(&mut dispatcher, 10, 1, &vec![ok_payload(), ok_payload()]).unwrap();
    lane.receive_batch(&mut dispatcher, 20, 3, &vec![ok_payload(), ok_payload(), ok_payload()])
        .unwrap();
    lane.receive_batch(&mut dispatcher, 10, 6, &vec![ok_payload()]).unwrap();
    // Two confirmations hand out every accepted nonce exactly once.
    let mut seen: Vec<u64> = Vec::new();
    for entry in lane.confirm(4).unwrap() {
        for nonce in entry.begin..=entry.end {
            seen.push(nonce);
        }
    }
    for entry in lane.confirm(6).unwrap() {
        for nonce in entry.begin..=entry.end {
            seen.push(nonce);
        }
    }
    assert_eq!(seen, vec![1, 2, 3, 4, 5, 6]);
    assert_eq!(lane.relayers, vec![]);
    assert_eq!(lane.last_confirmed_nonce, 6);
}

#[test]
fn empty_batch_at_the_right_nonce_is_accepted_without_records() {
    let mut lane = InboundLane::new(LaneId(0), limits(16, 16));
    let mut dispatcher = CountingDispatch { dispatched: 0 };
    let outcomes = lane.receive_batch(&mut dispatcher, 7, 1, &vec![]).unwrap();
    assert_eq!(outcomes, vec![]);
    assert_eq!(lane.relayers, vec![]);
}
