use message_lanes::outbound::{OutboundLane, OutboundLaneLimits};
use message_lanes::types::{BridgeError, LaneId, MessagePayload};

fn small_limits(max_pending: u64) -> OutboundLaneLimits {
    OutboundLaneLimits { max_pending_messages: max_pending, max_payload_size: 1024, max_payload_weight: 2048 }
}

fn payload(bytes: Vec<u8>, weight: u64) -> MessagePayload {
    MessagePayload { data: bytes, declared_weight: weight }
}

#[test]
fn nonces_strictly_increase_from_one() {
    let mut lane = OutboundLane::new(LaneId(0), small_limits(32));
    let n1 = lane.enqueue(payload(vec![1, 2, 3, 4, 5], 7)).unwrap();
    let n2 = lane.enqueue(payload(vec![6, 7, 8, 9, 10], 8)).unwrap();
    let n3 = lane.enqueue(payload(vec![11, 12, 13, 14, 15], 9)).unwrap();
    assert_eq!(n1, 1);
    assert_eq!(n2, 2);
    assert_eq!(n3, 3);
    assert!(n1 < n2 && n2 < n3);
    assert_eq!(lane.latest_generated_nonce, 3);
    assert_eq!(lane.latest_received_nonce, 0);
}

#[test]
fn nonces_keep_increasing_after_prune() {
    let mut lane = OutboundLane::new(LaneId(0), small_limits(32));
    let n1 = lane.enqueue(payload(vec![1, 2, 3, 4, 5], 1)).unwrap();
    lane.prune_confirmed(1).unwrap();
    let n2 = lane.enqueue(payload(vec![1, 2, 3, 4, 6], 1)).unwrap();
    assert_eq!(n1, 1);
    assert_eq!(n2, 2);
}

#[test]
fn payload_limit_check_matches_the_configured_maxima() {
    let limits = small_limits(4);
    assert!(limits.check_payload(&payload(vec![0; 1024], 2048)));
    assert!(!limits.check_payload(&payload(vec![0; 1025], 1)));
    assert!(!limits.check_payload(&payload(vec![0; 10], 2049)));
}

#[test]
fn enqueue_backpressure_at_capacity() {
    let mut lane = OutboundLane::new(LaneId(0), small_limits(2));
    lane.enqueue(payload(vec![1, 2, 3, 4, 5], 1)).unwrap();
    lane.enqueue(payload(vec![1, 2, 3, 4, 6], 1)).unwrap();
    let full = lane.enqueue(payload(vec![1, 2, 3, 4, 7], 1));
    assert_eq!(full, Err(BridgeError::QueueCapacityExceeded));
    assert_eq!(lane.latest_generated_nonce, 2);
    // One confirmation relieves the pressure.
    lane.prune_confirmed(1).unwrap();
    let n3 = lane.enqueue(payload(vec![1, 2, 3, 4, 7], 1)).unwrap();
    assert_eq!(n3, 3);
}

#[test]
fn prune_discards_exactly_the_confirmed_payloads() {
    let mut lane = OutboundLane::new(LaneId(0), small_limits(8));
    lane.enqueue(payload(vec![10, 10, 10, 10, 10], 1)).unwrap();
    lane.enqueue(payload(vec![20, 20, 20, 20, 20], 2)).unwrap();
    lane.enqueue(payload(vec![30, 30, 30, 30, 30], 3)).unwrap();
    lane.prune_confirmed(2).unwrap();
    assert_eq!(lane.latest_received_nonce, 2);
    assert_eq!(lane.latest_generated_nonce, 3);
    assert_eq!(lane.queued.len(), 1);
    assert_eq!(lane.queued[0].data, vec![30, 30, 30, 30, 30]);
    assert_eq!(lane.queued[0].declared_weight, 3);
}

#[test]
fn prune_is_idempotent_on_replay() {
    let mut lane = OutboundLane::new(LaneId(0), small_limits(8));
    lane.enqueue(payload(vec![1, 2, 3, 4, 5], 1)).unwrap();
    lane.enqueue(payload(vec![1, 2, 3, 4, 6], 2)).unwrap();
    lane.prune_confirmed(2).unwrap();
    let generated = lane.latest_generated_nonce;
    let received = lane.latest_received_nonce;
    let queued_len = lane.queued.len();
    // Replaying the same confirmation, or an older one, is a no-op success.
    assert_eq!(lane.prune_confirmed(2), Ok(()));
    assert_eq!(lane.prune_confirmed(1), Ok(()));
    assert_eq!(lane.latest_generated_nonce, generated);
    assert_eq!(lane.latest_received_nonce, received);
    assert_eq!(lane.queued.len(), queued_len);
}

#[test]
fn prune_rejects_nonce_never_generated() {
    let mut lane = OutboundLane::new(LaneId(0), small_limits(8));
    lane.enqueue(payload(vec![1, 2, 3, 4, 5], 1)).unwrap();
    assert_eq!(lane.prune_confirmed(2), Err(BridgeError::NonceNotInFlight));
    assert_eq!(lane.latest_received_nonce, 0);
    assert_eq!(lane.queued.len(), 1);
}

#[test]
fn queued_weight_sums_declared_weights() {
    let mut lane = OutboundLane::new(LaneId(0), small_limits(8));
    lane.enqueue(payload(vec![1, 2, 3, 4, 5], 10)).unwrap();
    lane.enqueue(payload(vec![1, 2, 3, 4, 6], 20)).unwrap();
    lane.enqueue(payload(vec![1, 2, 3, 4, 7], 40)).unwrap();
    assert_eq!(lane.queued_weight_between(1, 3), 70);
    assert_eq!(lane.queued_weight_between(2, 3), 60);
    assert_eq!(lane.queued_weight_between(3, 3), 40);
}

#[test]
fn queued_weight_saturates_instead_of_wrapping() {
    let heavy = OutboundLaneLimits {
        max_pending_messages: 8,
        max_payload_size: 1024,
        max_payload_weight: u64::MAX,
    };
    let mut lane = OutboundLane::new(LaneId(0), heavy);
    lane.enqueue(payload(vec![1, 2, 3, 4, 5], u64::MAX)).unwrap();
    lane.enqueue(payload(vec![1, 2, 3, 4, 6], 5)).unwrap();
    assert_eq!(lane.queued_weight_between(1, 2), u64::MAX);
}
