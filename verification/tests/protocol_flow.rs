use message_lanes::chains::ThisHeaderChain;
use message_lanes::codec::{encode_lane_state, encode_payload};
use message_lanes::dispatch::CountingDispatch;
use message_lanes::inbound::{InboundLane, InboundLaneLimits, UnrewardedRelayerEntry};
use message_lanes::outbound::{OutboundLane, OutboundLaneLimits};
use message_lanes::protocol::{
    confirm_delivery, deliver_messages, DeliveryProof, MessagesProof, LANE_STATE_KEY,
};
use message_lanes::rewards::{LinearRewardPolicy, RelayerRewardLedger};
use message_lanes::storage_proof::{StorageItem, StorageProof};
use message_lanes::types::{BridgeError, DispatchOutcome, LaneId, MessagePayload};

const RELAYER_X: u64 = 100;

fn lane_id() -> LaneId {
    LaneId(0)
}

fn inbound_limits() -> InboundLaneLimits {
    InboundLaneLimits {
        max_unrewarded_relayer_entries: 16,
        max_unconfirmed_messages: 16,
        min_payload_size: 5,
        max_payload_size: 1024,
        max_payload_weight: 2048,
    }
}

fn outbound_limits() -> OutboundLaneLimits {
    OutboundLaneLimits { max_pending_messages: 32, max_payload_size: 1024, max_payload_weight: 2048 }
}

fn payload(fill: u8, weight: u64) -> MessagePayload {
    MessagePayload { data: vec![fill; 5], declared_weight: weight }
}

/// A witness committing two payloads under their nonces 1 and 2.
fn two_message_witness(root: u64) -> StorageProof {
    StorageProof {
        root,
        items: vec![
            StorageItem { key: 1, value: encode_payload(&payload(0xa1, 10)) },
            StorageItem { key: 2, value: encode_payload(&payload(0xa2, 20)) },
        ],
    }
}

fn two_message_proof(header: u64, root: u64) -> MessagesProof {
    MessagesProof { header, witness: two_message_witness(root), lane: lane_id(), first_nonce: 1, last_nonce: 2 }
}

#[test]
fn delivery_flow_accepts_a_proven_batch() {
    let oracle = ThisHeaderChain { finalized: vec![(5, 77)] };
    let mut lane = InboundLane::new(lane_id(), inbound_limits());
    let mut dispatcher = CountingDispatch { dispatched: 0 };
    let outcomes =
        deliver_messages(&oracle, &mut lane, &mut dispatcher, RELAYER_X, &two_message_proof(5, 77))
            .unwrap();
    assert_eq!(outcomes, vec![DispatchOutcome::Dispatched, DispatchOutcome::Dispatched]);
    assert_eq!(lane.relayers, vec![UnrewardedRelayerEntry { relayer: RELAYER_X, begin: 1, end: 2 }]);
    assert_eq!(dispatcher.dispatched, 2);
}

#[test]
fn delivery_against_stale_finalized_header_still_succeeds() {
    // The oracle knows a newer finalized header (6), but the proof is
    // rooted in the older finalized header 5: only proof/root consistency
    // matters, not recency.
    let oracle = ThisHeaderChain { finalized: vec![(5, 77), (6, 99)] };
    let mut lane = InboundLane::new(lane_id(), inbound_limits());
    let mut dispatcher = CountingDispatch { dispatched: 0 };
    let outcomes =
        deliver_messages(&oracle, &mut lane, &mut dispatcher, RELAYER_X, &two_message_proof(5, 77))
            .unwrap();
    assert_eq!(outcomes.len(), 2);
    assert_eq!(lane.relayers, vec![UnrewardedRelayerEntry { relayer: RELAYER_X, begin: 1, end: 2 }]);
}

#[test]
fn delivery_fails_when_header_is_not_finalized() {
    let oracle = ThisHeaderChain { finalized: vec![(5, 77)] };
    let mut lane = InboundLane::new(lane_id(), inbound_limits());
    let mut dispatcher = CountingDispatch { dispatched: 0 };
    let r = deliver_messages(&oracle, &mut lane, &mut dispatcher, RELAYER_X, &two_message_proof(6, 77));
    assert_eq!(r.unwrap_err(), BridgeError::HeaderNotFinalized);
    assert_eq!(lane.relayers, vec![]);
}

#[test]
fn delivery_fails_on_root_mismatch() {
    let oracle = ThisHeaderChain { finalized: vec![(5, 77)] };
    let mut lane = InboundLane::new(lane_id(), inbound_limits());
    let mut dispatcher = CountingDispatch { dispatched: 0 };
    // The witness commits to root 123, but header 5 finalized root 77.
    let r = deliver_messages(&oracle, &mut lane, &mut dispatcher, RELAYER_X, &two_message_proof(5, 123));
    assert_eq!(r.unwrap_err(), BridgeError::InvalidProof);
    assert_eq!(lane.relayers, vec![]);
}

#[test]
fn delivery_fails_on_malformed_witness() {
    let oracle = ThisHeaderChain { finalized: vec![(5, 77)] };
    let mut lane = InboundLane::new(lane_id(), inbound_limits());
    let mut dispatcher = CountingDispatch { dispatched: 0 };
    let mut proof = two_message_proof(5, 77);
    proof.witness.items.swap(0, 1);
    let r = deliver_messages(&oracle, &mut lane, &mut dispatcher, RELAYER_X, &proof);
    assert_eq!(r.unwrap_err(), BridgeError::InvalidProof);
}

#[test]
fn delivery_fails_when_a_claimed_nonce_is_missing() {
    let oracle = ThisHeaderChain { finalized: vec![(5, 77)] };
    let mut lane = InboundLane::new(lane_id(), inbound_limits());
    let mut dispatcher = CountingDispatch { dispatched: 0 };
    let mut proof = two_message_proof(5, 77);
    proof.last_nonce = 3;
    let r = deliver_messages(&oracle, &mut lane, &mut dispatcher, RELAYER_X, &proof);
    assert_eq!(r.unwrap_err(), BridgeError::InvalidProof);
}

#[test]
fn delivery_rejects_whole_batch_on_one_undecodable_payload() {
    let oracle = ThisHeaderChain { finalized: vec![(5, 77)] };
    let mut lane = InboundLane::new(lane_id(), inbound_limits());
    let mut dispatcher = CountingDispatch { dispatched: 0 };
    let mut proof = two_message_proof(5, 77);
    // Too short to carry even the declared weight.
    proof.witness.items[1].value = vec![1, 2, 3];
    let r = deliver_messages(&oracle, &mut lane, &mut dispatcher, RELAYER_X, &proof);
    assert_eq!(r.unwrap_err(), BridgeError::PayloadDecodeError);
    // Nothing was dispatched: the batch is rejected as a whole.
    assert_eq!(dispatcher.dispatched, 0);
    assert_eq!(lane.relayers, vec![]);
}

#[test]
fn delivery_propagates_nonce_order_failure() {
    let oracle = ThisHeaderChain { finalized: vec![(5, 77)] };
    let mut lane = InboundLane::new(lane_id(), inbound_limits());
    let mut dispatcher = CountingDispatch { dispatched: 0 };
    let mut proof = two_message_proof(5, 77);
    proof.first_nonce = 2;
    proof.last_nonce = 2;
    let r = deliver_messages(&oracle, &mut lane, &mut dispatcher, RELAYER_X, &proof);
    assert_eq!(r.unwrap_err(), BridgeError::InvalidNonceOrder);
}

/// A witness revealing an inbound lane's state under the lane-state key.
fn lane_state_witness(root: u64, floor: u64, entries: Vec<UnrewardedRelayerEntry>) -> StorageProof {
    StorageProof {
        root,
        items: vec![StorageItem { key: LANE_STATE_KEY, value: encode_lane_state(floor, &entries) }],
    }
}

#[test]
fn confirmation_flow_prunes_and_credits_the_relayer() {
    let oracle = ThisHeaderChain { finalized: vec![(9, 88)] };
    let mut out_lane = OutboundLane::new(lane_id(), outbound_limits());
    out_lane.enqueue(payload(0xa1, 10)).unwrap();
    out_lane.enqueue(payload(0xa2, 20)).unwrap();
    let mut ledger = RelayerRewardLedger::new();
    let policy = LinearRewardPolicy { per_message: 1000, per_weight_unit: 1 };
    let proof = DeliveryProof {
        header: 9,
        witness: lane_state_witness(
            88,
            0,
            vec![UnrewardedRelayerEntry { relayer: RELAYER_X, begin: 1, end: 2 }],
        ),
        lane: lane_id(),
    };
    let confirmed = confirm_delivery(&oracle, &mut out_lane, &mut ledger, &policy, &proof).unwrap();
    assert_eq!(confirmed, 2);
    assert_eq!(out_lane.latest_received_nonce, 2);
    assert_eq!(out_lane.queued.len(), 0);
    // Two messages, declared weights 10 + 20.
    assert_eq!(ledger.balance(RELAYER_X, lane_id()), 2 * 1000 + 30);
}

#[test]
fn replayed_confirmation_never_credits_twice() {
    let oracle = ThisHeaderChain { finalized: vec![(9, 88)] };
    let mut out_lane = OutboundLane::new(lane_id(), outbound_limits());
    out_lane.enqueue(payload(0xa1, 10)).unwrap();
    out_lane.enqueue(payload(0xa2, 20)).unwrap();
    let mut ledger = RelayerRewardLedger::new();
    let policy = LinearRewardPolicy { per_message: 1000, per_weight_unit: 1 };
    let proof = DeliveryProof {
        header: 9,
        witness: lane_state_witness(
            88,
            0,
            vec![UnrewardedRelayerEntry { relayer: RELAYER_X, begin: 1, end: 2 }],
        ),
        lane: lane_id(),
    };
    confirm_delivery(&oracle, &mut out_lane, &mut ledger, &policy, &proof).unwrap();
    let balance_after_first = ledger.balance(RELAYER_X, lane_id());
    // The same proof again: a stale confirmation, a no-op success.
    let again = confirm_delivery(&oracle, &mut out_lane, &mut ledger, &policy, &proof).unwrap();
    assert_eq!(again, 2);
    assert_eq!(out_lane.latest_received_nonce, 2);
    assert_eq!(ledger.balance(RELAYER_X, lane_id()), balance_after_first);
}

#[test]
fn confirmation_splits_rewards_between_relayers() {
    let oracle = ThisHeaderChain { finalized: vec![(9, 88)] };
    let mut out_lane = OutboundLane::new(lane_id(), outbound_limits());
    out_lane.enqueue(payload(0xa1, 10)).unwrap();
    out_lane.enqueue(payload(0xa2, 20)).unwrap();
    out_lane.enqueue(payload(0xa3, 40)).unwrap();
    let mut ledger = RelayerRewardLedger::new();
    let policy = LinearRewardPolicy { per_message: 1000, per_weight_unit: 1 };
    let proof = DeliveryProof {
        header: 9,
        witness: lane_state_witness(
            88,
            0,
            vec![
                UnrewardedRelayerEntry { relayer: 100, begin: 1, end: 2 },
                UnrewardedRelayerEntry { relayer: 200, begin: 3, end: 3 },
            ],
        ),
        lane: lane_id(),
    };
    confirm_delivery(&oracle, &mut out_lane, &mut ledger, &policy, &proof).unwrap();
    assert_eq!(ledger.balance(100, lane_id()), 2 * 1000 + 30);
    assert_eq!(ledger.balance(200, lane_id()), 1 * 1000 + 40);
    // Claiming empties the cell and hands the amount out once.
    assert_eq!(ledger.claim(100, lane_id()), 2030);
    assert_eq!(ledger.balance(100, lane_id()), 0);
    assert_eq!(ledger.balance(200, lane_id()), 1040);
}

#[test]
fn confirmation_fails_when_header_is_not_finalized() {
    let oracle = ThisHeaderChain { finalized: vec![(9, 88)] };
    let mut out_lane = OutboundLane::new(lane_id(), outbound_limits());
    out_lane.enqueue(payload(0xa1, 10)).unwrap();
    let mut ledger = RelayerRewardLedger::new();
    let policy = LinearRewardPolicy { per_message: 1000, per_weight_unit: 1 };
    let proof = DeliveryProof {
        header: 10,
        witness: lane_state_witness(
            88,
            0,
            vec![UnrewardedRelayerEntry { relayer: RELAYER_X, begin: 1, end: 1 }],
        ),
        lane: lane_id(),
    };
    let r = confirm_delivery(&oracle, &mut out_lane, &mut ledger, &policy, &proof);
    assert_eq!(r.unwrap_err(), BridgeError::HeaderNotFinalized);
    assert_eq!(out_lane.latest_received_nonce, 0);
    assert_eq!(ledger.balance(RELAYER_X, lane_id()), 0);
}

#[test]
fn confirmation_fails_on_snapshot_claiming_unknown_nonces() {
    let oracle = ThisHeaderChain { finalized: vec![(9, 88)] };
    let mut out_lane = OutboundLane::new(lane_id(), outbound_limits());
    out_lane.enqueue(payload(0xa1, 10)).unwrap();
    let mut ledger = RelayerRewardLedger::new();
    let policy = LinearRewardPolicy { per_message: 1000, per_weight_unit: 1 };
    // The snapshot claims delivery of nonces 1-2, but only 1 was generated.
    let proof = DeliveryProof {
        header: 9,
        witness: lane_state_witness(
            88,
            0,
            vec![UnrewardedRelayerEntry { relayer: RELAYER_X, begin: 1, end: 2 }],
        ),
        lane: lane_id(),
    };
    let r = confirm_delivery(&oracle, &mut out_lane, &mut ledger, &policy, &proof);
    assert_eq!(r.unwrap_err(), BridgeError::NonceNotInFlight);
    assert_eq!(out_lane.latest_received_nonce, 0);
    assert_eq!(ledger.balance(RELAYER_X, lane_id()), 0);
}

#[test]
fn confirmation_fails_on_ill_formed_snapshot() {
    let oracle = ThisHeaderChain { finalized: vec![(9, 88)] };
    let mut out_lane = OutboundLane::new(lane_id(), outbound_limits());
    out_lane.enqueue(payload(0xa1, 10)).unwrap();
    out_lane.enqueue(payload(0xa2, 10)).unwrap();
    let mut ledger = RelayerRewardLedger::new();
    let policy = LinearRewardPolicy { per_message: 1000, per_weight_unit: 1 };
    // Records with a gap: nonce 2 was skipped. No honest chain commits this.
    let proof = DeliveryProof {
        header: 9,
        witness: lane_state_witness(
            88,
            0,
            vec![
                UnrewardedRelayerEntry { relayer: RELAYER_X, begin: 1, end: 1 },
                UnrewardedRelayerEntry { relayer: RELAYER_X, begin: 3, end: 3 },
            ],
        ),
        lane: lane_id(),
    };
    let r = confirm_delivery(&oracle, &mut out_lane, &mut ledger, &policy, &proof);
    assert_eq!(r.unwrap_err(), BridgeError::InvalidProof);
    assert_eq!(out_lane.latest_received_nonce, 0);
}
