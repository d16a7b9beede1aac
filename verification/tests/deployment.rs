use message_lanes::chains::{
    test_lane_id, BridgedChain, BridgedChainOrigin, BridgedUnderlyingChain,
    BridgedUnderlyingParachain, OnBridgedChainBridge, OnThisChainBridge, ThisChain,
    ThisChainOrigin, ThisHeaderChain, ThisUnderlyingChain, BRIDGED_CHAIN_ID, THIS_CHAIN_ID,
};
use message_lanes::header_chain::HeaderChainOracle;
use message_lanes::rewards::{LinearRewardPolicy, RelayerRewardLedger, RewardPolicy};
use message_lanes::types::{ChainId, LaneId};

#[test]
fn the_two_bridge_halves_mirror_each_other() {
    assert_eq!(OnThisChainBridge::this_chain_id(), ChainId(THIS_CHAIN_ID));
    assert_eq!(OnThisChainBridge::bridged_chain_id(), ChainId(BRIDGED_CHAIN_ID));
    assert_eq!(OnBridgedChainBridge::this_chain_id(), ChainId(BRIDGED_CHAIN_ID));
    assert_eq!(OnBridgedChainBridge::bridged_chain_id(), ChainId(THIS_CHAIN_ID));
}

#[test]
fn only_the_active_lane_accepts_messages() {
    assert!(ThisChain::is_message_accepted(&ThisChainOrigin, &test_lane_id()));
    assert!(!ThisChain::is_message_accepted(&ThisChainOrigin, &LaneId(1)));
    // The bridged side sends nothing in this deployment.
    assert!(!BridgedChain::is_message_accepted(&BridgedChainOrigin, &test_lane_id()));
    assert_eq!(BridgedChain::maximal_pending_messages_at_outbound_lane(), 0);
    assert_eq!(ThisChain::maximal_pending_messages_at_outbound_lane(), 32);
}

#[test]
fn dispatch_weight_window_is_exact() {
    assert!(!ThisChain::verify_dispatch_weight(&vec![0; 4]));
    assert!(ThisChain::verify_dispatch_weight(&vec![0; 5]));
    assert!(ThisChain::verify_dispatch_weight(&vec![0; 2048]));
    assert!(!ThisChain::verify_dispatch_weight(&vec![0; 2049]));
    assert!(BridgedChain::verify_dispatch_weight(&vec![0; 5]));
    assert!(!BridgedChain::verify_dispatch_weight(&vec![0; 2]));
}

#[test]
fn underlying_chain_limits_are_fixed() {
    assert_eq!(ThisUnderlyingChain::max_extrinsic_size(), 1024);
    assert_eq!(ThisUnderlyingChain::max_extrinsic_weight(), 0);
    assert_eq!(BridgedUnderlyingChain::max_extrinsic_size(), 1024);
    assert_eq!(BridgedUnderlyingChain::max_extrinsic_weight(), 0);
    assert_eq!(BridgedUnderlyingParachain::max_extrinsic_size(), 1024);
    assert_eq!(BridgedUnderlyingParachain::max_extrinsic_weight(), 0);
    assert_eq!(BridgedUnderlyingParachain::parachain_id(), 42);
}

#[test]
fn deployment_lane_limits_agree_with_the_chain_constants() {
    let outbound = OnThisChainBridge::outbound_lane_limits();
    assert_eq!(outbound.max_pending_messages, 32);
    assert_eq!(outbound.max_payload_size, 1024);
    assert_eq!(outbound.max_payload_weight, 2048);
    let inbound = OnThisChainBridge::inbound_lane_limits();
    assert_eq!(inbound.max_unrewarded_relayer_entries, 16);
    assert_eq!(inbound.max_unconfirmed_messages, 16);
    assert_eq!(inbound.min_payload_size, 5);
    assert_eq!(inbound.max_payload_size, 1024);
    assert_eq!(inbound.max_payload_weight, 2048);
}

#[test]
fn bridge_config_builds_fresh_lanes_under_its_own_bounds() {
    let config = OnThisChainBridge::bridge_config();
    assert_eq!(config.this_chain_id, ChainId(THIS_CHAIN_ID));
    assert_eq!(config.bridged_chain_id, ChainId(BRIDGED_CHAIN_ID));
    assert_eq!(config.lane, test_lane_id());
    let outbound = config.new_outbound_lane();
    assert_eq!(outbound.latest_generated_nonce, 0);
    assert_eq!(outbound.limits.max_pending_messages, 32);
    let inbound = config.new_inbound_lane();
    assert_eq!(inbound.last_confirmed_nonce, 0);
    assert_eq!(inbound.limits.max_unrewarded_relayer_entries, 16);
}

#[test]
fn header_oracle_answers_only_for_finalized_headers() {
    let oracle = ThisHeaderChain { finalized: vec![(1, 50), (2, 60)] };
    assert_eq!(oracle.finalized_header_state_root(1), Some(50));
    assert_eq!(oracle.finalized_header_state_root(2), Some(60));
    assert_eq!(oracle.finalized_header_state_root(3), None);
    let empty = ThisHeaderChain { finalized: vec![] };
    assert_eq!(empty.finalized_header_state_root(1), None);
}

#[test]
fn ledger_credit_saturates_at_the_maximum() {
    let mut ledger = RelayerRewardLedger::new();
    ledger.credit(1, LaneId(0), u64::MAX - 5);
    ledger.credit(1, LaneId(0), 10);
    assert_eq!(ledger.balance(1, LaneId(0)), u64::MAX);
}

#[test]
fn ledger_keeps_lanes_and_relayers_apart() {
    let mut ledger = RelayerRewardLedger::new();
    ledger.credit(1, LaneId(0), 100);
    ledger.credit(1, LaneId(1), 200);
    ledger.credit(2, LaneId(0), 300);
    assert_eq!(ledger.balance(1, LaneId(0)), 100);
    assert_eq!(ledger.balance(1, LaneId(1)), 200);
    assert_eq!(ledger.balance(2, LaneId(0)), 300);
    assert_eq!(ledger.claim(1, LaneId(0)), 100);
    assert_eq!(ledger.balance(1, LaneId(0)), 0);
    assert_eq!(ledger.balance(1, LaneId(1)), 200);
    assert_eq!(ledger.balance(2, LaneId(0)), 300);
}

#[test]
fn linear_reward_policy_prices_exactly_and_saturates() {
    let policy = LinearRewardPolicy { per_message: 1000, per_weight_unit: 3 };
    assert_eq!(policy.reward(2, 10), 2030);
    assert_eq!(policy.reward(0, 0), 0);
    let greedy = LinearRewardPolicy { per_message: u64::MAX, per_weight_unit: u64::MAX };
    assert_eq!(greedy.reward(2, 2), u64::MAX);
}
