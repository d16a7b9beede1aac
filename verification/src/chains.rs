//! A concrete two-chain deployment of the bridge: the chain the code
//! runs on ("this" chain) bridged to one other chain, with the fixed
//! per-deployment identities and limits, and a swappable finalized-header
//! oracle suitable for driving the protocol in tests and examples.

use vstd::prelude::*;

use crate::config::MessageBridgeConfig;
use crate::header_chain::HeaderChainOracle;
use crate::inbound::InboundLaneLimits;
use crate::outbound::OutboundLaneLimits;
use crate::types::{ChainId, LaneId};

verus! {

/// The one active lane of this deployment.
pub const TEST_LANE_ID: u32 = 0;

/// Identity of the chain this code runs on.
pub const THIS_CHAIN_ID: u32 = 0x74686973;

/// Identity of the bridged chain.
pub const BRIDGED_CHAIN_ID: u32 = 0x62726467;

/// The one active lane, as a lane identifier.
pub fn test_lane_id() -> (r: LaneId)
    ensures
        r == LaneId(TEST_LANE_ID),
{
    LaneId(TEST_LANE_ID)
}

/// Maximal number of queued messages at the active lane.
pub const MAXIMAL_PENDING_MESSAGES_AT_TEST_LANE: u64 = 32;

/// Maximal number of unrewarded-relayer records kept at an inbound lane.
pub const MAX_UNREWARDED_RELAYER_ENTRIES: u64 = 16;

/// Maximal delivered-but-unconfirmed nonce span at an inbound lane.
pub const MAX_UNCONFIRMED_MESSAGES: u64 = 16;

/// Minimal dispatchable payload size at the bridged chain.
pub const BRIDGED_CHAIN_MIN_EXTRINSIC_WEIGHT: u64 = 5;

/// Maximal dispatchable payload size at the bridged chain.
pub const BRIDGED_CHAIN_MAX_EXTRINSIC_WEIGHT: u64 = 2048;

/// Maximal extrinsic size at either chain.
pub const BRIDGED_CHAIN_MAX_EXTRINSIC_SIZE: u32 = 1024;

/// Underlying chain of `ThisChain`: its raw transaction limits.
pub struct ThisUnderlyingChain;

impl ThisUnderlyingChain {
    /// Largest transaction this chain accepts, in bytes.
    pub fn max_extrinsic_size() -> (r: u32)
        ensures
            r == BRIDGED_CHAIN_MAX_EXTRINSIC_SIZE,
    {
        BRIDGED_CHAIN_MAX_EXTRINSIC_SIZE
    }

    /// Largest dispatch weight this chain accepts: the zero weight —
    /// this stand-in prices no dispatches. The payload-length window of
    /// `verify_dispatch_weight` is a separate bound.
    pub fn max_extrinsic_weight() -> (r: u64)
        ensures
            r == 0,
    {
        0
    }
}

/// Underlying chain of `BridgedChain`: its raw transaction limits.
pub struct BridgedUnderlyingChain;

impl BridgedUnderlyingChain {
    /// Largest transaction this chain accepts, in bytes.
    pub fn max_extrinsic_size() -> (r: u32)
        ensures
            r == BRIDGED_CHAIN_MAX_EXTRINSIC_SIZE,
    {
        BRIDGED_CHAIN_MAX_EXTRINSIC_SIZE
    }

    /// Largest dispatch weight this chain accepts: the zero weight —
    /// this stand-in prices no dispatches. The payload-length window of
    /// `verify_dispatch_weight` is a separate bound.
    pub fn max_extrinsic_weight() -> (r: u64)
        ensures
            r == 0,
    {
        0
    }
}

/// A parachain settling under the bridged chain's consensus.
pub struct BridgedUnderlyingParachain;

impl BridgedUnderlyingParachain {
    /// The parachain's identifier under its relay consensus.
    pub fn parachain_id() -> (r: u32)
        ensures
            r == 42,
    {
        42
    }

    /// Largest transaction this parachain accepts, in bytes.
    pub fn max_extrinsic_size() -> (r: u32)
        ensures
            r == BRIDGED_CHAIN_MAX_EXTRINSIC_SIZE,
    {
        BRIDGED_CHAIN_MAX_EXTRINSIC_SIZE
    }

    /// Largest dispatch weight this parachain accepts: the zero weight —
    /// this stand-in prices no dispatches.
    pub fn max_extrinsic_weight() -> (r: u64)
        ensures
            r == 0,
    {
        0
    }
}

/// Call origin at `ThisChain`.
pub struct ThisChainOrigin;

/// Call origin at `BridgedChain`.
pub struct BridgedChainOrigin;

/// An opaque runtime call of the `BridgedChain`; its meaning belongs to
/// that chain's dispatcher, never to the lane.
pub struct BridgedChainCall;

/// The chain this code runs on, as a message endpoint.
pub struct ThisChain;

impl ThisChain {
    /// Whether this deployment lets `origin` send over `lane`: only the
    /// one active lane is open.
    pub fn is_message_accepted(_send_origin: &ThisChainOrigin, lane: &LaneId) -> (r: bool)
        ensures
            r == (*lane == LaneId(TEST_LANE_ID)),
    {
        lane.0 == TEST_LANE_ID
    }

    /// How many messages may wait unconfirmed on an outbound lane here.
    pub fn maximal_pending_messages_at_outbound_lane() -> (r: u64)
        ensures
            r == MAXIMAL_PENDING_MESSAGES_AT_TEST_LANE,
    {
        MAXIMAL_PENDING_MESSAGES_AT_TEST_LANE
    }

    /// Whether a payload's size passes this chain's dispatch window.
    pub fn verify_dispatch_weight(message_payload: &Vec<u8>) -> (r: bool)
        ensures
            r == (BRIDGED_CHAIN_MIN_EXTRINSIC_WEIGHT <= message_payload@.len()
                <= BRIDGED_CHAIN_MAX_EXTRINSIC_WEIGHT),
    {
        let len: u64 = message_payload.len() as u64;
        len >= BRIDGED_CHAIN_MIN_EXTRINSIC_WEIGHT && len <= BRIDGED_CHAIN_MAX_EXTRINSIC_WEIGHT
    }
}

/// The other, bridged chain, as a message endpoint. In this deployment
/// it only receives: nothing may be sent from its side.
pub struct BridgedChain;

impl BridgedChain {
    /// Whether the bridged side lets `origin` send over `lane`: never,
    /// in this deployment.
    pub fn is_message_accepted(_send_origin: &BridgedChainOrigin, _lane: &LaneId) -> (r: bool)
        ensures
            r == false,
    {
        false
    }

    /// How many messages may wait unconfirmed on an outbound lane of the
    /// bridged side: none, since it sends nothing here.
    pub fn maximal_pending_messages_at_outbound_lane() -> (r: u64)
        ensures
            r == 0,
    {
        0
    }

    /// Whether a payload's size passes the bridged chain's dispatch
    /// window.
    pub fn verify_dispatch_weight(message_payload: &Vec<u8>) -> (r: bool)
        ensures
            r == (BRIDGED_CHAIN_MIN_EXTRINSIC_WEIGHT <= message_payload@.len()
                <= BRIDGED_CHAIN_MAX_EXTRINSIC_WEIGHT),
    {
        let len: u64 = message_payload.len() as u64;
        len >= BRIDGED_CHAIN_MIN_EXTRINSIC_WEIGHT && len <= BRIDGED_CHAIN_MAX_EXTRINSIC_WEIGHT
    }
}

/// Which root a header-chain oracle built on a list of (header, root)
/// pairs answers for `header`: the first pair's root.
pub open spec fn spec_root_lookup(finalized: Seq<(u64, u64)>, header: u64) -> Option<u64>
    decreases finalized.len(),
{
    if finalized.len() == 0 {
        None
    } else if finalized[0].0 == header {
        Some(finalized[0].1)
    } else {
        spec_root_lookup(finalized.drop_first(), header)
    }
}

/// Finalized-header oracle for `ThisChain` as seen from the bridged
/// side: a swappable stand-in fed with (header, state root) pairs, one
/// per finalized header it should answer for.
pub struct ThisHeaderChain {
    /// The finalized headers and their state roots.
    pub finalized: Vec<(u64, u64)>,
}

impl HeaderChainOracle for ThisHeaderChain {
    open spec fn spec_finalized_root(&self, header: u64) -> Option<u64> {
        spec_root_lookup(self.finalized@, header)
    }

    fn finalized_header_state_root(&self, header: u64) -> (r: Option<u64>) {
        let mut i: usize = 0;
        proof {
            assert(self.finalized@.skip(0) =~= self.finalized@);
        }
        while i < self.finalized.len()
            invariant
                0 <= i <= self.finalized@.len(),
                spec_root_lookup(self.finalized@, header) == spec_root_lookup(
                    self.finalized@.skip(i as int),
                    header,
                ),
                forall|j: int| 0 <= j < i ==> (#[trigger] self.finalized@[j].0) != header,
            decreases self.finalized@.len() - i,
        {
            let pair = self.finalized[i];
            if pair.0 == header {
                proof {
                    assert(self.finalized@.skip(i as int)[0] == self.finalized@[i as int]);
                }
                return Some(pair.1);
            }
            i = i + 1;
            proof {
                assert(self.finalized@.skip(i - 1).drop_first() =~= self.finalized@.skip(i as int));
                assert(self.finalized@.skip(i - 1)[0] == self.finalized@[i - 1]);
            }
        }
        proof {
            assert(self.finalized@.skip(self.finalized@.len() as int).len() == 0);
        }
        None
    }
}

/// The bridge as deployed on `ThisChain`: sending to and receiving from
/// `BridgedChain`, under this deployment's identities and limits.
pub struct OnThisChainBridge;

impl OnThisChainBridge {
    /// Identity of the chain this bridge half runs on.
    pub fn this_chain_id() -> (r: ChainId)
        ensures
            r == ChainId(THIS_CHAIN_ID),
    {
        ChainId(THIS_CHAIN_ID)
    }

    /// Identity of the chain this bridge half talks to.
    pub fn bridged_chain_id() -> (r: ChainId)
        ensures
            r == ChainId(BRIDGED_CHAIN_ID),
    {
        ChainId(BRIDGED_CHAIN_ID)
    }

    /// The sending-side limits this deployment fixes.
    pub fn outbound_lane_limits() -> (r: OutboundLaneLimits)
        ensures
            r.max_pending_messages == MAXIMAL_PENDING_MESSAGES_AT_TEST_LANE,
            r.max_payload_size == BRIDGED_CHAIN_MAX_EXTRINSIC_SIZE,
            r.max_payload_weight == BRIDGED_CHAIN_MAX_EXTRINSIC_WEIGHT,
    {
        OutboundLaneLimits {
            max_pending_messages: MAXIMAL_PENDING_MESSAGES_AT_TEST_LANE,
            max_payload_size: BRIDGED_CHAIN_MAX_EXTRINSIC_SIZE as u64,
            max_payload_weight: BRIDGED_CHAIN_MAX_EXTRINSIC_WEIGHT,
        }
    }

    /// The whole deployment configuration of this bridge half.
    pub fn bridge_config() -> (r: MessageBridgeConfig)
        ensures
            r.wf(),
            r.this_chain_id == ChainId(THIS_CHAIN_ID),
            r.bridged_chain_id == ChainId(BRIDGED_CHAIN_ID),
            r.lane == LaneId(TEST_LANE_ID),
            r.outbound_limits.max_pending_messages == MAXIMAL_PENDING_MESSAGES_AT_TEST_LANE,
            r.inbound_limits.max_unrewarded_relayer_entries == MAX_UNREWARDED_RELAYER_ENTRIES,
            r.inbound_limits.max_unconfirmed_messages == MAX_UNCONFIRMED_MESSAGES,
    {
        MessageBridgeConfig {
            this_chain_id: ChainId(THIS_CHAIN_ID),
            bridged_chain_id: ChainId(BRIDGED_CHAIN_ID),
            lane: LaneId(TEST_LANE_ID),
            outbound_limits: Self::outbound_lane_limits(),
            inbound_limits: Self::inbound_lane_limits(),
        }
    }

    /// The receiving-side limits this deployment fixes.
    pub fn inbound_lane_limits() -> (r: InboundLaneLimits)
        ensures
            r.max_unrewarded_relayer_entries == MAX_UNREWARDED_RELAYER_ENTRIES,
            r.max_unconfirmed_messages == MAX_UNCONFIRMED_MESSAGES,
            r.min_payload_size == BRIDGED_CHAIN_MIN_EXTRINSIC_WEIGHT,
            r.max_payload_size == BRIDGED_CHAIN_MAX_EXTRINSIC_SIZE,
            r.max_payload_weight == BRIDGED_CHAIN_MAX_EXTRINSIC_WEIGHT,
    {
        InboundLaneLimits {
            max_unrewarded_relayer_entries: MAX_UNREWARDED_RELAYER_ENTRIES,
            max_unconfirmed_messages: MAX_UNCONFIRMED_MESSAGES,
            min_payload_size: BRIDGED_CHAIN_MIN_EXTRINSIC_WEIGHT,
            max_payload_size: BRIDGED_CHAIN_MAX_EXTRINSIC_SIZE as u64,
            max_payload_weight: BRIDGED_CHAIN_MAX_EXTRINSIC_WEIGHT,
        }
    }
}

/// The bridge as deployed on `BridgedChain`: the mirror half, with the
/// identities swapped.
pub struct OnBridgedChainBridge;

impl OnBridgedChainBridge {
    /// Identity of the chain this bridge half runs on.
    pub fn this_chain_id() -> (r: ChainId)
        ensures
            r == ChainId(BRIDGED_CHAIN_ID),
    {
        ChainId(BRIDGED_CHAIN_ID)
    }

    /// Identity of the chain this bridge half talks to.
    pub fn bridged_chain_id() -> (r: ChainId)
        ensures
            r == ChainId(THIS_CHAIN_ID),
    {
        ChainId(THIS_CHAIN_ID)
    }
}

} // verus!
