//! Static per-deployment configuration: which two chains are bridged,
//! over which lane, and under which lane bounds. One value of this is
//! fixed when a bridge is deployed and injected into the lane
//! constructors; nothing in it ever changes at run time.

use vstd::prelude::*;

use crate::inbound::{InboundLane, InboundLaneLimits};
use crate::outbound::{OutboundLane, OutboundLaneLimits};
use crate::types::{ChainId, LaneId};

verus! {

/// Identity and bounds of one deployed bridge: the two chain identities,
/// the lane it serves, and the per-lane resource bounds of both sides.
#[derive(Clone, Copy, PartialEq, Eq, Structural, Debug)]
pub struct MessageBridgeConfig {
    /// Identity of the chain this configuration is deployed on.
    pub this_chain_id: ChainId,
    /// Identity of the chain on the other end of the bridge.
    pub bridged_chain_id: ChainId,
    /// The lane this bridge serves.
    pub lane: LaneId,
    /// Sending-side bounds.
    pub outbound_limits: OutboundLaneLimits,
    /// Receiving-side bounds.
    pub inbound_limits: InboundLaneLimits,
}

impl MessageBridgeConfig {
    /// A sane deployment bridges two distinct chains.
    pub open spec fn wf(self) -> bool {
        self.this_chain_id != self.bridged_chain_id
    }

    /// A fresh outbound lane under this configuration.
    pub fn new_outbound_lane(&self) -> (r: OutboundLane)
        ensures
            r.wf(),
            r.lane == self.lane,
            r.limits == self.outbound_limits,
            r.latest_generated_nonce == 0,
            r.latest_received_nonce == 0,
            r.queued@.len() == 0,
    {
        OutboundLane::new(self.lane, self.outbound_limits)
    }

    /// A fresh inbound lane under this configuration.
    pub fn new_inbound_lane(&self) -> (r: InboundLane)
        ensures
            r.wf(),
            r.lane == self.lane,
            r.limits == self.inbound_limits,
            r.last_confirmed_nonce == 0,
            r.relayers@.len() == 0,
    {
        InboundLane::new(self.lane, self.inbound_limits)
    }
}

} // verus!
