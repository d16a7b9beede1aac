//! The dispatch collaborator: whatever the receiving chain does with a
//! delivered payload. The lane has no knowledge of payload semantics; it
//! only records the outcome the collaborator reports.

use vstd::prelude::*;

use crate::types::{DispatchOutcome, LaneId, MessagePayload};

verus! {

/// A receiver of delivered payloads. The inbound lane forwards every
/// size- and weight-acceptable payload here, one call per nonce, in nonce
/// order. Nothing is promised of the outcome: it is the collaborator's
/// decision, and the lane's own guarantees hold whatever comes back.
pub trait MessageDispatch {
    /// Handle the payload delivered under `nonce` on `lane`.
    fn dispatch(&mut self, lane: LaneId, nonce: u64, payload: &MessagePayload) -> (r: DispatchOutcome);
}

/// A dispatcher that accepts everything and counts the calls. Suitable for
/// deployments (and tests) where dispatch itself cannot fail.
pub struct CountingDispatch {
    /// How many payloads have been handed over so far, saturating.
    pub dispatched: u64,
}

impl MessageDispatch for CountingDispatch {
    fn dispatch(&mut self, _lane: LaneId, _nonce: u64, _payload: &MessagePayload) -> (r: DispatchOutcome)
        ensures
            r == DispatchOutcome::Dispatched,
            final(self).dispatched == if old(self).dispatched < u64::MAX {
                old(self).dispatched + 1
            } else {
                old(self).dispatched as int
            },
    {
        if self.dispatched < u64::MAX {
            self.dispatched = self.dispatched + 1;
        }
        DispatchOutcome::Dispatched
    }
}

/// A dispatcher that refuses every payload, standing in for a chain side
/// that does not accept inbound messages.
pub struct ForbidDispatch {}

impl MessageDispatch for ForbidDispatch {
    fn dispatch(&mut self, _lane: LaneId, _nonce: u64, _payload: &MessagePayload) -> (r: DispatchOutcome)
        ensures
            r == DispatchOutcome::DispatchFailed,
    {
        DispatchOutcome::DispatchFailed
    }
}

} // verus!
