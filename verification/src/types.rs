//! Core data types shared by every part of the bridge: lane identifiers,
//! nonces, payloads, dispatch outcomes and the error taxonomy.

use vstd::prelude::*;

verus! {

/// Identifier of one logical bidirectional message channel between the two
/// chains. Lanes are independent: the state of one lane never affects
/// another. The identifier is an opaque fixed-size (4-byte) value.
#[derive(Clone, Copy, PartialEq, Eq, Structural, Debug)]
pub struct LaneId(pub u32);

/// Identifier of one of the two bridged chains (4-byte, opaque).
#[derive(Clone, Copy, PartialEq, Eq, Structural, Debug)]
pub struct ChainId(pub u32);

/// An application payload carried over a lane: an opaque byte sequence plus
/// the dispatch weight the sender declares for it. Its interpretation
/// belongs to the external dispatch collaborator, not to the lane.
#[derive(Debug)]
pub struct MessagePayload {
    /// Opaque application bytes.
    pub data: Vec<u8>,
    /// Dispatch weight the sender declares this payload will consume.
    pub declared_weight: u64,
}

/// Outcome of handing one delivered message to the dispatch collaborator.
#[derive(Clone, Copy, PartialEq, Eq, Structural, Debug)]
pub enum DispatchOutcome {
    /// The payload was forwarded and the collaborator dispatched it.
    Dispatched,
    /// The payload was forwarded but the collaborator failed to dispatch it.
    DispatchFailed,
    /// The payload was not forwarded: it violated the receiving chain's
    /// declared size or weight limits. It still consumes its nonce.
    Rejected,
}

/// Everything that can go wrong in this core. No error is fatal: every
/// failure is a rejected call that leaves all lane state unchanged.
#[derive(Clone, Copy, PartialEq, Eq, Structural, Debug)]
pub enum BridgeError {
    /// No header has been finalized yet for the referenced header, so the
    /// proof cannot be verified. Retryable with a later proof.
    HeaderNotFinalized,
    /// The storage proof failed verification against the finalized root.
    InvalidProof,
    /// An entry of a verified proof failed to decode; the whole batch is
    /// rejected before any dispatch occurs.
    PayloadDecodeError,
    /// A delivery batch did not start at the expected next nonce.
    InvalidNonceOrder,
    /// A confirmation named a nonce that is not currently in flight.
    NonceNotInFlight,
    /// Accepting the batch would exceed the inbound lane's configured
    /// unrewarded-relayer-entries or unconfirmed-messages bound.
    LaneCapacityExceeded,
    /// The outbound lane already holds the configured maximum of pending
    /// messages; the sender must wait for confirmations.
    QueueCapacityExceeded,
}

} // verus!
