//! Sender-side lane state: the queue of generated-but-unconfirmed messages.
//!
//! An outbound lane tracks the highest nonce ever handed out
//! (`latest_generated_nonce`), the highest nonce the receiving chain has
//! confirmed (`latest_received_nonce`), and the payloads queued in between.
//! Nonces start at 1; 0 means "no message yet".

use vstd::prelude::*;

use crate::types::{BridgeError, LaneId, MessagePayload};

verus! {

/// Static per-deployment bounds for one outbound lane.
#[derive(Clone, Copy, PartialEq, Eq, Structural, Debug)]
pub struct OutboundLaneLimits {
    /// Maximal number of queued-but-unconfirmed messages.
    pub max_pending_messages: u64,
    /// Maximal byte length of a single payload.
    pub max_payload_size: u64,
    /// Maximal declared dispatch weight of a single payload.
    pub max_payload_weight: u64,
}

impl OutboundLaneLimits {
    /// A payload the sending side may queue: within the configured
    /// per-message size and weight maxima.
    pub open spec fn payload_within_limits(self, payload: MessagePayload) -> bool {
        payload.data@.len() <= self.max_payload_size
            && payload.declared_weight <= self.max_payload_weight
    }

    /// Runtime form of [`Self::payload_within_limits`], for the caller
    /// that must establish it before queueing.
    pub fn check_payload(&self, payload: &MessagePayload) -> (b: bool)
        ensures
            b == self.payload_within_limits(*payload),
    {
        (payload.data.len() as u64) <= self.max_payload_size
            && payload.declared_weight <= self.max_payload_weight
    }
}

/// State of one lane as seen by the chain that sends over it.
pub struct OutboundLane {
    /// The lane this state belongs to.
    pub lane: LaneId,
    /// Configured bounds, fixed at construction.
    pub limits: OutboundLaneLimits,
    /// Highest nonce ever enqueued on this lane (0 before the first).
    pub latest_generated_nonce: u64,
    /// Highest nonce the receiving chain has confirmed delivered.
    pub latest_received_nonce: u64,
    /// Payloads for the nonces in `(latest_received_nonce, latest_generated_nonce]`,
    /// in nonce order: `queued[i]` carries nonce `latest_received_nonce + 1 + i`.
    pub queued: Vec<MessagePayload>,
}

impl OutboundLane {
    /// Number of queued-but-unconfirmed messages.
    pub open spec fn pending(self) -> int {
        self.latest_generated_nonce - self.latest_received_nonce
    }

    /// Well-formedness invariant: confirmed never runs ahead of generated,
    /// exactly the in-flight payloads are stored, and the pending count
    /// respects the configured bound.
    pub open spec fn wf(self) -> bool {
        &&& self.latest_received_nonce <= self.latest_generated_nonce
        &&& self.queued@.len() == self.pending()
        &&& self.pending() <= self.limits.max_pending_messages
        &&& forall|i: int| 0 <= i < self.queued@.len()
                ==> self.limits.payload_within_limits(#[trigger] self.queued@[i])
    }

    /// A fresh lane: nothing generated, nothing confirmed, nothing queued.
    pub fn new(lane: LaneId, limits: OutboundLaneLimits) -> (r: OutboundLane)
        ensures
            r.wf(),
            r.lane == lane,
            r.limits == limits,
            r.latest_generated_nonce == 0,
            r.latest_received_nonce == 0,
            r.queued@.len() == 0,
    {
        OutboundLane { lane, limits, latest_generated_nonce: 0, latest_received_nonce: 0, queued: Vec::new() }
    }

    /// True when the lane can accept one more message.
    pub open spec fn accepts_enqueue(self) -> bool {
        self.pending() < self.limits.max_pending_messages
    }

    /// Queue one payload for delivery. Fails with `QueueCapacityExceeded`
    /// exactly when the lane already holds the configured maximum of
    /// pending messages; on success returns the newly assigned nonce,
    /// which is one above every nonce returned before.
    pub fn enqueue(&mut self, payload: MessagePayload) -> (r: Result<u64, BridgeError>)
        requires
            old(self).wf(),
            old(self).limits.payload_within_limits(payload),
            old(self).latest_generated_nonce < u64::MAX,
        ensures
            final(self).wf(),
            r is Err <==> !old(self).accepts_enqueue(),
            r is Err ==> r == Err::<u64, BridgeError>(BridgeError::QueueCapacityExceeded)
                && *final(self) == *old(self),
            r is Ok ==> {
                &&& r == Ok::<u64, BridgeError>((old(self).latest_generated_nonce + 1) as u64)
                &&& final(self).latest_generated_nonce == old(self).latest_generated_nonce + 1
                &&& final(self).latest_received_nonce == old(self).latest_received_nonce
                &&& final(self).queued@ == old(self).queued@.push(payload)
                &&& final(self).lane == old(self).lane
                &&& final(self).limits == old(self).limits
            },
    {
        if self.latest_generated_nonce - self.latest_received_nonce >= self.limits.max_pending_messages {
            return Err(BridgeError::QueueCapacityExceeded);
        }
        self.latest_generated_nonce = self.latest_generated_nonce + 1;
        self.queued.push(payload);
        Ok(self.latest_generated_nonce)
    }

    /// True when confirming up to `nonce` is a stale no-op.
    pub open spec fn confirmation_is_stale(self, nonce: u64) -> bool {
        nonce <= self.latest_received_nonce
    }

    /// True when `nonce` names a message currently in flight.
    pub open spec fn confirmation_in_flight(self, nonce: u64) -> bool {
        self.latest_received_nonce < nonce <= self.latest_generated_nonce
    }

    /// Accept a delivery confirmation: discard the stored payloads for all
    /// nonces up to `new_latest_received_nonce` and advance
    /// `latest_received_nonce`. A stale confirmation (at or below the
    /// current value) is a no-op success, never a regression; a nonce above
    /// everything generated fails with `NonceNotInFlight` and changes
    /// nothing.
    pub fn prune_confirmed(&mut self, new_latest_received_nonce: u64) -> (r: Result<(), BridgeError>)
        requires
            old(self).wf(),
        ensures
            final(self).wf(),
            old(self).confirmation_is_stale(new_latest_received_nonce) ==> {
                &&& r == Ok::<(), BridgeError>(())
                &&& *final(self) == *old(self)
            },
            new_latest_received_nonce > old(self).latest_generated_nonce ==> {
                &&& r == Err::<(), BridgeError>(BridgeError::NonceNotInFlight)
                &&& *final(self) == *old(self)
            },
            old(self).confirmation_in_flight(new_latest_received_nonce) ==> {
                &&& r == Ok::<(), BridgeError>(())
                &&& final(self).latest_received_nonce == new_latest_received_nonce
                &&& final(self).latest_generated_nonce == old(self).latest_generated_nonce
                &&& final(self).queued@ == old(self).queued@.subrange(
                        new_latest_received_nonce - old(self).latest_received_nonce,
                        old(self).queued@.len() as int,
                    )
                &&& final(self).lane == old(self).lane
                &&& final(self).limits == old(self).limits
            },
    {
        if new_latest_received_nonce <= self.latest_received_nonce {
            return Ok(());
        }
        if new_latest_received_nonce > self.latest_generated_nonce {
            return Err(BridgeError::NonceNotInFlight);
        }
        while self.latest_received_nonce < new_latest_received_nonce
            invariant
                self.latest_received_nonce <= new_latest_received_nonce <= self.latest_generated_nonce,
                self.latest_generated_nonce == old(self).latest_generated_nonce,
                self.lane == old(self).lane,
                self.limits == old(self).limits,
                self.queued@ == old(self).queued@.subrange(
                    self.latest_received_nonce - old(self).latest_received_nonce,
                    old(self).queued@.len() as int,
                ),
                old(self).wf(),
                self.latest_received_nonce >= old(self).latest_received_nonce,
            decreases new_latest_received_nonce - self.latest_received_nonce,
        {
            let ghost prev = self.queued@;
            self.queued.remove(0);
            self.latest_received_nonce = self.latest_received_nonce + 1;
            proof {
                assert(self.queued@ =~= old(self).queued@.subrange(
                    self.latest_received_nonce - old(self).latest_received_nonce,
                    old(self).queued@.len() as int,
                ));
            }
        }
        Ok(())
    }

    /// Total declared dispatch weight of the queued payloads for the
    /// nonces in `[lo, hi]`, saturating at the numeric maximum. This is
    /// what the confirmation protocol reads, before pruning, to price the
    /// work a relayer is owed for.
    pub fn queued_weight_between(&self, lo: u64, hi: u64) -> (r: u64)
        requires
            self.wf(),
            self.latest_received_nonce < lo,
            lo <= hi,
            hi <= self.latest_generated_nonce,
        ensures
            r == weight_of_range(
                self.queued@,
                lo - self.latest_received_nonce - 1,
                hi - self.latest_received_nonce,
            ),
    {
        let qlen: usize = self.queued.len();
        proof {
            assert(hi - self.latest_received_nonce <= qlen);
        }
        let from: usize = (lo - self.latest_received_nonce - 1) as usize;
        let to: usize = (hi - self.latest_received_nonce) as usize;
        let mut total: u64 = 0;
        let mut i: usize = from;
        while i < to
            invariant
                from <= i <= to,
                to <= self.queued@.len(),
                total == weight_of_range(self.queued@, from as int, i as int),
            decreases to - i,
        {
            let w = self.queued[i].declared_weight;
            if total > u64::MAX - w {
                total = u64::MAX;
            } else {
                total = total + w;
            }
            i = i + 1;
            proof {
                assert(total == weight_of_range(self.queued@, from as int, i as int)) by {
                    assert(weight_of_range(self.queued@, from as int, i as int) == {
                        let rest = weight_of_range(self.queued@, from as int, i - 1);
                        let w2 = self.queued@[i - 1].declared_weight;
                        if rest + w2 > u64::MAX { u64::MAX } else { (rest + w2) as u64 }
                    });
                }
            }
        }
        total
    }
}

/// Saturating sum of the declared weights of the payloads at indices
/// `from ..= to - 1`.
pub open spec fn weight_of_range(payloads: Seq<MessagePayload>, from: int, to: int) -> u64
    decreases to - from,
{
    if to <= from {
        0u64
    } else {
        let rest = weight_of_range(payloads, from, to - 1);
        let w = payloads[to - 1].declared_weight;
        if rest + w > u64::MAX {
            u64::MAX
        } else {
            (rest + w) as u64
        }
    }
}

} // verus!
