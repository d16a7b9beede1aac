//! The two orchestrators that tie the lanes to the proof machinery: one
//! verifies a relayer's message-delivery proof and feeds the inbound
//! lane, the other verifies a delivery-confirmation proof, prunes the
//! outbound lane and credits the relayers that earned it.

use vstd::prelude::*;

use crate::codec::{decode_lane_state, decode_payload, spec_decode_lane_state, spec_decode_payload};
use crate::dispatch::MessageDispatch;
use crate::header_chain::HeaderChainOracle;
use crate::inbound::{
    entries_chain, lemma_chain_ends_bounded, spec_deliver, InboundLane, UnrewardedRelayerEntry,
};
use crate::outbound::{weight_of_range, OutboundLane};
use crate::rewards::{cap_u64, RelayerRewardLedger, RewardPolicy};
use crate::storage_proof::{
    proof_well_structured, spec_lookup, verify_storage_proof, StorageProof,
};
use crate::types::{BridgeError, DispatchOutcome, LaneId, MessagePayload};

verus! {

/// A relayer's bundle for message delivery: a finalized header of the
/// sending chain, a storage witness rooted in it, the lane, and the
/// claimed contiguous nonce range (inclusive on both ends).
pub struct MessagesProof {
    /// The sending-chain header the witness is rooted in.
    pub header: u64,
    /// The storage witness revealing the committed payloads.
    pub witness: StorageProof,
    /// The lane the messages travel on.
    pub lane: LaneId,
    /// First claimed nonce.
    pub first_nonce: u64,
    /// Last claimed nonce.
    pub last_nonce: u64,
}

/// The storage keys a delivery must reveal: one per claimed nonce (each
/// message is committed under its own nonce).
pub open spec fn message_keys(first: u64, last: u64) -> Seq<u64> {
    if first > last {
        Seq::empty()
    } else {
        Seq::new((last - first + 1) as nat, |i: int| (first + i) as u64)
    }
}

/// A structurally and cryptographically good delivery proof for `root`:
/// a sane nonce range (nonce 0 names no message), a well-formed witness
/// committing to `root`, and every claimed nonce revealed.
pub open spec fn messages_proof_verifies(proof: MessagesProof, root: u64) -> bool {
    &&& 1 <= proof.first_nonce <= proof.last_nonce
    &&& proof_well_structured(proof.witness)
    &&& proof.witness.root == root
    &&& forall|i: int| 0 <= i < message_keys(proof.first_nonce, proof.last_nonce).len()
            ==> spec_lookup(
                proof.witness.items@,
                #[trigger] message_keys(proof.first_nonce, proof.last_nonce)[i],
            ) is Some
}

/// The byte values a verifying proof reveals, in nonce order.
pub open spec fn proof_values(proof: MessagesProof) -> Seq<Seq<u8>> {
    Seq::new(
        message_keys(proof.first_nonce, proof.last_nonce).len(),
        |i: int| spec_lookup(
            proof.witness.items@,
            message_keys(proof.first_nonce, proof.last_nonce)[i],
        )->Some_0,
    )
}

/// Whether every revealed value decodes to a payload.
pub open spec fn all_payloads_decode(values: Seq<Seq<u8>>) -> bool {
    forall|i: int| 0 <= i < values.len() ==> spec_decode_payload(#[trigger] values[i]) is Some
}

/// Verify a message-delivery proof and deliver its batch to the inbound
/// lane, attributing the work to `relayer`.
///
/// The steps, each failing exactly on its own condition and leaving the
/// lane unchanged with no dispatch call made: resolve the finalized root
/// of the referenced header
/// (`HeaderNotFinalized` when that header is not finalized here); verify
/// the witness against it (`InvalidProof`, all-or-nothing); decode every
/// revealed payload (`PayloadDecodeError`, whole batch rejected before
/// any dispatch); then hand the batch to the lane, whose own
/// `InvalidNonceOrder` / `LaneCapacityExceeded` failures pass through
/// unchanged. Correctness depends only on proof/root consistency, never
/// on the header being the newest finalized one.
pub fn deliver_messages<H: HeaderChainOracle, D: MessageDispatch>(
    oracle: &H,
    lane: &mut InboundLane,
    dispatcher: &mut D,
    relayer: u64,
    proof: &MessagesProof,
) -> (r: Result<Vec<DispatchOutcome>, BridgeError>)
    requires
        old(lane).wf(),
        old(lane).lane == proof.lane,
    ensures
        final(lane).wf(),
        oracle.spec_finalized_root(proof.header) is None ==> {
            &&& r == Err::<Vec<DispatchOutcome>, BridgeError>(BridgeError::HeaderNotFinalized)
            &&& *final(lane) == *old(lane)
            &&& *final(dispatcher) == *old(dispatcher)
        },
        oracle.spec_finalized_root(proof.header) matches Some(root) ==> {
            let count = message_keys(proof.first_nonce, proof.last_nonce).len() as int;
            &&& (!messages_proof_verifies(*proof, root) ==> {
                &&& r == Err::<Vec<DispatchOutcome>, BridgeError>(BridgeError::InvalidProof)
                &&& *final(lane) == *old(lane)
                &&& *final(dispatcher) == *old(dispatcher)
            })
            &&& (messages_proof_verifies(*proof, root) && !all_payloads_decode(proof_values(*proof))
                ==> {
                &&& r == Err::<Vec<DispatchOutcome>, BridgeError>(BridgeError::PayloadDecodeError)
                &&& *final(lane) == *old(lane)
                &&& *final(dispatcher) == *old(dispatcher)
            })
            &&& (messages_proof_verifies(*proof, root) && all_payloads_decode(proof_values(*proof))
                && proof.first_nonce != old(lane).last_delivered_nonce() + 1 ==> {
                &&& r == Err::<Vec<DispatchOutcome>, BridgeError>(BridgeError::InvalidNonceOrder)
                &&& *final(lane) == *old(lane)
                &&& *final(dispatcher) == *old(dispatcher)
            })
            &&& (messages_proof_verifies(*proof, root) && all_payloads_decode(proof_values(*proof))
                && proof.first_nonce == old(lane).last_delivered_nonce() + 1
                && !old(lane).batch_fits(relayer, count) ==> {
                &&& r == Err::<Vec<DispatchOutcome>, BridgeError>(BridgeError::LaneCapacityExceeded)
                &&& *final(lane) == *old(lane)
                &&& *final(dispatcher) == *old(dispatcher)
            })
            &&& (messages_proof_verifies(*proof, root) && all_payloads_decode(proof_values(*proof))
                && proof.first_nonce == old(lane).last_delivered_nonce() + 1
                && old(lane).batch_fits(relayer, count) ==> {
                &&& r is Ok
                &&& final(lane).relayers@ == spec_deliver(
                        old(lane).relayers@, relayer, proof.first_nonce, count)
                &&& final(lane).last_confirmed_nonce == old(lane).last_confirmed_nonce
                &&& final(lane).last_delivered_nonce() == proof.last_nonce
                &&& final(lane).lane == old(lane).lane
                &&& final(lane).limits == old(lane).limits
                &&& (r matches Ok(outcomes) ==> {
                    &&& outcomes@.len() == count
                    &&& forall|i: int| 0 <= i < count
                            && !old(lane).limits.payload_model_acceptable(
                                spec_decode_payload(#[trigger] proof_values(*proof)[i])->Some_0.0,
                                spec_decode_payload(proof_values(*proof)[i])->Some_0.1,
                            ) ==> outcomes@[i] == DispatchOutcome::Rejected
                })
            })
        },
{
    // Step 1: the proof must be rooted in a header this side has finalized.
    let root = match oracle.finalized_header_state_root(proof.header) {
        None => {
            return Err(BridgeError::HeaderNotFinalized);
        },
        Some(root) => root,
    };
    // Step 2: all-or-nothing verification of the witness.
    if proof.first_nonce == 0 || proof.first_nonce > proof.last_nonce {
        return Err(BridgeError::InvalidProof);
    }
    let span: u64 = proof.last_nonce - proof.first_nonce;
    let mut keys: Vec<u64> = Vec::new();
    let mut j: u64 = 0;
    while j <= span
        invariant
            0 <= j <= span + 1,
            1 <= proof.first_nonce <= proof.last_nonce,
            span == proof.last_nonce - proof.first_nonce,
            keys@ == message_keys(proof.first_nonce, proof.last_nonce).subrange(0, j as int),
        decreases span + 1 - j,
    {
        keys.push(proof.first_nonce + j);
        j = j + 1;
        proof {
            assert(keys@ =~= message_keys(proof.first_nonce, proof.last_nonce).subrange(
                0,
                j as int,
            ));
        }
    }
    proof {
        assert(keys@ =~= message_keys(proof.first_nonce, proof.last_nonce));
    }
    let values = match verify_storage_proof(root, &proof.witness, &keys) {
        Err(_) => {
            return Err(BridgeError::InvalidProof);
        },
        Ok(values) => values,
    };
    // Step 3: decode the whole batch before any dispatch.
    let ghost vals = proof_values(*proof);
    proof {
        assert forall|i: int| 0 <= i < vals.len() implies vals[i] == values@[i]@ by {}
    }
    let mut payloads: Vec<MessagePayload> = Vec::new();
    let mut k: usize = 0;
    while k < values.len()
        invariant
            0 <= k <= values@.len(),
            *lane == *old(lane),
            old(lane).wf(),
            oracle.spec_finalized_root(proof.header) == Some(root),
            messages_proof_verifies(*proof, root),
            vals == proof_values(*proof),
            values@.len() == vals.len(),
            forall|i: int| 0 <= i < vals.len() ==> #[trigger] vals[i] == values@[i]@,
            payloads@.len() == k,
            forall|i: int| 0 <= i < k ==> spec_decode_payload(#[trigger] vals[i]) is Some,
            forall|i: int| 0 <= i < k
                ==> (#[trigger] payloads@[i]).declared_weight
                        == spec_decode_payload(vals[i])->Some_0.0
                    && payloads@[i].data@ == spec_decode_payload(vals[i])->Some_0.1,
        decreases values@.len() - k,
    {
        match decode_payload(&values[k]) {
            Err(_) => {
                proof {
                    assert(spec_decode_payload(vals[k as int]) is None);
                    assert(!all_payloads_decode(vals));
                }
                return Err(BridgeError::PayloadDecodeError);
            },
            Ok(payload) => {
                payloads.push(payload);
            },
        }
        k = k + 1;
    }
    // Step 4: hand the contiguous batch to the lane.
    if !(proof.first_nonce - 1 == lane.last_delivered()) {
        return Err(BridgeError::InvalidNonceOrder);
    }
    let r = lane.receive_batch(dispatcher, relayer, proof.first_nonce, &payloads);
    proof {
        let count = message_keys(proof.first_nonce, proof.last_nonce).len() as int;
        assert(payloads@.len() == count);
        if r is Ok {
            let outcomes = r->Ok_0;
            assert forall|i: int|
                0 <= i < count && !old(lane).limits.payload_model_acceptable(
                    spec_decode_payload(#[trigger] proof_values(*proof)[i])->Some_0.0,
                    spec_decode_payload(proof_values(*proof)[i])->Some_0.1,
                ) implies outcomes@[i] == DispatchOutcome::Rejected by {
                assert(payloads@[i].declared_weight == spec_decode_payload(vals[i])->Some_0.0);
                assert(payloads@[i].data@ == spec_decode_payload(vals[i])->Some_0.1);
                assert(!old(lane).limits.payload_acceptable(payloads@[i]));
            }
        }
    }
    r
}

/// A relayer's bundle for delivery confirmation: a finalized header of
/// the receiving chain, and a storage witness revealing the inbound lane
/// state that chain committed under it.
pub struct DeliveryProof {
    /// The receiving-chain header the witness is rooted in.
    pub header: u64,
    /// The storage witness revealing the committed lane state.
    pub witness: StorageProof,
    /// The lane being confirmed.
    pub lane: LaneId,
}

/// The storage key a chain commits its inbound lane state under
/// (messages take the keys 1 and up — their nonces).
pub const LANE_STATE_KEY: u64 = 0;

/// The inbound-lane snapshot a verifying confirmation proof reveals:
/// the confirmation floor and the unrewarded-relayer records.
pub open spec fn snapshot_of(proof: DeliveryProof) -> (u64, Seq<UnrewardedRelayerEntry>) {
    spec_decode_lane_state(spec_lookup(proof.witness.items@, LANE_STATE_KEY)->Some_0)->Some_0
}

/// A good confirmation proof for `root`: a well-formed witness committing
/// to `root`, revealing a lane-state value that decodes, whose records
/// form a well-formed chain above its own confirmation floor.
pub open spec fn delivery_proof_verifies(proof: DeliveryProof, root: u64) -> bool {
    &&& proof_well_structured(proof.witness)
    &&& proof.witness.root == root
    &&& spec_lookup(proof.witness.items@, LANE_STATE_KEY) is Some
    &&& spec_decode_lane_state(spec_lookup(proof.witness.items@, LANE_STATE_KEY)->Some_0) is Some
    &&& entries_chain(snapshot_of(proof).1, snapshot_of(proof).0)
}

/// The nonce a snapshot confirms delivery up to: everything its records
/// cover, or its own floor when it records nothing.
pub open spec fn snapshot_target(snapshot: (u64, Seq<UnrewardedRelayerEntry>)) -> u64 {
    if snapshot.1.len() == 0 {
        snapshot.0
    } else {
        snapshot.1.last().end
    }
}

/// What one snapshot record earns: the policy's price for the part of its
/// range the sending lane has not yet seen confirmed, priced with the
/// declared weights still queued there; nothing when the whole range was
/// already confirmed (a replay confirms nothing).
pub open spec fn entry_reward<P: RewardPolicy>(
    policy: P,
    out_lane: OutboundLane,
    entry: UnrewardedRelayerEntry,
) -> u64 {
    if entry.end <= out_lane.latest_received_nonce {
        0u64
    } else {
        let lo = if entry.begin > out_lane.latest_received_nonce {
            entry.begin
        } else {
            (out_lane.latest_received_nonce + 1) as u64
        };
        policy.spec_reward(
            (entry.end - lo + 1) as u64,
            weight_of_range(
                out_lane.queued@,
                lo - out_lane.latest_received_nonce - 1,
                entry.end - out_lane.latest_received_nonce,
            ),
        )
    }
}

/// The credit `relayer` holds on the lane after the snapshot records are
/// priced and credited in order, starting from `prior`.
pub open spec fn spec_credit_after<P: RewardPolicy>(
    policy: P,
    out_lane: OutboundLane,
    entries: Seq<UnrewardedRelayerEntry>,
    relayer: u64,
    prior: u64,
) -> u64
    decreases entries.len(),
{
    if entries.len() == 0 {
        prior
    } else {
        let next = if entries[0].relayer == relayer {
            cap_u64(prior + entry_reward(policy, out_lane, entries[0]))
        } else {
            prior
        };
        spec_credit_after(policy, out_lane, entries.drop_first(), relayer, next)
    }
}

/// Verify a delivery-confirmation proof, prune the outbound lane up to
/// the nonce the revealed snapshot confirms, and credit each relayer the
/// snapshot names for the newly confirmed part of its range.
///
/// Failures, each leaving both the lane and the ledger unchanged:
/// `HeaderNotFinalized` when the referenced header is not finalized here;
/// `InvalidProof` when the witness fails verification or does not reveal
/// a well-formed lane state; `NonceNotInFlight` when the snapshot claims
/// more than was ever generated. A stale proof (confirming nothing new)
/// succeeds as a no-op: nobody is credited twice. On success the result
/// carries the nonce now confirmed.
pub fn confirm_delivery<H: HeaderChainOracle, P: RewardPolicy>(
    oracle: &H,
    out_lane: &mut OutboundLane,
    ledger: &mut RelayerRewardLedger,
    policy: &P,
    proof: &DeliveryProof,
) -> (r: Result<u64, BridgeError>)
    requires
        old(out_lane).wf(),
        old(ledger).wf(),
        old(out_lane).lane == proof.lane,
    ensures
        final(out_lane).wf(),
        final(ledger).wf(),
        oracle.spec_finalized_root(proof.header) is None ==> {
            &&& r == Err::<u64, BridgeError>(BridgeError::HeaderNotFinalized)
            &&& *final(out_lane) == *old(out_lane)
            &&& *final(ledger) == *old(ledger)
        },
        oracle.spec_finalized_root(proof.header) matches Some(root) ==> {
            let target = snapshot_target(snapshot_of(*proof));
            &&& (!delivery_proof_verifies(*proof, root) ==> {
                &&& r == Err::<u64, BridgeError>(BridgeError::InvalidProof)
                &&& *final(out_lane) == *old(out_lane)
                &&& *final(ledger) == *old(ledger)
            })
            &&& (delivery_proof_verifies(*proof, root)
                && target > old(out_lane).latest_generated_nonce ==> {
                &&& r == Err::<u64, BridgeError>(BridgeError::NonceNotInFlight)
                &&& *final(out_lane) == *old(out_lane)
                &&& *final(ledger) == *old(ledger)
            })
            &&& (delivery_proof_verifies(*proof, root)
                && target <= old(out_lane).latest_generated_nonce ==> {
                &&& r == Ok::<u64, BridgeError>(target)
                &&& (old(out_lane).confirmation_is_stale(target)
                    ==> *final(out_lane) == *old(out_lane))
                &&& (old(out_lane).confirmation_in_flight(target) ==> {
                    &&& final(out_lane).latest_received_nonce == target
                    &&& final(out_lane).latest_generated_nonce
                            == old(out_lane).latest_generated_nonce
                    &&& final(out_lane).queued@ == old(out_lane).queued@.subrange(
                            target - old(out_lane).latest_received_nonce,
                            old(out_lane).queued@.len() as int,
                        )
                    &&& final(out_lane).lane == old(out_lane).lane
                    &&& final(out_lane).limits == old(out_lane).limits
                })
                &&& forall|r2: u64| #[trigger] final(ledger).credit_of(r2, proof.lane)
                        == spec_credit_after(
                            *policy,
                            *old(out_lane),
                            snapshot_of(*proof).1,
                            r2,
                            old(ledger).credit_of(r2, proof.lane),
                        )
                &&& forall|r2: u64, l2: LaneId| l2 != proof.lane
                        ==> #[trigger] final(ledger).credit_of(r2, l2)
                            == old(ledger).credit_of(r2, l2)
            })
        },
{
    // Step 1: the proof must be rooted in a header this side has finalized.
    let root = match oracle.finalized_header_state_root(proof.header) {
        None => {
            return Err(BridgeError::HeaderNotFinalized);
        },
        Some(root) => root,
    };
    // Step 2: all-or-nothing verification of the witness.
    let mut keys: Vec<u64> = Vec::new();
    keys.push(LANE_STATE_KEY);
    let values = match verify_storage_proof(root, &proof.witness, &keys) {
        Err(_) => {
            proof {
                assert(keys@[0] == LANE_STATE_KEY);
            }
            return Err(BridgeError::InvalidProof);
        },
        Ok(values) => values,
    };
    proof {
        assert(keys@[0] == LANE_STATE_KEY);
        assert(spec_lookup(proof.witness.items@, LANE_STATE_KEY) == Some(values@[0]@));
    }
    // Step 3: the revealed value must be a well-formed lane-state snapshot.
    let state = match decode_lane_state(&values[0]) {
        Err(_) => {
            return Err(BridgeError::InvalidProof);
        },
        Ok(state) => state,
    };
    let (floor, entries) = state;
    let ghost entries_s = entries@;
    let mut i: usize = 0;
    let mut chain_ok: bool = entries.len() == 0 || (entries[0].begin >= 1 && entries[0].begin - 1 == floor);
    while chain_ok && i < entries.len()
        invariant
            0 <= i <= entries_s.len(),
            entries@ == entries_s,
            chain_ok ==> entries_s.len() > 0 ==> entries_s[0].begin == floor + 1,
            chain_ok ==> forall|j: int| 0 <= j < i ==> (#[trigger] entries_s[j].begin) <= entries_s[j].end,
            chain_ok ==> forall|j: int| 1 <= j < i
                ==> (#[trigger] entries_s[j].begin) == entries_s[j - 1].end + 1,
            !chain_ok ==> !entries_chain(entries_s, floor),
        decreases entries_s.len() - i + (if chain_ok { 1int } else { 0int }),
    {
        let e = entries[i];
        if e.begin > e.end {
            chain_ok = false;
        } else if i > 0 && !(e.begin >= 1 && e.begin - 1 == entries[i - 1].end) {
            chain_ok = false;
        } else {
            i = i + 1;
        }
    }
    proof {
        assert(snapshot_of(*proof).0 == floor);
        assert(snapshot_of(*proof).1 == entries_s);
    }
    if !chain_ok {
        proof {
            assert(!delivery_proof_verifies(*proof, root));
        }
        return Err(BridgeError::InvalidProof);
    }
    proof {
        assert(entries_chain(entries_s, floor));
        assert(delivery_proof_verifies(*proof, root));
    }
    // Step 4: everything the snapshot covers is now confirmed.
    let target: u64 = if entries.len() == 0 {
        floor
    } else {
        entries[entries.len() - 1].end
    };
    if target > out_lane.latest_generated_nonce {
        return Err(BridgeError::NonceNotInFlight);
    }
    // Step 5: price and credit the newly confirmed part of each record,
    // reading the declared weights before the queue is pruned.
    proof {
        lemma_chain_ends_bounded(entries_s, floor);
        assert(entries_s.skip(0) =~= entries_s);
    }
    let mut k: usize = 0;
    while k < entries.len()
        invariant
            0 <= k <= entries_s.len(),
            entries@ == entries_s,
            entries_chain(entries_s, floor),
            forall|j: int| 0 <= j < entries_s.len()
                ==> (#[trigger] entries_s[j].end) <= target,
            target <= out_lane.latest_generated_nonce,
            *out_lane == *old(out_lane),
            old(out_lane).wf(),
            ledger.wf(),
            forall|r2: u64| #[trigger] spec_credit_after(
                *policy,
                *out_lane,
                entries_s.skip(k as int),
                r2,
                ledger.credit_of(r2, proof.lane),
            ) == spec_credit_after(
                *policy,
                *out_lane,
                entries_s,
                r2,
                old(ledger).credit_of(r2, proof.lane),
            ),
            forall|r2: u64, l2: LaneId| l2 != proof.lane
                ==> #[trigger] ledger.credit_of(r2, l2) == old(ledger).credit_of(r2, l2),
        decreases entries_s.len() - k,
    {
        let e = entries[k];
        let ghost pre_ledger = *ledger;
        if e.end > out_lane.latest_received_nonce {
            let lo = if e.begin > out_lane.latest_received_nonce {
                e.begin
            } else {
                out_lane.latest_received_nonce + 1
            };
            let weight = out_lane.queued_weight_between(lo, e.end);
            let amount = policy.reward(e.end - lo + 1, weight);
            ledger.credit(e.relayer, proof.lane, amount);
            proof {
                assert(amount == entry_reward(*policy, *out_lane, e));
            }
        }
        k = k + 1;
        proof {
            assert(entries_s.skip(k - 1).drop_first() =~= entries_s.skip(k as int));
            assert(entries_s.skip(k - 1)[0] == entries_s[k - 1]);
            assert forall|r2: u64| #[trigger] spec_credit_after(
                *policy,
                *out_lane,
                entries_s.skip(k as int),
                r2,
                ledger.credit_of(r2, proof.lane),
            ) == spec_credit_after(
                *policy,
                *out_lane,
                entries_s,
                r2,
                old(ledger).credit_of(r2, proof.lane),
            ) by {
                let prior = pre_ledger.credit_of(r2, proof.lane);
                assert(spec_credit_after(*policy, *out_lane, entries_s.skip(k - 1), r2, prior)
                    == spec_credit_after(
                        *policy,
                        *out_lane,
                        entries_s,
                        r2,
                        old(ledger).credit_of(r2, proof.lane),
                    ));
                let next = if e.relayer == r2 {
                    cap_u64(prior + entry_reward(*policy, *out_lane, e))
                } else {
                    prior
                };
                assert(spec_credit_after(*policy, *out_lane, entries_s.skip(k - 1), r2, prior)
                    == spec_credit_after(*policy, *out_lane, entries_s.skip(k as int), r2, next));
                if e.end <= out_lane.latest_received_nonce {
                    assert(entry_reward(*policy, *out_lane, e) == 0);
                    assert(ledger.credit_of(r2, proof.lane) == prior);
                    assert(next == ledger.credit_of(r2, proof.lane));
                } else {
                    if e.relayer == r2 {
                        assert(ledger.credit_of(r2, proof.lane) == cap_u64(
                            prior + entry_reward(*policy, *out_lane, e),
                        ));
                    } else {
                        assert(ledger.credit_of(r2, proof.lane) == prior);
                    }
                }
            }
        }
    }
    proof {
        assert(entries_s.skip(entries_s.len() as int).len() == 0);
        assert forall|r2: u64| #[trigger] ledger.credit_of(r2, proof.lane)
            == spec_credit_after(
                *policy,
                *old(out_lane),
                entries_s,
                r2,
                old(ledger).credit_of(r2, proof.lane),
            ) by {
            assert(spec_credit_after(
                *policy,
                *out_lane,
                entries_s.skip(entries_s.len() as int),
                r2,
                ledger.credit_of(r2, proof.lane),
            ) == spec_credit_after(
                *policy,
                *out_lane,
                entries_s,
                r2,
                old(ledger).credit_of(r2, proof.lane),
            ));
        }
    }
    // Step 6: prune the outbound queue; a stale target is a no-op.
    let pruned = out_lane.prune_confirmed(target);
    proof {
        assert(pruned is Ok);
    }
    Ok(target)
}

} // verus!
