//! The protocol's cross-cutting guarantees, stated once and proved from
//! the lane contracts: nonce monotonicity, idempotent confirmation,
//! capacity backpressure relief, and reward conservation.

use vstd::prelude::*;

use crate::inbound::{
    entries_chain, holds_nonce, lemma_chain_last_above_floor, lemma_chain_uncons,
    lemma_confirmed_chain, lemma_remaining_chain, spec_confirmed, spec_deliver, spec_remaining,
    InboundLane,
};
use crate::outbound::OutboundLane;

verus! {

/// Law: over any run, `enqueue` hands out strictly increasing nonces,
/// starting at 1 on a fresh lane.
///
/// `states[i]` is the lane right before the i-th successful `enqueue` of
/// the run, which by `enqueue`'s contract returns
/// `states[i].latest_generated_nonce + 1` (collected here as `nonces[i]`)
/// and raises the generated counter to that value; between two enqueues
/// the lane may go through any other operations, none of which lowers
/// the counter (each operation's contract keeps or raises it) — the
/// second premise. Under exactly those premises the returned nonces
/// strictly increase, and a run starting from a fresh lane starts at 1.
pub proof fn lemma_nonce_monotonicity(states: Seq<OutboundLane>, nonces: Seq<u64>)
    requires
        states.len() == nonces.len(),
        forall|i: int| 0 <= i < states.len()
            ==> (#[trigger] nonces[i]) == states[i].latest_generated_nonce + 1,
        forall|i: int| 1 <= i < states.len()
            ==> (#[trigger] states[i].latest_generated_nonce) >= nonces[i - 1],
    ensures
        forall|i: int, j: int| 0 <= i < j < states.len() ==> #[trigger] nonces[i] < #[trigger] nonces[j],
        states.len() > 0 && states[0].latest_generated_nonce == 0 ==> nonces[0] == 1,
{
    assert forall|i: int, j: int| 0 <= i < j < states.len()
        implies #[trigger] nonces[i] < #[trigger] nonces[j] by {
        lemma_nonces_grow_between(states, nonces, i, j);
    }
}

/// Between any two positions of a run, the returned nonce strictly grows.
proof fn lemma_nonces_grow_between(states: Seq<OutboundLane>, nonces: Seq<u64>, i: int, j: int)
    requires
        states.len() == nonces.len(),
        forall|k: int| 0 <= k < states.len()
            ==> (#[trigger] nonces[k]) == states[k].latest_generated_nonce + 1,
        forall|k: int| 1 <= k < states.len()
            ==> (#[trigger] states[k].latest_generated_nonce) >= nonces[k - 1],
        0 <= i < j < states.len(),
    ensures
        nonces[i] < nonces[j],
    decreases j - i,
{
    if j > i + 1 {
        lemma_nonces_grow_between(states, nonces, i, j - 1);
    }
}

/// Law: a repeated or older confirmation is a no-op the second time.
///
/// After a confirmation advanced the sending lane to `n`, any later
/// confirmation at `m <= n` is stale, and `prune_confirmed`'s contract
/// then forces a no-op success: the state after equals the state before,
/// bit for bit. The same shape holds of the receiving lane's `confirm`,
/// which additionally returns no records for a stale value — nothing is
/// handed out for rewarding twice.
pub proof fn lemma_confirmation_idempotent(after_first: OutboundLane, m: u64, n: u64)
    requires
        after_first.latest_received_nonce == n,
        m <= n,
    ensures
        after_first.confirmation_is_stale(m),
{
}

/// Law: the receiving lane's `confirm` is idempotent in the same way.
pub proof fn lemma_inbound_confirmation_idempotent(after_first: InboundLane, m: u64, n: u64)
    requires
        after_first.last_confirmed_nonce == n,
        m <= n,
    ensures
        after_first.confirmation_is_stale(m),
{
}

/// Law: backpressure lifts as soon as one confirmation lands.
///
/// `enqueue`'s own contract says it fails with `QueueCapacityExceeded`
/// exactly when the pending count has reached the configured maximum.
/// This lemma adds the relief direction: from any lane — full or not —
/// a `prune_confirmed` that confirms an in-flight nonce leaves a lane
/// that accepts the next `enqueue`. The in-flight premise is essential:
/// a stale replay also succeeds, but as a no-op it relieves nothing.
pub proof fn lemma_backpressure_relief(before: OutboundLane, after: OutboundLane, upto: u64)
    requires
        before.wf(),
        before.confirmation_in_flight(upto),
        after.latest_generated_nonce == before.latest_generated_nonce,
        after.latest_received_nonce == upto,
        after.limits == before.limits,
    ensures
        after.accepts_enqueue(),
{
}

/// What a chain of records covers: exactly the nonces strictly between
/// its floor and its last end.
pub proof fn lemma_chain_coverage(entries: Seq<crate::inbound::UnrewardedRelayerEntry>, floor: u64)
    requires
        entries_chain(entries, floor),
    ensures
        forall|n: u64| #[trigger] holds_nonce(entries, n)
            <==> (entries.len() > 0 && floor < n <= entries.last().end),
    decreases entries.len(),
{
    if entries.len() > 0 {
        lemma_chain_uncons(entries, floor);
        let rest = entries.drop_first();
        lemma_chain_coverage(rest, entries[0].end);
        if rest.len() > 0 {
            assert(rest.last() == entries.last());
            lemma_chain_last_above_floor(rest, entries[0].end);
        } else {
            assert(entries.last() == entries[0]);
        }
        assert forall|n: u64| #[trigger] holds_nonce(entries, n)
            implies (floor < n <= entries.last().end) by {
            let i = choose|i: int| 0 <= i < entries.len()
                && (#[trigger] entries[i]).begin <= n <= entries[i].end;
            if i == 0 {
                assert(entries[0].begin == floor + 1);
            } else {
                assert(rest[i - 1] == entries[i]);
                assert(holds_nonce(rest, n));
            }
        }
        assert forall|n: u64| (floor < n <= entries.last().end)
            implies #[trigger] holds_nonce(entries, n) by {
            if n <= entries[0].end {
                assert(entries[0].begin == floor + 1 <= n <= entries[0].end);
            } else {
                assert(rest.len() > 0);
                assert(holds_nonce(rest, n));
                let j = choose|j: int| 0 <= j < rest.len()
                    && (#[trigger] rest[j]).begin <= n <= rest[j].end;
                assert(entries[j + 1] == rest[j]);
            }
        }
    }
}

/// Law: reward conservation. A confirmation at `upto` hands out records
/// covering exactly the delivered-but-unconfirmed nonces up to `upto` —
/// each exactly once — and retains records covering exactly the rest.
///
/// Together with `confirm`'s contract (the returned records are
/// `spec_confirmed`, the retained ones `spec_remaining`, and a stale
/// confirmation returns nothing), this says that over any run the
/// records handed out for rewarding partition the nonces ever accepted
/// by `receive_batch`: no nonce is rewarded twice or omitted.
pub proof fn lemma_reward_conservation(lane: InboundLane, upto: u64)
    requires
        lane.wf(),
        lane.confirmation_advances(upto),
    ensures
        forall|n: u64| #[trigger] holds_nonce(spec_confirmed(lane.relayers@, upto), n)
            <==> lane.last_confirmed_nonce < n <= upto,
        forall|n: u64| #[trigger] holds_nonce(spec_remaining(lane.relayers@, upto), n)
            <==> upto < n <= lane.last_delivered_nonce(),
        forall|n: u64| #[trigger] holds_nonce(lane.relayers@, n)
            <==> lane.last_confirmed_nonce < n <= lane.last_delivered_nonce(),
{
    let entries = lane.relayers@;
    let floor = lane.last_confirmed_nonce;
    assert(entries.len() > 0);
    lemma_confirmed_chain(entries, floor, upto);
    lemma_remaining_chain(entries, floor, upto);
    lemma_chain_coverage(entries, floor);
    lemma_chain_coverage(spec_confirmed(entries, upto), floor);
    lemma_chain_coverage(spec_remaining(entries, upto), upto);
}

/// Law: no nonce is ever handed out for rewarding twice.
///
/// Once a confirmation at `upto1` has been accepted, the lane's
/// confirmation floor never drops below `upto1` again (stale
/// confirmations are no-ops). So whatever records any later genuine
/// confirmation returns, their nonces are disjoint from the first
/// confirmation's: the floors only advance.
pub proof fn lemma_no_nonce_rewarded_twice(
    lane: InboundLane,
    upto1: u64,
    later: InboundLane,
    upto2: u64,
)
    requires
        lane.wf(),
        lane.confirmation_advances(upto1),
        later.wf(),
        later.last_confirmed_nonce >= upto1,
        later.confirmation_advances(upto2),
    ensures
        forall|n: u64| #[trigger] holds_nonce(spec_confirmed(lane.relayers@, upto1), n)
            ==> !holds_nonce(spec_confirmed(later.relayers@, upto2), n),
{
    lemma_reward_conservation(lane, upto1);
    lemma_reward_conservation(later, upto2);
}

/// Law: accepting a batch extends the covered nonces by exactly the
/// delivered range and touches nothing else.
///
/// Together with `receive_batch`'s contract (the records afterwards are
/// `spec_deliver` of the records before), this is the other half of
/// reward conservation: every nonce the lane ever accepts enters the
/// unrewarded records once, contiguously above everything already there.
pub proof fn lemma_delivery_extends_coverage(lane: InboundLane, relayer: u64, count: int)
    requires
        lane.wf(),
        1 <= count,
        lane.last_delivered_nonce() + count <= u64::MAX,
    ensures
        forall|n: u64| #[trigger] holds_nonce(
            spec_deliver(
                lane.relayers@,
                relayer,
                (lane.last_delivered_nonce() + 1) as u64,
                count,
            ),
            n,
        ) <==> lane.last_confirmed_nonce < n <= lane.last_delivered_nonce() + count,
{
    let floor = lane.last_confirmed_nonce;
    let ld = lane.last_delivered_nonce();
    let first = (ld + 1) as u64;
    let result = spec_deliver(lane.relayers@, relayer, first, count);
    assert(entries_chain(result, floor)) by {
        let entries = lane.relayers@;
        if entries.len() > 0 && entries.last().relayer == relayer {
            assert(forall|i: int| 0 <= i < result.len() - 1
                ==> (#[trigger] result[i]) == entries[i]);
            assert(result.last().begin == entries.last().begin);
            assert(result.last().end == ld + count);
        } else {
            assert(forall|i: int| 0 <= i < result.len() - 1
                ==> (#[trigger] result[i]) == entries[i]);
            assert(result.last().begin == first);
        }
    }
    assert(result.len() > 0);
    assert(result.last().end == ld + count);
    lemma_chain_coverage(result, floor);
}

} // verus!
