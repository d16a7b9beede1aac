//! Receiver-side lane state: strict nonce contiguity, bounded buffering of
//! unrewarded-relayer bookkeeping, and confirmation back to the sender.
//!
//! An inbound lane remembers the highest nonce whose dispatch outcome has
//! been acknowledged back to the sender (`last_confirmed_nonce`) and, for
//! everything delivered since, which relayer delivered which contiguous
//! nonce range. Those records are what a relayer is later rewarded for.

use vstd::prelude::*;

use crate::dispatch::MessageDispatch;
use crate::types::{BridgeError, DispatchOutcome, LaneId, MessagePayload};

verus! {

/// Bookkeeping record: `relayer` delivered every nonce in
/// `begin ..= end` (a non-empty contiguous range), and has not been
/// rewarded for it yet.
#[derive(Clone, Copy, PartialEq, Eq, Structural, Debug)]
pub struct UnrewardedRelayerEntry {
    /// Identity of the relayer that delivered the range.
    pub relayer: u64,
    /// First nonce of the delivered range (inclusive).
    pub begin: u64,
    /// Last nonce of the delivered range (inclusive).
    pub end: u64,
}

/// Static per-deployment bounds and payload limits for one inbound lane.
#[derive(Clone, Copy, PartialEq, Eq, Structural, Debug)]
pub struct InboundLaneLimits {
    /// Maximal number of unrewarded-relayer entries kept at once.
    pub max_unrewarded_relayer_entries: u64,
    /// Maximal delivered-but-unconfirmed nonce span kept at once.
    pub max_unconfirmed_messages: u64,
    /// Minimal byte length of a dispatchable payload.
    pub min_payload_size: u64,
    /// Maximal byte length of a dispatchable payload.
    pub max_payload_size: u64,
    /// Maximal declared dispatch weight of a dispatchable payload.
    pub max_payload_weight: u64,
}

impl InboundLaneLimits {
    /// The size/weight window on a payload's parts: its declared weight
    /// and its opaque bytes.
    pub open spec fn payload_model_acceptable(self, weight: u64, data: Seq<u8>) -> bool {
        &&& self.min_payload_size <= data.len() <= self.max_payload_size
        &&& weight <= self.max_payload_weight
    }

    /// A payload this chain will forward to its dispatch collaborator:
    /// within the declared size window and weight maximum. Anything else
    /// is recorded as consumed-and-rejected, never dispatched.
    pub open spec fn payload_acceptable(self, payload: MessagePayload) -> bool {
        self.payload_model_acceptable(payload.declared_weight, payload.data@)
    }

    /// Runtime form of [`Self::payload_acceptable`].
    pub fn check_payload(&self, payload: &MessagePayload) -> (b: bool)
        ensures
            b == self.payload_acceptable(*payload),
    {
        let size: u64 = payload.data.len() as u64;
        size >= self.min_payload_size && size <= self.max_payload_size
            && payload.declared_weight <= self.max_payload_weight
    }
}

/// The unrewarded entries form a chain of non-empty ranges, contiguous,
/// non-overlapping and strictly increasing, starting right above `floor`.
pub open spec fn entries_chain(entries: Seq<UnrewardedRelayerEntry>, floor: u64) -> bool {
    &&& forall|i: int| 0 <= i < entries.len() ==> (#[trigger] entries[i].begin) <= entries[i].end
    &&& entries.len() > 0 ==> entries[0].begin == floor + 1
    &&& forall|i: int| 1 <= i < entries.len() ==> (#[trigger] entries[i].begin) == entries[i - 1].end + 1
}

/// Whether some entry of the sequence covers `nonce`.
pub open spec fn holds_nonce(entries: Seq<UnrewardedRelayerEntry>, nonce: u64) -> bool {
    exists|i: int| 0 <= i < entries.len() && (#[trigger] entries[i]).begin <= nonce <= entries[i].end
}

/// State of one lane as seen by the chain that receives over it.
pub struct InboundLane {
    /// The lane this state belongs to.
    pub lane: LaneId,
    /// Configured bounds, fixed at construction.
    pub limits: InboundLaneLimits,
    /// Highest nonce whose dispatch outcome has been acknowledged back to
    /// the sending chain (0 before the first confirmation).
    pub last_confirmed_nonce: u64,
    /// Who delivered what since the last confirmation, in nonce order.
    pub relayers: Vec<UnrewardedRelayerEntry>,
}

impl InboundLane {
    /// Highest nonce delivered on this lane so far.
    pub open spec fn last_delivered_nonce(self) -> u64 {
        if self.relayers@.len() == 0 {
            self.last_confirmed_nonce
        } else {
            self.relayers@.last().end
        }
    }

    /// Well-formedness invariant: the entries chain up contiguously from
    /// `last_confirmed_nonce`, and both configured bounds hold.
    pub open spec fn wf(self) -> bool {
        &&& entries_chain(self.relayers@, self.last_confirmed_nonce)
        &&& self.last_confirmed_nonce <= self.last_delivered_nonce()
        &&& self.relayers@.len() <= self.limits.max_unrewarded_relayer_entries
        &&& self.last_delivered_nonce() - self.last_confirmed_nonce
                <= self.limits.max_unconfirmed_messages
    }

    /// A fresh lane: nothing delivered, nothing confirmed.
    pub fn new(lane: LaneId, limits: InboundLaneLimits) -> (r: InboundLane)
        ensures
            r.wf(),
            r.lane == lane,
            r.limits == limits,
            r.last_confirmed_nonce == 0,
            r.relayers@.len() == 0,
    {
        InboundLane { lane, limits, last_confirmed_nonce: 0, relayers: Vec::new() }
    }

    /// Runtime form of [`Self::last_delivered_nonce`].
    pub fn last_delivered(&self) -> (r: u64)
        ensures
            r == self.last_delivered_nonce(),
    {
        if self.relayers.len() == 0 {
            self.last_confirmed_nonce
        } else {
            self.relayers[self.relayers.len() - 1].end
        }
    }

    /// Whether a batch of `count` more messages, delivered by `relayer`,
    /// stays within both configured bounds.
    pub open spec fn batch_fits(self, relayer: u64, count: int) -> bool {
        count == 0 || {
            &&& (self.merges_with_last(relayer)
                    || self.relayers@.len() + 1 <= self.limits.max_unrewarded_relayer_entries)
            &&& self.last_delivered_nonce() - self.last_confirmed_nonce + count
                    <= self.limits.max_unconfirmed_messages
        }
    }

    /// Whether a delivery by `relayer` extends the newest entry instead of
    /// opening a new one.
    pub open spec fn merges_with_last(self, relayer: u64) -> bool {
        self.relayers@.len() > 0 && self.relayers@.last().relayer == relayer
    }
}

/// The entries after `relayer` delivers `count` messages starting at
/// `first`: the newest entry is extended when it already belongs to the
/// same relayer, otherwise a new entry is appended.
pub open spec fn spec_deliver(
    entries: Seq<UnrewardedRelayerEntry>,
    relayer: u64,
    first: u64,
    count: int,
) -> Seq<UnrewardedRelayerEntry> {
    if count == 0 {
        entries
    } else if entries.len() > 0 && entries.last().relayer == relayer {
        entries.update(
            entries.len() - 1,
            UnrewardedRelayerEntry {
                relayer,
                begin: entries.last().begin,
                end: (entries.last().end + count) as u64,
            },
        )
    } else {
        entries.push(UnrewardedRelayerEntry { relayer, begin: first, end: (first + count - 1) as u64 })
    }
}

impl InboundLane {
    /// Accept one contiguous batch of messages delivered by `relayer`.
    ///
    /// The batch must start exactly at the next expected nonce, else the
    /// call fails with `InvalidNonceOrder`; it must fit both configured
    /// bounds, else it fails with `LaneCapacityExceeded`. Both checks
    /// happen before any mutation: a failed call leaves the lane
    /// byte-for-byte unchanged and makes no dispatch call. On success the
    /// unrewarded-relayer records
    /// grow by exactly the delivered range, and one dispatch outcome per
    /// nonce is returned; a payload outside the configured size or weight
    /// window is recorded as `Rejected` and never dispatched.
    pub fn receive_batch<D: MessageDispatch>(
        &mut self,
        dispatcher: &mut D,
        relayer: u64,
        first_nonce: u64,
        payloads: &Vec<MessagePayload>,
    ) -> (r: Result<Vec<DispatchOutcome>, BridgeError>)
        requires
            old(self).wf(),
            old(self).last_delivered_nonce() + payloads@.len() <= u64::MAX,
        ensures
            final(self).wf(),
            first_nonce != old(self).last_delivered_nonce() + 1 ==> {
                &&& r == Err::<Vec<DispatchOutcome>, BridgeError>(BridgeError::InvalidNonceOrder)
                &&& *final(self) == *old(self)
                &&& *final(dispatcher) == *old(dispatcher)
            },
            first_nonce == old(self).last_delivered_nonce() + 1
                && !old(self).batch_fits(relayer, payloads@.len() as int) ==> {
                &&& r == Err::<Vec<DispatchOutcome>, BridgeError>(BridgeError::LaneCapacityExceeded)
                &&& *final(self) == *old(self)
                &&& *final(dispatcher) == *old(dispatcher)
            },
            first_nonce == old(self).last_delivered_nonce() + 1
                && old(self).batch_fits(relayer, payloads@.len() as int) ==> {
                &&& r is Ok
                &&& final(self).relayers@ == spec_deliver(
                        old(self).relayers@, relayer, first_nonce, payloads@.len() as int)
                &&& final(self).last_confirmed_nonce == old(self).last_confirmed_nonce
                &&& final(self).last_delivered_nonce()
                        == old(self).last_delivered_nonce() + payloads@.len()
                &&& final(self).lane == old(self).lane
                &&& final(self).limits == old(self).limits
                &&& (r matches Ok(outcomes) ==> {
                    &&& outcomes@.len() == payloads@.len()
                    &&& forall|i: int| 0 <= i < payloads@.len()
                            && !old(self).limits.payload_acceptable(#[trigger] payloads@[i])
                            ==> outcomes@[i] == DispatchOutcome::Rejected
                })
            },
    {
        let count: usize = payloads.len();
        // Strict contiguity with everything already received.
        if !(first_nonce >= 1 && first_nonce - 1 == self.last_delivered()) {
            return Err(BridgeError::InvalidNonceOrder);
        }
        if count == 0 {
            return Ok(Vec::new());
        }
        let count64: u64 = count as u64;
        let merges: bool = self.relayers.len() > 0
            && self.relayers[self.relayers.len() - 1].relayer == relayer;
        // Both capacity bounds, checked before any mutation.
        if !merges && self.relayers.len() as u64 >= self.limits.max_unrewarded_relayer_entries {
            return Err(BridgeError::LaneCapacityExceeded);
        }
        let pending: u64 = self.last_delivered() - self.last_confirmed_nonce;
        if pending + count64 > self.limits.max_unconfirmed_messages {
            return Err(BridgeError::LaneCapacityExceeded);
        }
        // Record the delivered range.
        let ghost entries0 = self.relayers@;
        if merges {
            let last = self.relayers.pop().unwrap();
            self.relayers.push(UnrewardedRelayerEntry {
                relayer,
                begin: last.begin,
                end: last.end + count64,
            });
            proof {
                assert(self.relayers@ =~= spec_deliver(entries0, relayer, first_nonce, count as int));
            }
        } else {
            self.relayers.push(UnrewardedRelayerEntry {
                relayer,
                begin: first_nonce,
                end: first_nonce - 1 + count64,
            });
            proof {
                assert(self.relayers@ =~= spec_deliver(entries0, relayer, first_nonce, count as int));
            }
        }
        let ghost mid = *self;
        // Check and dispatch each payload, in nonce order.
        let mut outcomes: Vec<DispatchOutcome> = Vec::new();
        let mut i: usize = 0;
        while i < count
            invariant
                0 <= i <= count,
                count == payloads@.len(),
                outcomes@.len() == i,
                *self == mid,
                forall|j: int| 0 <= j < i
                    && !self.limits.payload_acceptable(#[trigger] payloads@[j])
                    ==> outcomes@[j] == DispatchOutcome::Rejected,
                first_nonce - 1 + count <= u64::MAX,
            decreases count - i,
        {
            let payload = &payloads[i];
            let outcome = if self.limits.check_payload(payload) {
                dispatcher.dispatch(self.lane, first_nonce + i as u64, payload)
            } else {
                DispatchOutcome::Rejected
            };
            outcomes.push(outcome);
            i = i + 1;
        }
        Ok(outcomes)
    }
}

/// The entries `confirm(upto)` removes and returns: every entry fully at
/// or below `upto`, plus the covered part of an entry `upto` splits.
pub open spec fn spec_confirmed(
    entries: Seq<UnrewardedRelayerEntry>,
    upto: u64,
) -> Seq<UnrewardedRelayerEntry>
    decreases entries.len(),
{
    if entries.len() == 0 {
        Seq::empty()
    } else if entries[0].end <= upto {
        seq![entries[0]] + spec_confirmed(entries.drop_first(), upto)
    } else if entries[0].begin <= upto {
        seq![UnrewardedRelayerEntry { relayer: entries[0].relayer, begin: entries[0].begin, end: upto }]
    } else {
        Seq::empty()
    }
}

/// The entries `confirm(upto)` retains: every entry fully above `upto`,
/// plus the uncovered remainder of an entry `upto` splits.
pub open spec fn spec_remaining(
    entries: Seq<UnrewardedRelayerEntry>,
    upto: u64,
) -> Seq<UnrewardedRelayerEntry>
    decreases entries.len(),
{
    if entries.len() == 0 {
        Seq::empty()
    } else if entries[0].end <= upto {
        spec_remaining(entries.drop_first(), upto)
    } else if entries[0].begin <= upto {
        seq![
            UnrewardedRelayerEntry {
                relayer: entries[0].relayer,
                begin: (upto + 1) as u64,
                end: entries[0].end,
            },
        ] + entries.drop_first()
    } else {
        entries
    }
}

/// Once the first entry not fully covered by `upto` is known to sit at
/// index `k`, the confirmed/retained split has an explicit shape:
/// everything before `k` is returned whole, and the entry at `k` is split
/// when `upto` reaches into it.
pub proof fn lemma_split_at(entries: Seq<UnrewardedRelayerEntry>, upto: u64, k: int)
    requires
        0 <= k <= entries.len(),
        forall|j: int| 0 <= j < k ==> (#[trigger] entries[j]).end <= upto,
        k < entries.len() ==> entries[k].end > upto,
    ensures
        k == entries.len() ==> {
            &&& spec_confirmed(entries, upto) == entries
            &&& spec_remaining(entries, upto) == Seq::<UnrewardedRelayerEntry>::empty()
        },
        k < entries.len() && entries[k].begin <= upto ==> {
            &&& spec_confirmed(entries, upto) == entries.subrange(0, k).push(
                    UnrewardedRelayerEntry {
                        relayer: entries[k].relayer,
                        begin: entries[k].begin,
                        end: upto,
                    },
                )
            &&& spec_remaining(entries, upto) == seq![
                    UnrewardedRelayerEntry {
                        relayer: entries[k].relayer,
                        begin: (upto + 1) as u64,
                        end: entries[k].end,
                    },
                ] + entries.subrange(k + 1, entries.len() as int)
        },
        k < entries.len() && entries[k].begin > upto ==> {
            &&& spec_confirmed(entries, upto) == entries.subrange(0, k)
            &&& spec_remaining(entries, upto) == entries.subrange(k, entries.len() as int)
        },
    decreases entries.len(),
{
    if entries.len() == 0 {
        assert(spec_confirmed(entries, upto) =~= entries);
        assert(spec_remaining(entries, upto) =~= Seq::<UnrewardedRelayerEntry>::empty());
    } else if k == 0 {
        if entries[0].begin <= upto {
            assert(spec_confirmed(entries, upto) =~= entries.subrange(0, 0).push(
                UnrewardedRelayerEntry {
                    relayer: entries[0].relayer,
                    begin: entries[0].begin,
                    end: upto,
                },
            ));
            assert(spec_remaining(entries, upto) =~= seq![
                UnrewardedRelayerEntry {
                    relayer: entries[0].relayer,
                    begin: (upto + 1) as u64,
                    end: entries[0].end,
                },
            ] + entries.subrange(1, entries.len() as int));
        } else {
            assert(spec_confirmed(entries, upto) =~= entries.subrange(0, 0));
            assert(spec_remaining(entries, upto) =~= entries.subrange(0, entries.len() as int));
        }
    } else {
        let rest = entries.drop_first();
        assert(forall|j: int| 0 <= j < k - 1 ==> (#[trigger] rest[j]).end <= upto);
        lemma_split_at(rest, upto, k - 1);
        if k == entries.len() {
            assert(spec_confirmed(entries, upto) =~= entries);
            assert(spec_remaining(entries, upto) =~= Seq::<UnrewardedRelayerEntry>::empty());
        } else {
            assert(rest[k - 1] == entries[k]);
            if entries[k].begin <= upto {
                assert(spec_confirmed(entries, upto) =~= entries.subrange(0, k).push(
                    UnrewardedRelayerEntry {
                        relayer: entries[k].relayer,
                        begin: entries[k].begin,
                        end: upto,
                    },
                ));
                assert(spec_remaining(entries, upto) =~= seq![
                    UnrewardedRelayerEntry {
                        relayer: entries[k].relayer,
                        begin: (upto + 1) as u64,
                        end: entries[k].end,
                    },
                ] + entries.subrange(k + 1, entries.len() as int));
            } else {
                assert(spec_confirmed(entries, upto) =~= entries.subrange(0, k));
                assert(spec_remaining(entries, upto) =~= entries.subrange(k, entries.len() as int));
            }
        }
    }
}

/// The records a genuine confirmation at `upto` returns are themselves a
/// well-formed chain: they chain up from the old floor and stop exactly
/// at `upto`.
pub proof fn lemma_confirmed_chain(entries: Seq<UnrewardedRelayerEntry>, floor: u64, upto: u64)
    requires
        entries.len() > 0,
        entries_chain(entries, floor),
        floor < upto <= entries.last().end,
    ensures
        entries_chain(spec_confirmed(entries, upto), floor),
        spec_confirmed(entries, upto).len() > 0,
        spec_confirmed(entries, upto).last().end == upto,
        spec_confirmed(entries, upto).len() <= entries.len(),
    decreases entries.len(),
{
    let e0 = entries[0];
    let rest = entries.drop_first();
    if e0.end <= upto {
        if rest.len() == 0 {
            assert(entries.last() == e0);
            assert(spec_confirmed(rest, upto) =~= Seq::<UnrewardedRelayerEntry>::empty());
            assert(spec_confirmed(entries, upto) =~= seq![e0]);
        } else {
            assert(entries_chain(rest, e0.end)) by {
                assert(forall|j: int| 0 <= j < rest.len()
                    ==> (#[trigger] rest[j]) == entries[j + 1]);
            }
            assert(rest.last() == entries.last());
            if upto == e0.end {
                assert(rest[0].begin == e0.end + 1 > upto);
                assert(spec_confirmed(rest, upto) =~= Seq::<UnrewardedRelayerEntry>::empty());
                assert(spec_confirmed(entries, upto) =~= seq![e0]);
            } else {
                lemma_confirmed_chain(rest, e0.end, upto);
                let conf_rest = spec_confirmed(rest, upto);
                let conf = spec_confirmed(entries, upto);
                assert(conf =~= seq![e0] + conf_rest);
                assert(entries_chain(conf, floor)) by {
                    assert(conf[0] == e0);
                    assert(forall|j: int| 1 <= j < conf.len()
                        ==> (#[trigger] conf[j]) == conf_rest[j - 1]);
                    assert(conf_rest[0].begin == e0.end + 1);
                }
                assert(conf.last() == conf_rest.last());
            }
        }
    } else {
        // The head entry itself is split: floor < upto < entries[0].end.
        assert(e0.begin == floor + 1 <= upto);
        assert(spec_confirmed(entries, upto) =~= seq![
            UnrewardedRelayerEntry { relayer: e0.relayer, begin: e0.begin, end: upto },
        ]);
    }
}

/// Putting one range right below a chain keeps it a chain.
pub proof fn lemma_chain_cons(e: UnrewardedRelayerEntry, s: Seq<UnrewardedRelayerEntry>, floor: u64)
    requires
        e.begin == floor + 1,
        e.begin <= e.end,
        entries_chain(s, e.end),
    ensures
        entries_chain(seq![e] + s, floor),
{
    let c = seq![e] + s;
    assert(forall|j: int| 1 <= j < c.len() ==> (#[trigger] c[j]) == s[j - 1]);
    assert(c[0] == e);
    assert(forall|j: int| 0 <= j < c.len() ==> (#[trigger] c[j]).begin <= c[j].end);
    assert(c.len() > 1 ==> c[1].begin == c[0].end + 1);
    assert(forall|j: int| 2 <= j < c.len() ==> (#[trigger] c[j]).begin == c[j - 1].end + 1);
}

/// Dropping a chain's first range leaves a chain above that range's end.
pub proof fn lemma_chain_uncons(entries: Seq<UnrewardedRelayerEntry>, floor: u64)
    requires
        entries_chain(entries, floor),
        entries.len() > 0,
    ensures
        entries_chain(entries.drop_first(), entries[0].end),
{
    let rest = entries.drop_first();
    assert(forall|j: int| 0 <= j < rest.len() ==> (#[trigger] rest[j]) == entries[j + 1]);
}

/// A non-empty chain ends strictly above its floor.
pub proof fn lemma_chain_last_above_floor(entries: Seq<UnrewardedRelayerEntry>, floor: u64)
    requires
        entries_chain(entries, floor),
        entries.len() > 0,
    ensures
        entries.last().end > floor,
    decreases entries.len(),
{
    if entries.len() == 1 {
        assert(entries.last() == entries[0]);
    } else {
        lemma_chain_uncons(entries, floor);
        lemma_chain_last_above_floor(entries.drop_first(), entries[0].end);
        assert(entries.drop_first().last() == entries.last());
    }
}

/// Every range of a chain ends at or below the chain's last end.
pub proof fn lemma_chain_ends_bounded(entries: Seq<UnrewardedRelayerEntry>, floor: u64)
    requires
        entries_chain(entries, floor),
    ensures
        forall|j: int| 0 <= j < entries.len()
            ==> (#[trigger] entries[j].end) <= entries.last().end,
    decreases entries.len(),
{
    if entries.len() > 1 {
        lemma_chain_uncons(entries, floor);
        let rest = entries.drop_first();
        lemma_chain_ends_bounded(rest, entries[0].end);
        assert(rest.last() == entries.last());
        assert forall|j: int| 0 <= j < entries.len()
            implies (#[trigger] entries[j].end) <= entries.last().end by {
            if j == 0 {
                assert(entries[1].begin == entries[0].end + 1);
                assert(entries[1].begin <= entries[1].end);
                assert(rest[0] == entries[1]);
                assert(rest[0].end <= rest.last().end);
            } else {
                assert(rest[j - 1] == entries[j]);
                assert(rest[j - 1].end <= rest.last().end);
            }
        }
    }
}

/// The records a genuine confirmation at `upto` retains are themselves a
/// well-formed chain: they chain up from `upto` and still stop at the old
/// last delivered nonce.
pub proof fn lemma_remaining_chain(entries: Seq<UnrewardedRelayerEntry>, floor: u64, upto: u64)
    requires
        entries.len() > 0,
        entries_chain(entries, floor),
        floor < upto <= entries.last().end,
    ensures
        entries_chain(spec_remaining(entries, upto), upto),
        spec_remaining(entries, upto).len() <= entries.len(),
        upto < entries.last().end ==> spec_remaining(entries, upto).len() > 0
            && spec_remaining(entries, upto).last().end == entries.last().end,
        upto == entries.last().end ==> spec_remaining(entries, upto).len() == 0,
    decreases entries.len(),
{
    let e0 = entries[0];
    let rest = entries.drop_first();
    lemma_chain_uncons(entries, floor);
    if e0.end <= upto {
        if rest.len() == 0 {
            assert(entries.last() == e0);
            assert(spec_remaining(rest, upto) =~= Seq::<UnrewardedRelayerEntry>::empty());
            assert(spec_remaining(entries, upto) == spec_remaining(rest, upto));
        } else {
            assert(rest.last() == entries.last());
            if upto == e0.end {
                assert(rest[0].begin == e0.end + 1 > upto);
                assert(spec_remaining(rest, upto) == rest);
                assert(spec_remaining(entries, upto) == rest);
                lemma_chain_last_above_floor(rest, e0.end);
            } else {
                lemma_remaining_chain(rest, e0.end, upto);
                assert(spec_remaining(entries, upto) == spec_remaining(rest, upto));
            }
        }
    } else {
        // The head entry itself is split: floor < upto < entries[0].end.
        assert(e0.begin == floor + 1 <= upto);
        let e_new = UnrewardedRelayerEntry {
            relayer: e0.relayer,
            begin: (upto + 1) as u64,
            end: e0.end,
        };
        let rem = spec_remaining(entries, upto);
        assert(rem == seq![e_new] + rest);
        lemma_chain_cons(e_new, rest, upto);
        if rest.len() == 0 {
            assert(rem.last() == e_new);
            assert(entries.last() == e0);
        } else {
            assert(rem.last() == rest.last());
            assert(rest.last() == entries.last());
            lemma_chain_last_above_floor(rest, e0.end);
        }
    }
}

impl InboundLane {
    /// Acknowledge every delivery up to `new_last_confirmed_nonce` and hand
    /// the covered unrewarded-relayer records out for rewarding.
    ///
    /// A value above the highest delivered nonce fails with
    /// `NonceNotInFlight` and changes nothing. A stale value (at or below
    /// the current confirmation) is a no-op success returning no entries:
    /// replaying a confirmation can never regress state or hand a record
    /// out twice. Otherwise the entries fully covered by the confirmed
    /// range are removed and returned; an entry only partially covered is
    /// split, its unconfirmed remainder retained.
    pub fn confirm(&mut self, new_last_confirmed_nonce: u64) -> (r: Result<
        Vec<UnrewardedRelayerEntry>,
        BridgeError,
    >)
        requires
            old(self).wf(),
        ensures
            final(self).wf(),
            old(self).confirmation_is_stale(new_last_confirmed_nonce) ==> {
                &&& (r matches Ok(confirmed) && confirmed@.len() == 0)
                &&& *final(self) == *old(self)
            },
            new_last_confirmed_nonce > old(self).last_delivered_nonce() ==> {
                &&& r == Err::<Vec<UnrewardedRelayerEntry>, BridgeError>(BridgeError::NonceNotInFlight)
                &&& *final(self) == *old(self)
            },
            old(self).confirmation_advances(new_last_confirmed_nonce) ==> {
                &&& r is Ok
                &&& (r matches Ok(confirmed)
                        ==> confirmed@ == spec_confirmed(old(self).relayers@, new_last_confirmed_nonce))
                &&& final(self).relayers@
                        == spec_remaining(old(self).relayers@, new_last_confirmed_nonce)
                &&& final(self).last_confirmed_nonce == new_last_confirmed_nonce
                &&& final(self).last_delivered_nonce() == old(self).last_delivered_nonce()
                &&& final(self).lane == old(self).lane
                &&& final(self).limits == old(self).limits
            },
    {
        if new_last_confirmed_nonce <= self.last_confirmed_nonce {
            return Ok(Vec::new());
        }
        if new_last_confirmed_nonce > self.last_delivered() {
            return Err(BridgeError::NonceNotInFlight);
        }
        let upto = new_last_confirmed_nonce;
        let ghost entries0 = self.relayers@;
        let ghost floor0 = self.last_confirmed_nonce;
        let ghost mut k: int = 0;
        let mut confirmed: Vec<UnrewardedRelayerEntry> = Vec::new();
        // Drain the entries the confirmed range covers in full.
        while self.relayers.len() > 0 && self.relayers[0].end <= upto
            invariant
                0 <= k <= entries0.len(),
                self.relayers@ == entries0.subrange(k, entries0.len() as int),
                confirmed@ == entries0.subrange(0, k),
                forall|j: int| 0 <= j < k ==> (#[trigger] entries0[j]).end <= upto,
                self.lane == old(self).lane,
                self.limits == old(self).limits,
                self.last_confirmed_nonce == old(self).last_confirmed_nonce,
            decreases self.relayers@.len(),
        {
            let entry = self.relayers.remove(0);
            confirmed.push(entry);
            proof {
                k = k + 1;
                assert(self.relayers@ =~= entries0.subrange(k, entries0.len() as int));
                assert(confirmed@ =~= entries0.subrange(0, k));
            }
        }
        proof {
            assert(entries0.len() > 0);
            if self.relayers@.len() == 0 {
                assert(k == entries0.len());
            } else {
                assert(self.relayers@[0] == entries0[k]);
            }
            lemma_split_at(entries0, upto, k);
            lemma_confirmed_chain(entries0, floor0, upto);
            lemma_remaining_chain(entries0, floor0, upto);
        }
        // Split the entry the confirmed range covers only in part.
        if self.relayers.len() > 0 {
            let head = self.relayers[0];
            if head.begin <= upto {
                let split_off = self.relayers.remove(0);
                confirmed.push(UnrewardedRelayerEntry {
                    relayer: split_off.relayer,
                    begin: split_off.begin,
                    end: upto,
                });
                self.relayers.insert(0, UnrewardedRelayerEntry {
                    relayer: split_off.relayer,
                    begin: upto + 1,
                    end: split_off.end,
                });
                proof {
                    assert(confirmed@ =~= spec_confirmed(entries0, upto));
                    assert(self.relayers@ =~= spec_remaining(entries0, upto));
                }
            } else {
                proof {
                    assert(confirmed@ =~= spec_confirmed(entries0, upto));
                    assert(self.relayers@ =~= spec_remaining(entries0, upto));
                }
            }
        } else {
            proof {
                assert(confirmed@ =~= spec_confirmed(entries0, upto));
                assert(self.relayers@ =~= spec_remaining(entries0, upto));
            }
        }
        self.last_confirmed_nonce = upto;
        Ok(confirmed)
    }

    /// True when confirming up to `nonce` is a stale replay.
    pub open spec fn confirmation_is_stale(self, nonce: u64) -> bool {
        nonce <= self.last_confirmed_nonce
    }

    /// True when confirming up to `nonce` genuinely advances the lane.
    pub open spec fn confirmation_advances(self, nonce: u64) -> bool {
        self.last_confirmed_nonce < nonce <= self.last_delivered_nonce()
    }
}

} // verus!
