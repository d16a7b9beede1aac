//! Relayer-reward accounting: a ledger of accumulated credit per relayer
//! per lane, and the pluggable policy that prices confirmed work.
//!
//! The ledger only accumulates; paying out is the business of an external
//! payment procedure, which drains a cell through [`RelayerRewardLedger::claim`].

use vstd::prelude::*;

use crate::types::LaneId;

verus! {

/// One ledger cell: accumulated credit of `relayer` on `lane`.
#[derive(Clone, Copy, PartialEq, Eq, Structural, Debug)]
pub struct RewardEntry {
    /// The relayer being owed.
    pub relayer: u64,
    /// The lane the work was done on.
    pub lane: LaneId,
    /// Accumulated credit, saturating at the numeric maximum.
    pub amount: u64,
}

/// `v` capped at what a 64-bit amount can hold.
pub open spec fn cap_u64(v: int) -> u64 {
    if v > u64::MAX {
        u64::MAX
    } else {
        v as u64
    }
}

/// The credit the cells record for `(relayer, lane)`: the first matching
/// cell's amount, or 0 when no cell exists yet.
pub open spec fn spec_credit_of(entries: Seq<RewardEntry>, relayer: u64, lane: LaneId) -> u64
    decreases entries.len(),
{
    if entries.len() == 0 {
        0u64
    } else if entries[0].relayer == relayer && entries[0].lane == lane {
        entries[0].amount
    } else {
        spec_credit_of(entries.drop_first(), relayer, lane)
    }
}

/// Replacing cell `i` by one with the same key changes exactly that
/// key's credit, provided keys are unique.
proof fn lemma_credit_update(
    entries: Seq<RewardEntry>,
    i: int,
    cell: RewardEntry,
    relayer: u64,
    lane: LaneId,
)
    requires
        0 <= i < entries.len(),
        cell.relayer == entries[i].relayer,
        cell.lane == entries[i].lane,
        forall|a: int, b: int| 0 <= a < b < entries.len()
            ==> !((#[trigger] entries[a]).relayer == (#[trigger] entries[b]).relayer
                && entries[a].lane == entries[b].lane),
    ensures
        spec_credit_of(entries.update(i, cell), relayer, lane) == if cell.relayer == relayer
            && cell.lane == lane {
            cell.amount
        } else {
            spec_credit_of(entries, relayer, lane)
        },
    decreases entries.len(),
{
    let updated = entries.update(i, cell);
    if i == 0 {
        assert(updated[0] == cell);
        assert(updated.drop_first() =~= entries.drop_first());
    } else {
        assert(updated[0] == entries[0]);
        assert(updated.drop_first() =~= entries.drop_first().update(i - 1, cell));
        assert(forall|a: int, b: int| 0 <= a < b < entries.drop_first().len()
            ==> !((#[trigger] entries.drop_first()[a]).relayer
                == (#[trigger] entries.drop_first()[b]).relayer
                && entries.drop_first()[a].lane == entries.drop_first()[b].lane));
        lemma_credit_update(entries.drop_first(), i - 1, cell, relayer, lane);
    }
}

/// Appending a cell with a fresh key changes exactly that key's credit.
proof fn lemma_credit_push(entries: Seq<RewardEntry>, cell: RewardEntry, relayer: u64, lane: LaneId)
    requires
        forall|a: int| 0 <= a < entries.len()
            ==> !((#[trigger] entries[a]).relayer == cell.relayer && entries[a].lane == cell.lane),
    ensures
        spec_credit_of(entries.push(cell), relayer, lane) == if cell.relayer == relayer
            && cell.lane == lane {
            cell.amount
        } else {
            spec_credit_of(entries, relayer, lane)
        },
    decreases entries.len(),
{
    let appended = entries.push(cell);
    if entries.len() == 0 {
        assert(appended[0] == cell);
        assert(appended.drop_first() =~= entries);
    } else {
        assert(appended[0] == entries[0]);
        assert(appended.drop_first() =~= entries.drop_first().push(cell));
        lemma_credit_push(entries.drop_first(), cell, relayer, lane);
    }
}

/// Accumulated reward credit per relayer per lane. A cell is created on
/// first credit and never implicitly destroyed: claiming empties it, but
/// the credit is handed to the caller, never dropped.
pub struct RelayerRewardLedger {
    /// The ledger cells, one per (relayer, lane) pair ever credited.
    pub entries: Vec<RewardEntry>,
}

impl RelayerRewardLedger {
    /// Credit recorded for `relayer` on `lane` (0 before the first credit).
    pub open spec fn credit_of(self, relayer: u64, lane: LaneId) -> u64 {
        spec_credit_of(self.entries@, relayer, lane)
    }

    /// Well-formedness: one cell per (relayer, lane) pair.
    pub open spec fn wf(self) -> bool {
        forall|a: int, b: int| 0 <= a < b < self.entries@.len()
            ==> !((#[trigger] self.entries@[a]).relayer == (#[trigger] self.entries@[b]).relayer
                && self.entries@[a].lane == self.entries@[b].lane)
    }

    /// An empty ledger: nobody is owed anything.
    pub fn new() -> (r: RelayerRewardLedger)
        ensures
            r.wf(),
            forall|relayer: u64, lane: LaneId| #[trigger] r.credit_of(relayer, lane) == 0,
    {
        RelayerRewardLedger { entries: Vec::new() }
    }

    /// Add `amount` to the credit of `relayer` on `lane`, saturating at
    /// the numeric maximum — never wrapping, never failing.
    pub fn credit(&mut self, relayer: u64, lane: LaneId, amount: u64)
        requires
            old(self).wf(),
        ensures
            final(self).wf(),
            final(self).credit_of(relayer, lane)
                == cap_u64(old(self).credit_of(relayer, lane) + amount),
            forall|r2: u64, l2: LaneId| !(r2 == relayer && l2 == lane)
                ==> #[trigger] final(self).credit_of(r2, l2) == old(self).credit_of(r2, l2),
    {
        let ghost entries0 = self.entries@;
        let mut i: usize = 0;
        while i < self.entries.len()
            invariant
                0 <= i <= self.entries@.len(),
                self.entries@ == entries0,
                entries0 == old(self).entries@,
                forall|a: int, b: int| 0 <= a < b < entries0.len()
                    ==> !((#[trigger] entries0[a]).relayer == (#[trigger] entries0[b]).relayer
                        && entries0[a].lane == entries0[b].lane),
                forall|a: int| 0 <= a < i
                    ==> !((#[trigger] entries0[a]).relayer == relayer
                        && entries0[a].lane == lane),
            decreases self.entries@.len() - i,
        {
            let cell = self.entries[i];
            if cell.relayer == relayer && cell.lane == lane {
                let new_amount = if cell.amount > u64::MAX - amount {
                    u64::MAX
                } else {
                    cell.amount + amount
                };
                let slot = &mut self.entries[i];
                slot.amount = new_amount;
                proof {
                    assert(self.entries@ =~= entries0.update(
                        i as int,
                        RewardEntry { relayer, lane, amount: new_amount },
                    ));
                    lemma_credit_update(
                        entries0,
                        i as int,
                        RewardEntry { relayer, lane, amount: new_amount },
                        relayer,
                        lane,
                    );
                    lemma_credit_first_match(entries0, i as int, relayer, lane);
                    assert forall|r2: u64, l2: LaneId| !(r2 == relayer && l2 == lane)
                        implies #[trigger] spec_credit_of(self.entries@, r2, l2)
                            == spec_credit_of(entries0, r2, l2) by {
                        lemma_credit_update(
                            entries0,
                            i as int,
                            RewardEntry { relayer, lane, amount: new_amount },
                            r2,
                            l2,
                        );
                    }
                }
                return ;
            }
            i = i + 1;
        }
        // No cell yet: create one.
        self.entries.push(RewardEntry { relayer, lane, amount });
        proof {
            lemma_credit_push(entries0, RewardEntry { relayer, lane, amount }, relayer, lane);
            lemma_credit_no_match(entries0, relayer, lane);
            assert forall|r2: u64, l2: LaneId| !(r2 == relayer && l2 == lane)
                implies #[trigger] spec_credit_of(self.entries@, r2, l2)
                    == spec_credit_of(entries0, r2, l2) by {
                lemma_credit_push(entries0, RewardEntry { relayer, lane, amount }, r2, l2);
            }
        }
    }

    /// Read the credit of `relayer` on `lane` without touching it.
    pub fn balance(&self, relayer: u64, lane: LaneId) -> (r: u64)
        ensures
            r == self.credit_of(relayer, lane),
    {
        let mut i: usize = 0;
        while i < self.entries.len()
            invariant
                0 <= i <= self.entries@.len(),
                forall|a: int| 0 <= a < i
                    ==> !((#[trigger] self.entries@[a]).relayer == relayer
                        && self.entries@[a].lane == lane),
            decreases self.entries@.len() - i,
        {
            let cell = self.entries[i];
            if cell.relayer == relayer && cell.lane == lane {
                proof {
                    lemma_credit_first_match(self.entries@, i as int, relayer, lane);
                }
                return cell.amount;
            }
            i = i + 1;
        }
        proof {
            lemma_credit_no_match(self.entries@, relayer, lane);
        }
        0
    }

    /// Empty the cell of `relayer` on `lane` and return what it held, for
    /// an external payment procedure to pay out. The ledger itself never
    /// initiates payment.
    pub fn claim(&mut self, relayer: u64, lane: LaneId) -> (r: u64)
        requires
            old(self).wf(),
        ensures
            final(self).wf(),
            r == old(self).credit_of(relayer, lane),
            final(self).credit_of(relayer, lane) == 0,
            forall|r2: u64, l2: LaneId| !(r2 == relayer && l2 == lane)
                ==> #[trigger] final(self).credit_of(r2, l2) == old(self).credit_of(r2, l2),
    {
        let ghost entries0 = self.entries@;
        let mut i: usize = 0;
        while i < self.entries.len()
            invariant
                0 <= i <= self.entries@.len(),
                self.entries@ == entries0,
                entries0 == old(self).entries@,
                forall|a: int, b: int| 0 <= a < b < entries0.len()
                    ==> !((#[trigger] entries0[a]).relayer == (#[trigger] entries0[b]).relayer
                        && entries0[a].lane == entries0[b].lane),
                forall|a: int| 0 <= a < i
                    ==> !((#[trigger] entries0[a]).relayer == relayer
                        && entries0[a].lane == lane),
            decreases self.entries@.len() - i,
        {
            let cell = self.entries[i];
            if cell.relayer == relayer && cell.lane == lane {
                let slot = &mut self.entries[i];
                slot.amount = 0;
                proof {
                    assert(self.entries@ =~= entries0.update(
                        i as int,
                        RewardEntry { relayer, lane, amount: 0 },
                    ));
                    lemma_credit_update(
                        entries0,
                        i as int,
                        RewardEntry { relayer, lane, amount: 0 },
                        relayer,
                        lane,
                    );
                    lemma_credit_first_match(entries0, i as int, relayer, lane);
                    assert forall|r2: u64, l2: LaneId| !(r2 == relayer && l2 == lane)
                        implies #[trigger] spec_credit_of(self.entries@, r2, l2)
                            == spec_credit_of(entries0, r2, l2) by {
                        lemma_credit_update(
                            entries0,
                            i as int,
                            RewardEntry { relayer, lane, amount: 0 },
                            r2,
                            l2,
                        );
                    }
                }
                return cell.amount;
            }
            i = i + 1;
        }
        proof {
            lemma_credit_no_match(entries0, relayer, lane);
        }
        0
    }
}

/// When the first `i` cells miss the key and cell `i` hits it, the
/// recorded credit is cell `i`'s amount.
proof fn lemma_credit_first_match(entries: Seq<RewardEntry>, i: int, relayer: u64, lane: LaneId)
    requires
        0 <= i < entries.len(),
        entries[i].relayer == relayer,
        entries[i].lane == lane,
        forall|a: int| 0 <= a < i
            ==> !((#[trigger] entries[a]).relayer == relayer && entries[a].lane == lane),
    ensures
        spec_credit_of(entries, relayer, lane) == entries[i].amount,
    decreases i,
{
    if i > 0 {
        assert(entries.drop_first()[i - 1] == entries[i]);
        assert(forall|a: int| 0 <= a < i - 1
            ==> (#[trigger] entries.drop_first()[a]) == entries[a + 1]);
        lemma_credit_first_match(entries.drop_first(), i - 1, relayer, lane);
    }
}

/// When no cell carries the key, the recorded credit is 0.
proof fn lemma_credit_no_match(entries: Seq<RewardEntry>, relayer: u64, lane: LaneId)
    requires
        forall|a: int| 0 <= a < entries.len()
            ==> !((#[trigger] entries[a]).relayer == relayer && entries[a].lane == lane),
    ensures
        spec_credit_of(entries, relayer, lane) == 0,
    decreases entries.len(),
{
    if entries.len() > 0 {
        lemma_credit_no_match(entries.drop_first(), relayer, lane);
    }
}

/// The pluggable pricing policy: a pure function from the two facts of a
/// confirmed entry — how many messages were delivered and how much
/// declared dispatch weight they consumed — to a reward amount. Purity
/// (no hidden state) is what makes replayed confirmations harmless: the
/// same entry is never priced twice, because a replay confirms nothing.
pub trait RewardPolicy {
    /// The amount this policy awards for `messages` delivered messages
    /// consuming `weight` declared dispatch weight.
    spec fn spec_reward(&self, messages: u64, weight: u64) -> u64;

    /// Price one confirmed entry.
    fn reward(&self, messages: u64, weight: u64) -> (r: u64)
        ensures
            r == self.spec_reward(messages, weight),
    ;
}

/// A linear policy: so much per message plus so much per unit of declared
/// dispatch weight, saturating at the numeric maximum.
pub struct LinearRewardPolicy {
    /// Credit per delivered message.
    pub per_message: u64,
    /// Credit per unit of declared dispatch weight.
    pub per_weight_unit: u64,
}

impl RewardPolicy for LinearRewardPolicy {
    open spec fn spec_reward(&self, messages: u64, weight: u64) -> u64 {
        cap_u64(messages * self.per_message + weight * self.per_weight_unit)
    }

    fn reward(&self, messages: u64, weight: u64) -> (r: u64) {
        proof {
            assert((messages as int) * (self.per_message as int)
                <= (u64::MAX as int) * (u64::MAX as int)) by (nonlinear_arith)
                requires
                    messages <= u64::MAX,
                    self.per_message <= u64::MAX,
            ;
            assert((weight as int) * (self.per_weight_unit as int)
                <= (u64::MAX as int) * (u64::MAX as int)) by (nonlinear_arith)
                requires
                    weight <= u64::MAX,
                    self.per_weight_unit <= u64::MAX,
            ;
        }
        let from_messages: u128 = (messages as u128) * (self.per_message as u128);
        let from_weight: u128 = (weight as u128) * (self.per_weight_unit as u128);
        let c1: u128 = if from_messages > u64::MAX as u128 {
            u64::MAX as u128
        } else {
            from_messages
        };
        let c2: u128 = if from_weight > u64::MAX as u128 {
            u64::MAX as u128
        } else {
            from_weight
        };
        let total: u128 = c1 + c2;
        if total > u64::MAX as u128 {
            u64::MAX
        } else {
            total as u64
        }
    }
}

} // verus!
