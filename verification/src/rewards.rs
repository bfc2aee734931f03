//! The reward distributor: deterministic, idempotent computation of
//! per-era rewards for a contract's stakers and for its operator.
//!
//! The engine computes who is owed what and records completion; the
//! host applies the returned credits through its currency service.

use vstd::prelude::*;
use crate::types::{
    AccountId, Balance, EraIndex, Error, Event, RewardDestination, StakeRecord,
};
use crate::state::StakingState;
use crate::model::{
    lemma_div_superadditive, lemma_element_le_sum, lemma_mul_div_le, lemma_stakes_take_step,
    lemma_mul_u64_fits_u128, lemma_sum_amounts_nonneg, lemma_sum_amounts_push,
    lemma_sum_amounts_take_le, sum_amounts,
};
use crate::registry::is_registered;

verus! {

/// Whether `era` lies in the payable window: some era is planned and
/// some era active, `era` is already over, and it is still within the
/// retained history behind the planned era.
pub open spec fn era_payable(s: StakingState, era: EraIndex) -> bool {
    &&& s.current_era is Some
    &&& s.active_era is Some
    &&& era < s.active_era->0.index
    &&& era + s.history_depth >= s.current_era->0
}

/// The stake records snapshotted when `era` was planned.
pub open spec fn era_records(s: StakingState, era: EraIndex) -> Seq<StakeRecord> {
    if s.era_snapshots@.contains_key(era) {
        s.era_snapshots@[era].records@
    } else {
        Seq::empty()
    }
}

/// The total stake snapshotted when `era` was planned.
pub open spec fn era_total_stake(s: StakingState, era: EraIndex) -> Balance {
    if s.era_snapshots@.contains_key(era) {
        s.era_snapshots@[era].total
    } else {
        0
    }
}

/// The payout recorded when `era` ended.
pub open spec fn era_reward(s: StakingState, era: EraIndex) -> Balance {
    if s.era_rewards@.contains_key(era) {
        s.era_rewards@[era]
    } else {
        0
    }
}

/// The first `cap` snapshot records on `contract`, in snapshot order:
/// the stakers rewarded for the era.
pub open spec fn staker_rows(
    records: Seq<StakeRecord>,
    contract: AccountId,
    cap: nat,
) -> Seq<StakeRecord>
    decreases records.len(),
{
    if records.len() == 0 || cap == 0 {
        Seq::empty()
    } else if records[0].contract == contract {
        seq![records[0]] + staker_rows(records.skip(1), contract, (cap - 1) as nat)
    } else {
        staker_rows(records.skip(1), contract, cap)
    }
}

/// The contract's allocation: the era payout times the contract's
/// rewarded stake over the era's total stake, rounded down; zero when
/// nothing was staked.
pub open spec fn contract_allocation(
    reward: Balance,
    contract_stake: int,
    total_stake: Balance,
) -> int {
    if total_stake == 0 {
        0
    } else {
        reward * contract_stake / (total_stake as int)
    }
}

/// The operator's share of an allocation, in hundredths, rounded
/// down.
pub open spec fn operator_cut(allocation: int, percent: Balance) -> int {
    allocation * percent / 100
}

/// One staker's share of the stakers' pool, proportional to the
/// staker's rewarded stake, rounded down.
pub open spec fn share_of(pool: int, amount: Balance, contract_stake: int) -> int {
    if contract_stake == 0 {
        0
    } else {
        pool * amount / contract_stake
    }
}

/// Where a stash's reward goes; a stash that never chose defaults to
/// itself.
pub open spec fn resolve_destination(s: StakingState, stash: AccountId) -> RewardDestination {
    if s.payees@.contains_key(stash) {
        s.payees@[stash]
    } else {
        RewardDestination::Stash
    }
}

/// The credit one staker receives, if any: the destination account
/// and the amount; a withheld destination yields no credit.
pub open spec fn credit_for(s: StakingState, stash: AccountId, amount: Balance) -> Option<
    (AccountId, Balance),
> {
    match resolve_destination(s, stash) {
        RewardDestination::Stash => Option::Some((stash, amount)),
        RewardDestination::Controller => if s.bonded@.contains_key(stash) {
            Option::Some((s.bonded@[stash], amount))
        } else {
            Option::Some((stash, amount))
        },
        RewardDestination::Account(a) => Option::Some((a, amount)),
        RewardDestination::NoPayee => Option::None,
    }
}

/// The credits one staker payout hands the host, one per rewarded
/// staker whose destination is not withheld, in snapshot order.
pub open spec fn credit_list(
    s: StakingState,
    rows: Seq<StakeRecord>,
    pool: int,
    contract_stake: int,
) -> Seq<(AccountId, Balance)>
    decreases rows.len(),
{
    if rows.len() == 0 {
        Seq::empty()
    } else {
        let rest = credit_list(s, rows.drop_last(), pool, contract_stake);
        match credit_for(
            s,
            rows.last().stash,
            share_of(pool, rows.last().amount, contract_stake) as Balance,
        ) {
            Option::Some(c) => rest.push(c),
            Option::None => rest,
        }
    }
}

/// Sum of the amounts in a credit list.
pub open spec fn credits_total(l: Seq<(AccountId, Balance)>) -> int
    decreases l.len(),
{
    if l.len() == 0 {
        0
    } else {
        credits_total(l.drop_last()) + l.last().1
    }
}

proof fn lemma_rows_skip_step(records: Seq<StakeRecord>, contract: AccountId, cap: nat, i: int)
    requires
        0 <= i < records.len(),
    ensures
        cap == 0 ==> staker_rows(records.skip(i), contract, cap) == Seq::<StakeRecord>::empty(),
        cap > 0 && records[i].contract == contract ==> staker_rows(records.skip(i), contract, cap)
            == seq![records[i]] + staker_rows(records.skip(i + 1), contract, (cap - 1) as nat),
        records[i].contract != contract ==> staker_rows(records.skip(i), contract, cap)
            == staker_rows(records.skip(i + 1), contract, cap),
{
    assert(records.skip(i).len() == records.len() - i);
    assert(records.skip(i)[0] == records[i]);
    assert(records.skip(i).skip(1) =~= records.skip(i + 1));
}

impl StakingState {
    /// Whether a payout for `(contract, era)` was already completed.
    #[verifier::loop_isolation(false)]
    fn claims_contain(
        claims: &Vec<(AccountId, EraIndex)>,
        contract: AccountId,
        era: EraIndex,
    ) -> (b: bool)
        ensures
            b == claims@.contains((contract, era)),
    {
        let n = claims.len();
        let mut i: usize = 0;
        while i < n
            invariant
                i <= n,
                forall|m: int| 0 <= m < i ==> claims@[m] != (contract, era),
            decreases n - i,
        {
            let p = claims[i];
            if p.0 == contract && p.1 == era {
                proof {
                    assert(claims@[i as int] == (contract, era));
                }
                return true;
            }
            i = i + 1;
        }
        proof {
            assert forall|j: int| 0 <= j < claims@.len() implies claims@[j]
                != (contract, era) by {}
            assert(!claims@.contains((contract, era)));
        }
        false
    }

    /// The rewarded rows for one contract and their summed stake.
    #[verifier::loop_isolation(false)]
    fn collect_rows(records: &Vec<StakeRecord>, contract: AccountId, cap: usize) -> (res: (
        Vec<StakeRecord>,
        Balance,
    ))
        requires
            sum_amounts(records@) <= Balance::MAX,
        ensures
            res.0@ == staker_rows(records@, contract, cap as nat),
            res.1 == sum_amounts(res.0@),
            sum_amounts(res.0@) <= sum_amounts(records@),
    {
        let n = records.len();
        let mut rows: Vec<StakeRecord> = Vec::new();
        let mut stake: Balance = 0;
        let mut i: usize = 0;
        proof {
            lemma_sum_amounts_nonneg(records@);
            assert(records@.skip(0) =~= records@);
            assert(Seq::<StakeRecord>::empty() + staker_rows(records@, contract, cap as nat)
                =~= staker_rows(records@, contract, cap as nat));
            assert(records@.take(0) =~= Seq::<StakeRecord>::empty());
        }
        while i < n
            invariant
                i <= n,
                rows@.len() <= cap,
                staker_rows(records@, contract, cap as nat) == rows@ + staker_rows(
                    records@.skip(i as int),
                    contract,
                    (cap - rows@.len()) as nat,
                ),
                stake == sum_amounts(rows@),
                sum_amounts(rows@) <= sum_amounts(records@.take(i as int)),
            decreases n - i,
        {
            let rec = records[i];
            proof {
                lemma_stakes_take_step(records@, contract, i as int);
                lemma_sum_amounts_take_le(records@, i + 1 as int);
                lemma_rows_skip_step(records@, contract, (cap - rows@.len()) as nat, i as int);
            }
            if rec.contract == contract && rows.len() < cap {
                proof {
                    lemma_sum_amounts_push(rows@, rec);
                    assert(rows@ + seq![rec] =~= rows@.push(rec));
                    assert((rows@ + seq![rec]) + staker_rows(
                        records@.skip(i + 1 as int),
                        contract,
                        (cap - rows@.len() - 1) as nat,
                    ) =~= rows@ + (seq![rec] + staker_rows(
                        records@.skip(i + 1 as int),
                        contract,
                        (cap - rows@.len() - 1) as nat,
                    )));
                }
                stake = stake + rec.amount;
                rows.push(rec);
            }
            i = i + 1;
        }
        proof {
            assert(records@.skip(n as int) =~= Seq::<StakeRecord>::empty());
            assert(rows@ + Seq::<StakeRecord>::empty() =~= rows@);
            assert(records@.take(n as int) =~= records@);
        }
        (rows, stake)
    }

    /// Pay the stakers of `contract_id` for `era`: each rewarded
    /// staker receives the stakers' pool times their snapshotted
    /// stake over the contract's rewarded stake, rounded down,
    /// credited per their reward destination as read now. The credits
    /// are returned for the host to apply, completion is recorded —
    /// a repeated call is a no-op returning no credits — and a
    /// `Reward` event carries the stakers' total and the contract's
    /// allocation. Rounding remainders are retained: the credits plus
    /// the operator's cut never exceed the allocation, which never
    /// exceeds the era's payout.
    ///
    /// Fails `InvalidEraToReward` when `era` is not payable; a
    /// failing call changes nothing.
    #[verifier::loop_isolation(false)]
    #[verifier::rlimit(100)]
    pub fn payout_stakers(&mut self, contract_id: AccountId, era: EraIndex) -> (r: Result<
        Vec<(AccountId, Balance)>,
        Error,
    >)
        requires
            old(self).wf(),
        ensures
            final(self).wf(),
            !era_payable(*old(self), era) ==> (r matches Err(e) && e
                == Error::InvalidEraToReward && *final(self) == *old(self)),
            era_payable(*old(self), era) && old(self).claimed_staker_payouts@.contains(
                (contract_id, era),
            ) ==> (r matches Ok(credits) && credits@ == Seq::<(AccountId, Balance)>::empty()
                && *final(self) == *old(self)),
            era_payable(*old(self), era) && !old(self).claimed_staker_payouts@.contains(
                (contract_id, era),
            ) ==> {
                let rows = staker_rows(
                    era_records(*old(self), era),
                    contract_id,
                    old(self).max_rewarded_stakers as nat,
                );
                let contract_stake = sum_amounts(rows);
                let alloc = contract_allocation(
                    era_reward(*old(self), era),
                    contract_stake,
                    era_total_stake(*old(self), era),
                );
                let pool = alloc - operator_cut(alloc, old(self).operator_percent);
                let credits = credit_list(*old(self), rows, pool, contract_stake);
                &&& r matches Ok(c) && c@ == credits
                &&& 0 <= credits_total(credits) <= pool
                &&& 0 <= alloc <= era_reward(*old(self), era)
                &&& final(self).claimed_staker_payouts@
                    == old(self).claimed_staker_payouts@.push((contract_id, era))
                &&& final(self).events@ == old(self).events@.push(
                    Event::Reward(credits_total(credits) as Balance, alloc as Balance),
                )
                &&& *final(self) == (StakingState {
                    claimed_staker_payouts: final(self).claimed_staker_payouts,
                    events: final(self).events,
                    ..*old(self)
                })
            },
    {
        let current = match self.current_era {
            Option::None => {
                return Err(Error::InvalidEraToReward);
            },
            Option::Some(c) => c,
        };
        let active_index = match self.active_era {
            Option::None => {
                return Err(Error::InvalidEraToReward);
            },
            Option::Some(a) => a.index,
        };
        if era >= active_index {
            return Err(Error::InvalidEraToReward);
        }
        if (era as u64) + (self.history_depth as u64) < (current as u64) {
            return Err(Error::InvalidEraToReward);
        }
        if Self::claims_contain(&self.claimed_staker_payouts, contract_id, era) {
            return Ok(Vec::new());
        }
        let reward = match self.era_rewards.get(&era) {
            Option::None => 0,
            Option::Some(v) => *v,
        };
        let rows;
        let contract_stake;
        let total_stake;
        match self.era_snapshots.get(&era) {
            Option::None => {
                rows = Vec::new();
                contract_stake = 0;
                total_stake = 0;
            },
            Option::Some(snap) => {
                proof {
                    lemma_sum_amounts_nonneg(snap.records@);
                }
                let collected = Self::collect_rows(
                    &snap.records,
                    contract_id,
                    self.max_rewarded_stakers,
                );
                rows = collected.0;
                contract_stake = collected.1;
                total_stake = snap.total;
            },
        }
        proof {
            assert(rows@ == staker_rows(
                era_records(*old(self), era),
                contract_id,
                old(self).max_rewarded_stakers as nat,
            ));
            assert(contract_stake <= total_stake);
            lemma_sum_amounts_nonneg(rows@);
        }
        let alloc: Balance = if total_stake == 0 {
            0
        } else {
            proof {
                lemma_mul_u64_fits_u128(reward as int, contract_stake as int);
                lemma_mul_div_le(reward as int, contract_stake as int, total_stake as int);
                vstd::arithmetic::div_mod::lemma_div_pos_is_pos(
                    (reward as int) * (contract_stake as int),
                    total_stake as int,
                );
            }
            (((reward as u128) * (contract_stake as u128)) / (total_stake as u128)) as u64
        };
        proof {
            lemma_mul_div_le(alloc as int, self.operator_percent as int, 100);
            vstd::arithmetic::div_mod::lemma_div_pos_is_pos(
                (alloc as int) * (self.operator_percent as int),
                100,
            );
        }
        let cut: Balance = (((alloc as u128) * (self.operator_percent as u128)) / 100u128) as u64;
        let pool: Balance = alloc - cut;
        let m = rows.len();
        let mut credits: Vec<(AccountId, Balance)> = Vec::new();
        let mut paid: Balance = 0;
        let mut k: usize = 0;
        while k < m
            invariant
                k <= m,
                m == rows@.len(),
                credits@ == credit_list(*old(self), rows@.take(k as int), pool as int,
                    contract_stake as int),
                paid == credits_total(credits@),
                contract_stake > 0 ==> paid <= (pool as int) * sum_amounts(rows@.take(k as int))
                    / (contract_stake as int),
                contract_stake == 0 ==> paid == 0,
                paid <= pool,
            decreases m - k,
        {
            let rec = rows[k];
            proof {
                lemma_element_le_sum(rows@, k as int);
                lemma_stakes_take_step(rows@, contract_id, k as int);
                lemma_sum_amounts_take_le(rows@, k + 1 as int);
                lemma_sum_amounts_nonneg(rows@.take(k as int));
                if contract_stake > 0 {
                    lemma_mul_u64_fits_u128(pool as int, rec.amount as int);
                    lemma_mul_div_le(pool as int, rec.amount as int, contract_stake as int);
                    vstd::arithmetic::div_mod::lemma_div_pos_is_pos(
                        (pool as int) * (rec.amount as int),
                        contract_stake as int,
                    );
                    lemma_div_superadditive(
                        (pool as int) * sum_amounts(rows@.take(k as int)),
                        (pool as int) * (rec.amount as int),
                        contract_stake as int,
                    );
                    vstd::arithmetic::mul::lemma_mul_is_distributive_add(
                        pool as int,
                        sum_amounts(rows@.take(k as int)),
                        rec.amount as int,
                    );
                    vstd::arithmetic::mul::lemma_mul_nonnegative(
                        pool as int,
                        sum_amounts(rows@.take(k as int)),
                    );
                    lemma_mul_div_le(
                        pool as int,
                        sum_amounts(rows@.take(k + 1 as int)),
                        contract_stake as int,
                    );
                }
            }
            let amount: Balance = if contract_stake == 0 {
                0
            } else {
                (((pool as u128) * (rec.amount as u128)) / (contract_stake as u128)) as u64
                // bounded by the pool, which fits a word
            };
            let ghost credits_before = credits@;
            let dest = match self.payees.get(&rec.stash) {
                Option::None => RewardDestination::Stash,
                Option::Some(d) => *d,
            };
            match dest {
                RewardDestination::Stash => {
                    credits.push((rec.stash, amount));
                    paid = paid + amount;
                },
                RewardDestination::Controller => {
                    let target = match self.bonded.get(&rec.stash) {
                        Option::None => rec.stash,
                        Option::Some(c) => *c,
                    };
                    credits.push((target, amount));
                    paid = paid + amount;
                },
                RewardDestination::Account(a) => {
                    credits.push((a, amount));
                    paid = paid + amount;
                },
                RewardDestination::NoPayee => {},
            }
            proof {
                assert(rows@.take(k + 1 as int).drop_last() =~= rows@.take(k as int));
                assert(rows@.take(k + 1 as int).last() == rec);
                if credits@.len() > credits_before.len() {
                    assert(credits@.drop_last() =~= credits_before);
                }
            }
            k = k + 1;
        }
        proof {
            assert(rows@.take(m as int) =~= rows@);
            if contract_stake > 0 {
                vstd::arithmetic::div_mod::lemma_div_multiples_vanish(
                    pool as int,
                    contract_stake as int,
                );
                vstd::arithmetic::mul::lemma_mul_is_commutative(
                    pool as int,
                    contract_stake as int,
                );
            }
        }
        self.claimed_staker_payouts.push((contract_id, era));
        self.events.push(Event::Reward(paid, alloc));
        Ok(credits)
    }

    /// Pay the operator of `contract_id` for `era`: the registered
    /// depositor is owed the operator's cut of the contract's
    /// allocation. The credit is returned for the host to apply and
    /// completion is recorded — a repeated call is a no-op returning
    /// no credit.
    ///
    /// Fails `InvalidEraToReward` when `era` is not payable and
    /// `NotOperatedContracts` when the contract has no live
    /// registration; a failing call changes nothing.
    #[verifier::loop_isolation(false)]
    pub fn payout_contract(&mut self, contract_id: AccountId, era: EraIndex) -> (r: Result<
        Option<(AccountId, Balance)>,
        Error,
    >)
        requires
            old(self).wf(),
        ensures
            final(self).wf(),
            !era_payable(*old(self), era) ==> (r matches Err(e) && e
                == Error::InvalidEraToReward && *final(self) == *old(self)),
            era_payable(*old(self), era) && !is_registered(*old(self), contract_id) ==> (r
                matches Err(e) && e == Error::NotOperatedContracts && *final(self)
                == *old(self)),
            era_payable(*old(self), era) && is_registered(*old(self), contract_id)
                && old(self).claimed_operator_payouts@.contains((contract_id, era)) ==> (r
                matches Ok(c) && c is None && *final(self) == *old(self)),
            era_payable(*old(self), era) && is_registered(*old(self), contract_id)
                && !old(self).claimed_operator_payouts@.contains((contract_id, era)) ==> {
                let rows = staker_rows(
                    era_records(*old(self), era),
                    contract_id,
                    old(self).max_rewarded_stakers as nat,
                );
                let alloc = contract_allocation(
                    era_reward(*old(self), era),
                    sum_amounts(rows),
                    era_total_stake(*old(self), era),
                );
                let cut = operator_cut(alloc, old(self).operator_percent);
                &&& r matches Ok(c) && c == Option::Some(
                    (old(self).registrations@[contract_id].depositor, cut as Balance),
                )
                &&& 0 <= cut <= alloc <= era_reward(*old(self), era)
                &&& final(self).claimed_operator_payouts@
                    == old(self).claimed_operator_payouts@.push((contract_id, era))
                &&& *final(self) == (StakingState {
                    claimed_operator_payouts: final(self).claimed_operator_payouts,
                    ..*old(self)
                })
            },
    {
        let current = match self.current_era {
            Option::None => {
                return Err(Error::InvalidEraToReward);
            },
            Option::Some(c) => c,
        };
        let active_index = match self.active_era {
            Option::None => {
                return Err(Error::InvalidEraToReward);
            },
            Option::Some(a) => a.index,
        };
        if era >= active_index {
            return Err(Error::InvalidEraToReward);
        }
        if (era as u64) + (self.history_depth as u64) < (current as u64) {
            return Err(Error::InvalidEraToReward);
        }
        let depositor = match self.registrations.get(&contract_id) {
            Option::None => {
                return Err(Error::NotOperatedContracts);
            },
            Option::Some(reg) => {
                if !reg.registered {
                    return Err(Error::NotOperatedContracts);
                }
                reg.depositor
            },
        };
        if Self::claims_contain(&self.claimed_operator_payouts, contract_id, era) {
            return Ok(Option::None);
        }
        let reward = match self.era_rewards.get(&era) {
            Option::None => 0,
            Option::Some(v) => *v,
        };
        let contract_stake;
        let total_stake;
        match self.era_snapshots.get(&era) {
            Option::None => {
                contract_stake = 0;
                total_stake = 0;
            },
            Option::Some(snap) => {
                proof {
                    lemma_sum_amounts_nonneg(snap.records@);
                }
                let collected = Self::collect_rows(
                    &snap.records,
                    contract_id,
                    self.max_rewarded_stakers,
                );
                contract_stake = collected.1;
                total_stake = snap.total;
            },
        }
        let alloc: Balance = if total_stake == 0 {
            0
        } else {
            proof {
                lemma_mul_u64_fits_u128(reward as int, contract_stake as int);
                lemma_mul_div_le(reward as int, contract_stake as int, total_stake as int);
                vstd::arithmetic::div_mod::lemma_div_pos_is_pos(
                    (reward as int) * (contract_stake as int),
                    total_stake as int,
                );
            }
            (((reward as u128) * (contract_stake as u128)) / (total_stake as u128)) as u64
        };
        proof {
            lemma_mul_div_le(alloc as int, self.operator_percent as int, 100);
            vstd::arithmetic::div_mod::lemma_div_pos_is_pos(
                (alloc as int) * (self.operator_percent as int),
                100,
            );
        }
        let cut: Balance = (((alloc as u128) * (self.operator_percent as u128)) / 100u128) as u64;
        self.claimed_operator_payouts.push((contract_id, era));
        Ok(Option::Some((depositor, cut)))
    }
}

} // verus!
