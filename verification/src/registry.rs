//! The contract registry: registration with deposit, stake targets,
//! votes, and chilling.

use vstd::prelude::*;
use crate::types::{
    AccountId, Balance, ContractRegistration, Error, Event, StakeRecord, Vote, VoteRecord,
};
use crate::state::StakingState;
use crate::model::{
    apply_votes, controller_sum, lemma_adjacent_sorted, lemma_apply_votes_take_all,
    lemma_apply_votes_take_step, lemma_controller_sum_split, lemma_other_stakes_unique,
    lemma_other_votes_unique, lemma_stakes_take_all, lemma_stakes_take_step,
    lemma_sum_amounts_push, lemma_sum_amounts_take_le, lemma_votes_take_all,
    lemma_votes_take_step, lemma_vote_map_push, lemma_vote_map_update, other_stakes,
    other_votes, sum_amounts, unique_stake_pairs, unique_vote_keys, vote_key, vote_map,
};

verus! {

/// Strictly ascending, hence free of duplicates.
pub open spec fn strictly_increasing(s: Seq<AccountId>) -> bool {
    forall|i: int, j: int| 0 <= i < j < s.len() ==> s[i] < s[j]
}

/// Whether a contract has a live registration.
pub open spec fn is_registered(s: StakingState, contract: AccountId) -> bool {
    s.registrations@.contains_key(contract) && s.registrations@[contract].registered
}

/// Whether every target has a live registration.
pub open spec fn all_registered(s: StakingState, targets: Seq<AccountId>) -> bool {
    forall|k: int| 0 <= k < targets.len() ==> is_registered(s, #[trigger] targets[k])
}

/// The stake records one `stake_contracts` call writes: one record
/// per target, each carrying the even share.
pub open spec fn new_stake_records(
    controller: AccountId,
    stash: AccountId,
    targets: Seq<AccountId>,
    share: Balance,
) -> Seq<StakeRecord> {
    Seq::new(
        targets.len(),
        |i: int| StakeRecord { controller, stash, contract: targets[i], amount: share },
    )
}

impl StakingState {
    /// Register a contract. The contract-finder collaborator's verdict
    /// on whether the contract is a live operated contract, and the
    /// registrant's free balance, are handed in as plain values.
    ///
    /// Fails `NotOperatedContracts` on a negative verdict and
    /// `InsufficientValue` when the registrant cannot cover the
    /// configured deposit; a failing call changes nothing. Success
    /// stores the registration under the contract, with the deposit
    /// taken at the configured amount.
    pub fn register(
        &mut self,
        caller: AccountId,
        contract_id: AccountId,
        operated: bool,
        caller_free_balance: Balance,
    ) -> (r: Result<(), Error>)
        requires
            old(self).wf(),
        ensures
            final(self).wf(),
            !operated ==> r == Err::<(), Error>(Error::NotOperatedContracts) && *final(self)
                == *old(self),
            operated && caller_free_balance < old(self).register_deposit ==> r == Err::<
                (),
                Error,
            >(Error::InsufficientValue) && *final(self) == *old(self),
            operated && caller_free_balance >= old(self).register_deposit ==> {
                &&& r == Ok::<(), Error>(())
                &&& final(self).registrations@ == old(self).registrations@.insert(
                    contract_id,
                    (ContractRegistration {
                        contract_id,
                        depositor: caller,
                        deposit_amount: old(self).register_deposit,
                        registered: true,
                    }),
                )
                &&& *final(self) == (StakingState {
                    registrations: final(self).registrations,
                    ..*old(self)
                })
            },
    {
        if !operated {
            return Err(Error::NotOperatedContracts);
        }
        if caller_free_balance < self.register_deposit {
            return Err(Error::InsufficientValue);
        }
        let registration = ContractRegistration {
            contract_id,
            depositor: caller,
            deposit_amount: self.register_deposit,
            registered: true,
        };
        self.registrations.insert(contract_id, registration);
        Ok(())
    }

    /// Overwrite the deposit required from future registrants.
    pub fn set_register_deposit(&mut self, deposit_amount: Balance)
        requires
            old(self).wf(),
        ensures
            final(self).wf(),
            *final(self) == (StakingState { register_deposit: deposit_amount, ..*old(self) }),
    {
        self.register_deposit = deposit_amount;
    }

    /// The records not set by `controller`, with the sum of what was
    /// set by it.
    fn split_stakes(stakes: &Vec<StakeRecord>, controller: AccountId) -> (res: (
        Vec<StakeRecord>,
        Balance,
    ))
        requires
            sum_amounts(stakes@) <= Balance::MAX,
        ensures
            res.0@ == other_stakes(stakes@, controller),
            res.1 == controller_sum(stakes@, controller),
    {
        let n = stakes.len();
        let mut kept: Vec<StakeRecord> = Vec::new();
        let mut removed: Balance = 0;
        let mut i: usize = 0;
        while i < n
            invariant
                i <= n,
                n == stakes@.len(),
                sum_amounts(stakes@) <= Balance::MAX,
                kept@ == other_stakes(stakes@.take(i as int), controller),
                removed == controller_sum(stakes@.take(i as int), controller),
            decreases n - i,
        {
            let rec = stakes[i];
            proof {
                lemma_stakes_take_step(stakes@, controller, i as int);
                lemma_controller_sum_split(stakes@.take(i + 1 as int), controller);
                lemma_sum_amounts_take_le(stakes@, i + 1 as int);
            }
            if rec.controller == controller {
                removed = removed + rec.amount;
            } else {
                kept.push(rec);
            }
            i = i + 1;
        }
        proof {
            lemma_stakes_take_all(stakes@, controller);
        }
        (kept, removed)
    }

    /// Direct the caller's active stake at `targets`, split evenly:
    /// each target receives `active / len(targets)`, effective at the
    /// next era boundary (the rotation snapshots these records).
    /// Earlier targets of the same controller are replaced.
    ///
    /// Fails `NotController` without a ledger, `EmptyTargets` on no
    /// targets, `InvalidNumberOfNominations` past the target cap,
    /// `NotSortedAndUnique` unless targets strictly ascend,
    /// `NotOperatedContracts` when a target has no live registration,
    /// and `NotEnoughStaking` when the active stake cannot cover one
    /// unit per target or the engine's stake accounting would
    /// overflow. A failing call changes nothing.
    #[verifier::loop_isolation(false)]
    pub fn stake_contracts(&mut self, controller: AccountId, targets: &Vec<AccountId>) -> (r:
        Result<(), Error>)
        requires
            old(self).wf(),
        ensures
            final(self).wf(),
            r is Err ==> *final(self) == *old(self),
            !old(self).ledgers@.contains_key(controller) ==> r == Err::<(), Error>(
                Error::NotController,
            ),
            old(self).ledgers@.contains_key(controller) && targets@.len() == 0 ==> r == Err::<
                (),
                Error,
            >(Error::EmptyTargets),
            old(self).ledgers@.contains_key(controller) && targets@.len() > 0 && targets@.len()
                > old(self).max_targets ==> r == Err::<(), Error>(
                Error::InvalidNumberOfNominations,
            ),
            old(self).ledgers@.contains_key(controller) && 0 < targets@.len()
                <= old(self).max_targets && !strictly_increasing(targets@) ==> r == Err::<
                (),
                Error,
            >(Error::NotSortedAndUnique),
            old(self).ledgers@.contains_key(controller) && 0 < targets@.len()
                <= old(self).max_targets && strictly_increasing(targets@) && !all_registered(
                *old(self),
                targets@,
            ) ==> r == Err::<(), Error>(Error::NotOperatedContracts),
            old(self).ledgers@.contains_key(controller) && 0 < targets@.len()
                <= old(self).max_targets && strictly_increasing(targets@) && all_registered(
                *old(self),
                targets@,
            ) ==> {
                let l = old(self).ledgers@[controller];
                let share = l.active as int / targets@.len() as int;
                let removed = controller_sum(old(self).stakes@, controller);
                let new_total = old(self).total_staked - removed + share * targets@.len();
                &&& (share == 0 || new_total > Balance::MAX) ==> r == Err::<(), Error>(
                    Error::NotEnoughStaking,
                )
                &&& (share > 0 && new_total <= Balance::MAX) ==> {
                    &&& r == Ok::<(), Error>(())
                    &&& final(self).stakes@ == other_stakes(old(self).stakes@, controller)
                        + new_stake_records(controller, l.stash, targets@, share as Balance)
                    &&& final(self).total_staked == new_total
                    &&& final(self).events@ == old(self).events@.push(Event::Stake(l.stash))
                    &&& *final(self) == (StakingState {
                        stakes: final(self).stakes,
                        total_staked: final(self).total_staked,
                        events: final(self).events,
                        ..*old(self)
                    })
                }
            },
    {
        let stash;
        let active;
        match self.ledgers.get(&controller) {
            Option::None => {
                return Err(Error::NotController);
            },
            Option::Some(l) => {
                stash = l.stash;
                active = l.active;
            },
        }
        let n = targets.len();
        if n == 0 {
            return Err(Error::EmptyTargets);
        }
        if n > self.max_targets {
            return Err(Error::InvalidNumberOfNominations);
        }
        let mut k: usize = 0;
        while k + 1 < n
            invariant
                k < n,
                n == targets@.len(),
                forall|m: int| 0 <= m < k ==> #[trigger] targets@[m] < targets@[m + 1],
            decreases n - k,
        {
            if targets[k] >= targets[k + 1] {
                return Err(Error::NotSortedAndUnique);
            }
            k = k + 1;
        }
        proof {
            assert forall|i: int, j: int| 0 <= i < j < targets@.len() implies targets@[i]
                < targets@[j] by {
                lemma_adjacent_sorted(targets@, i, j);
            }
        }
        let mut k: usize = 0;
        while k < n
            invariant
                k <= n,
                n == targets@.len(),
                forall|m: int| 0 <= m < k ==> is_registered(*self, #[trigger] targets@[m]),
            decreases n - k,
        {
            match self.registrations.get(&targets[k]) {
                Option::None => {
                    return Err(Error::NotOperatedContracts);
                },
                Option::Some(reg) => {
                    if !reg.registered {
                        return Err(Error::NotOperatedContracts);
                    }
                },
            }
            k = k + 1;
        }
        let share = active / (n as Balance);
        if share == 0 {
            return Err(Error::NotEnoughStaking);
        }
        proof {
            vstd::arithmetic::div_mod::lemma_fundamental_div_mod(active as int, n as int);
            vstd::arithmetic::div_mod::lemma_remainder_lower(active as int, n as int);
            lemma_controller_sum_split(self.stakes@, controller);
        }
        let new_sum = share * (n as Balance);
        let (kept, removed) = Self::split_stakes(&self.stakes, controller);
        let base = self.total_staked - removed;
        let new_total = match base.checked_add(new_sum) {
            Option::None => {
                return Err(Error::NotEnoughStaking);
            },
            Option::Some(t) => t,
        };
        let ghost kept0 = kept@;
        let mut stakes = kept;
        let mut i: usize = 0;
        while i < n
            invariant
                i <= n,
                n == targets@.len(),
                stakes@ == kept0 + new_stake_records(controller, stash, targets@, share).take(
                    i as int,
                ),
            decreases n - i,
        {
            let rec = StakeRecord { controller, stash, contract: targets[i], amount: share };
            stakes.push(rec);
            proof {
                let news = new_stake_records(controller, stash, targets@, share);
                assert(news.len() == targets@.len());
                assert(news[i as int] == rec);
                assert(news.take(i + 1 as int) =~= news.take(i as int).push(rec));
                assert((kept0 + news.take(i as int)).push(rec) =~= kept0 + news.take(
                    i + 1 as int,
                ));
            }
            i = i + 1;
        }
        proof {
            let news = new_stake_records(controller, stash, targets@, share);
            assert(news.take(n as int) =~= news);
        }
        self.stakes = stakes;
        self.total_staked = new_total;
        self.events.push(Event::Stake(stash));
        proof {
            let news = new_stake_records(controller, stash, targets@, share);
            let others = other_stakes(old(self).stakes@, controller);
            lemma_other_stakes_unique(old(self).stakes@, controller);
            assert forall|a: int, b: int| 0 <= a < b < self.stakes@.len() implies !(
                self.stakes@[a].controller == self.stakes@[b].controller
                && self.stakes@[a].contract == self.stakes@[b].contract) by {
                if a < others.len() && b >= others.len() {
                    assert(self.stakes@[a].controller != controller);
                    assert(self.stakes@[b].controller == controller);
                } else if a >= others.len() {
                    assert(self.stakes@[a].contract == targets@[a - others.len()]);
                    assert(self.stakes@[b].contract == targets@[b - others.len()]);
                }
            }
            lemma_sum_concat_new_records(others, controller, stash, targets@, share);
        }
        Ok(())
    }

    /// The vote records not set by `controller`.
    fn retain_other_votes(votes: &Vec<VoteRecord>, controller: AccountId) -> (kept: Vec<
        VoteRecord,
    >)
        ensures
            kept@ == other_votes(votes@, controller),
    {
        let n = votes.len();
        let mut kept: Vec<VoteRecord> = Vec::new();
        let mut i: usize = 0;
        while i < n
            invariant
                i <= n,
                n == votes@.len(),
                kept@ == other_votes(votes@.take(i as int), controller),
            decreases n - i,
        {
            let rec = votes[i];
            proof {
                lemma_votes_take_step(votes@, controller, i as int);
            }
            if rec.controller != controller {
                kept.push(rec);
            }
            i = i + 1;
        }
        proof {
            lemma_votes_take_all(votes@, controller);
        }
        kept
    }

    /// Index of the vote record under `(controller, contract)`, or the
    /// record count when there is none.
    fn find_vote(votes: &Vec<VoteRecord>, controller: AccountId, contract: AccountId) -> (idx:
        usize)
        ensures
            idx <= votes@.len(),
            idx == votes@.len() ==> forall|m: int|
                0 <= m < votes@.len() ==> #[trigger] vote_key(votes@[m])
                    != (controller, contract),
            idx < votes@.len() ==> vote_key(votes@[idx as int]) == (controller, contract),
    {
        let n = votes.len();
        let mut i: usize = 0;
        while i < n
            invariant
                i <= n,
                n == votes@.len(),
                forall|m: int| 0 <= m < i ==> #[trigger] vote_key(votes@[m])
                    != (controller, contract),
            decreases n - i,
        {
            let rec = &votes[i];
            if rec.controller == controller && rec.contract == contract {
                return i;
            }
            i = i + 1;
        }
        n
    }

    /// Record the caller's votes: each (contract, vote) pair is
    /// written in order, overwriting any earlier vote by the same
    /// controller on the same contract — within one call and across
    /// calls the last write wins. Voting weight is not snapshotted
    /// here; it is the controller's bonded stake as read at payout
    /// time. Effective at the next era boundary.
    ///
    /// Fails `NotController` when the caller is not bonded; a failing
    /// call changes nothing.
    pub fn vote_contracts(&mut self, controller: AccountId, targets: &Vec<(AccountId, Vote)>)
        -> (r: Result<(), Error>)
        requires
            old(self).wf(),
        ensures
            final(self).wf(),
            !old(self).ledgers@.contains_key(controller) ==> r == Err::<(), Error>(
                Error::NotController,
            ) && *final(self) == *old(self),
            old(self).ledgers@.contains_key(controller) ==> {
                &&& r == Ok::<(), Error>(())
                &&& vote_map(final(self).votes@) == apply_votes(
                    vote_map(old(self).votes@),
                    controller,
                    targets@,
                )
                &&& *final(self) == (StakingState { votes: final(self).votes, ..*old(self) })
            },
    {
        if !self.ledgers.contains_key(&controller) {
            return Err(Error::NotController);
        }
        let n = targets.len();
        let mut j: usize = 0;
        while j < n
            invariant
                j <= n,
                n == targets@.len(),
                unique_vote_keys(self.votes@),
                vote_map(self.votes@) == apply_votes(
                    vote_map(old(self).votes@),
                    controller,
                    targets@.take(j as int),
                ),
                *self == (StakingState { votes: self.votes, ..*old(self) }),
            decreases n - j,
        {
            let (contract, vote) = targets[j];
            let rec = VoteRecord { controller, contract, vote };
            let idx = Self::find_vote(&self.votes, controller, contract);
            let len = self.votes.len();
            proof {
                lemma_apply_votes_take_step(
                    vote_map(old(self).votes@),
                    controller,
                    targets@,
                    j as int,
                );
            }
            if idx < len {
                proof {
                    lemma_vote_map_update(self.votes@, idx as int, rec);
                }
                let ghost before = self.votes@;
                self.votes.set(idx, rec);
                proof {
                    assert forall|a: int, b: int| 0 <= a < b < self.votes@.len() implies
                        vote_key(self.votes@[a]) != vote_key(self.votes@[b]) by {
                        assert(vote_key(before[a]) != vote_key(before[b]));
                    }
                }
            } else {
                proof {
                    lemma_vote_map_push(self.votes@, rec);
                }
                let ghost before = self.votes@;
                self.votes.push(rec);
                proof {
                    assert forall|a: int, b: int| 0 <= a < b < self.votes@.len() implies
                        vote_key(self.votes@[a]) != vote_key(self.votes@[b]) by {
                        if b < before.len() {
                            assert(vote_key(before[a]) != vote_key(before[b]));
                        } else {
                            assert(vote_key(before[a]) != (controller, contract));
                        }
                    }
                }
            }
            j = j + 1;
        }
        proof {
            lemma_apply_votes_take_all(vote_map(old(self).votes@), controller, targets@);
        }
        Ok(())
    }

    /// Clear every stake target and every vote this controller set,
    /// effective at the next era boundary.
    ///
    /// Fails `NotController` when no ledger is owned; a failing call
    /// changes nothing.
    pub fn chill(&mut self, controller: AccountId) -> (r: Result<(), Error>)
        requires
            old(self).wf(),
        ensures
            final(self).wf(),
            !old(self).ledgers@.contains_key(controller) ==> r == Err::<(), Error>(
                Error::NotController,
            ) && *final(self) == *old(self),
            old(self).ledgers@.contains_key(controller) ==> {
                &&& r == Ok::<(), Error>(())
                &&& final(self).stakes@ == other_stakes(old(self).stakes@, controller)
                &&& final(self).total_staked == old(self).total_staked - controller_sum(
                    old(self).stakes@,
                    controller,
                )
                &&& final(self).votes@ == other_votes(old(self).votes@, controller)
                &&& *final(self) == (StakingState {
                    stakes: final(self).stakes,
                    total_staked: final(self).total_staked,
                    votes: final(self).votes,
                    ..*old(self)
                })
            },
    {
        if !self.ledgers.contains_key(&controller) {
            return Err(Error::NotController);
        }
        proof {
            lemma_controller_sum_split(self.stakes@, controller);
            lemma_other_stakes_unique(self.stakes@, controller);
            lemma_other_votes_unique(self.votes@, controller);
        }
        let (kept, removed) = Self::split_stakes(&self.stakes, controller);
        let kept_votes = Self::retain_other_votes(&self.votes, controller);
        self.stakes = kept;
        self.total_staked = self.total_staked - removed;
        self.votes = kept_votes;
        Ok(())
    }
}

/// Appending the fresh records adds one share per target to the sum.
proof fn lemma_sum_concat_new_records(
    others: Seq<StakeRecord>,
    controller: AccountId,
    stash: AccountId,
    targets: Seq<AccountId>,
    share: Balance,
)
    ensures
        sum_amounts(others + new_stake_records(controller, stash, targets, share))
            == sum_amounts(others) + share * targets.len(),
    decreases targets.len(),
{
    let news = new_stake_records(controller, stash, targets, share);
    if targets.len() == 0 {
        assert(others + news =~= others);
    } else {
        let tdl = targets.drop_last();
        let newsdl = new_stake_records(controller, stash, tdl, share);
        assert((others + news).drop_last() =~= others + newsdl);
        lemma_sum_concat_new_records(others, controller, stash, tdl, share);
        assert(sum_amounts(others + news) == sum_amounts(others + newsdl)
            + (others + news).last().amount);
        assert((others + news).last().amount == share);
        assert(share * targets.len() == share * tdl.len() + share) by {
            vstd::arithmetic::mul::lemma_mul_is_distributive_add(
                share as int,
                tdl.len() as int,
                1,
            );
        }
    }
}

} // verus!
