//! The ledger manager: the bond / unbond / withdraw lifecycle and the
//! stash-to-controller binding.

use vstd::prelude::*;
use crate::types::{
    AccountId, Balance, Error, Event, RewardDestination, StakingLedger, UnlockChunk,
    MAX_UNLOCKING_CHUNKS,
};
use crate::state::StakingState;
use crate::era::current_era_or_zero;
use crate::model::{
    due_sum, kept_chunks, lemma_sum_chunks_nonneg, lemma_sum_chunks_push,
    lemma_sum_chunks_take_all, lemma_sum_chunks_take_le, lemma_sum_chunks_take_step,
    lemma_withdraw_take_all, lemma_withdraw_take_step, min_bal, sum_chunks,
};

verus! {

impl StakingState {
    /// Write `ledger` under `controller` and re-issue the stash's lock
    /// at the ledger's total, so that the lock is never stale.
    fn update_ledger(&mut self, controller: AccountId, ledger: StakingLedger)
        ensures
            final(self).ledgers@ == old(self).ledgers@.insert(controller, ledger),
            final(self).locks@ == old(self).locks@.insert(ledger.stash, ledger.total),
            *final(self) == (StakingState {
                ledgers: final(self).ledgers,
                locks: final(self).locks,
                ..*old(self)
            }),
    {
        self.locks.insert(ledger.stash, ledger.total);
        self.ledgers.insert(controller, ledger);
    }

    /// Copy an unlocking queue; its chunks are plain values.
    fn copy_chunks(chunks: &Vec<UnlockChunk>) -> (r: Vec<UnlockChunk>)
        ensures
            r@ == chunks@,
    {
        let n = chunks.len();
        let mut r: Vec<UnlockChunk> = Vec::new();
        let mut i: usize = 0;
        while i < n
            invariant
                i <= n,
                n == chunks@.len(),
                r@ == chunks@.take(i as int),
            decreases n - i,
        {
            let c = chunks[i];
            r.push(c);
            proof {
                assert(chunks@.take(i + 1 as int) =~= chunks@.take(i as int).push(c));
            }
            i = i + 1;
        }
        proof {
            assert(chunks@.take(n as int) =~= chunks@);
        }
        r
    }

    /// Bond `stash` to `controller`: lock the smaller of `value` and
    /// the stash's free balance, record the payee, and open the ledger
    /// with the whole locked amount active.
    ///
    /// Fails `AlreadyBonded` when the stash is already bound,
    /// `AlreadyPaired` when the controller already owns a ledger, and
    /// `InsufficientValue` when `value` is below the minimum balance
    /// or the stash has no free balance; a failing call changes
    /// nothing.
    pub fn bond(
        &mut self,
        stash: AccountId,
        controller: AccountId,
        value: Balance,
        payee: RewardDestination,
        stash_free_balance: Balance,
        minimum_balance: Balance,
    ) -> (r: Result<(), Error>)
        requires
            old(self).wf(),
        ensures
            final(self).wf(),
            old(self).bonded@.contains_key(stash) ==> r == Err::<(), Error>(
                Error::AlreadyBonded,
            ) && *final(self) == *old(self),
            !old(self).bonded@.contains_key(stash) && old(self).ledgers@.contains_key(controller)
                ==> r == Err::<(), Error>(Error::AlreadyPaired) && *final(self) == *old(self),
            !old(self).bonded@.contains_key(stash) && !old(self).ledgers@.contains_key(controller)
                && (value < minimum_balance || stash_free_balance == 0) ==> r == Err::<(), Error>(
                Error::InsufficientValue,
            ) && *final(self) == *old(self),
            !old(self).bonded@.contains_key(stash) && !old(self).ledgers@.contains_key(controller)
                && value >= minimum_balance && stash_free_balance > 0 ==> {
                let locked = min_bal(value, stash_free_balance);
                &&& r == Ok::<(), Error>(())
                &&& final(self).bonded@ == old(self).bonded@.insert(stash, controller)
                &&& final(self).payees@ == old(self).payees@.insert(stash, payee)
                &&& final(self).locks@ == old(self).locks@.insert(stash, locked)
                &&& final(self).ledgers@.contains_key(controller)
                &&& final(self).ledgers@[controller].stash == stash
                &&& final(self).ledgers@[controller].total == locked
                &&& final(self).ledgers@[controller].active == locked
                &&& final(self).ledgers@[controller].unlocking@ == Seq::<UnlockChunk>::empty()
                &&& final(self).ledgers@[controller].last_reward == 0
                &&& final(self).ledgers@ == old(self).ledgers@.insert(
                    controller,
                    final(self).ledgers@[controller],
                )
                &&& final(self).events@ == old(self).events@.push(
                    Event::Bonded(stash, stash_free_balance),
                )
                &&& *final(self) == (StakingState {
                    bonded: final(self).bonded,
                    payees: final(self).payees,
                    locks: final(self).locks,
                    ledgers: final(self).ledgers,
                    events: final(self).events,
                    ..*old(self)
                })
            },
    {
        if self.bonded.contains_key(&stash) {
            return Err(Error::AlreadyBonded);
        }
        if self.ledgers.contains_key(&controller) {
            return Err(Error::AlreadyPaired);
        }
        if value < minimum_balance {
            return Err(Error::InsufficientValue);
        }
        if stash_free_balance == 0 {
            return Err(Error::InsufficientValue);
        }
        self.bonded.insert(stash, controller);
        self.payees.insert(stash, payee);
        self.events.push(Event::Bonded(stash, stash_free_balance));
        let locked = if value <= stash_free_balance {
            value
        } else {
            stash_free_balance
        };
        let ledger = StakingLedger {
            stash,
            total: locked,
            active: locked,
            unlocking: Vec::new(),
            last_reward: 0,
        };
        self.update_ledger(controller, ledger);
        Ok(())
    }

    /// Bond funds that have since appeared in the stash's free
    /// balance: a change happens only when the free balance exceeds
    /// the ledger's total, and then active and total grow by the
    /// smaller of that excess and `max_additional`, with the lock
    /// re-issued at the new total.
    ///
    /// Fails `NotStash` when the stash is not bound; a failing call
    /// changes nothing.
    pub fn bond_extra(
        &mut self,
        stash: AccountId,
        max_additional: Balance,
        stash_free_balance: Balance,
    ) -> (r: Result<(), Error>)
        requires
            old(self).wf(),
        ensures
            final(self).wf(),
            !old(self).bonded@.contains_key(stash) ==> r == Err::<(), Error>(Error::NotStash)
                && *final(self) == *old(self),
            old(self).bonded@.contains_key(stash) ==> {
                let controller = old(self).bonded@[stash];
                let l = old(self).ledgers@[controller];
                &&& r == Ok::<(), Error>(())
                &&& stash_free_balance <= l.total ==> *final(self) == *old(self)
                &&& stash_free_balance > l.total ==> {
                    let extra = min_bal((stash_free_balance - l.total) as Balance, max_additional);
                    &&& final(self).ledgers@.contains_key(controller)
                    &&& final(self).ledgers@[controller].stash == l.stash
                    &&& final(self).ledgers@[controller].total == l.total + extra
                    &&& final(self).ledgers@[controller].active == l.active + extra
                    &&& final(self).ledgers@[controller].unlocking@ == l.unlocking@
                    &&& final(self).ledgers@[controller].last_reward == l.last_reward
                    &&& final(self).ledgers@ == old(self).ledgers@.insert(
                        controller,
                        final(self).ledgers@[controller],
                    )
                    &&& final(self).locks@ == old(self).locks@.insert(
                        l.stash,
                        (l.total + extra) as Balance,
                    )
                    &&& final(self).events@ == old(self).events@.push(
                        Event::Bonded(stash, extra),
                    )
                    &&& *final(self) == (StakingState {
                        ledgers: final(self).ledgers,
                        locks: final(self).locks,
                        events: final(self).events,
                        ..*old(self)
                    })
                }
            },
    {
        let controller = match self.bonded.get(&stash) {
            Option::None => {
                return Err(Error::NotStash);
            },
            Option::Some(c) => *c,
        };
        let total;
        let active;
        let last_reward;
        let unlocking;
        match self.ledgers.get(&controller) {
            Option::None => {
                // The invariant binds every bonded stash to a ledger.
                proof {
                    assert(false);
                }
                return Err(Error::NotController);
            },
            Option::Some(l) => {
                total = l.total;
                active = l.active;
                last_reward = l.last_reward;
                unlocking = Self::copy_chunks(&l.unlocking);
            },
        }
        if stash_free_balance <= total {
            return Ok(());
        }
        let headroom = stash_free_balance - total;
        let extra = if headroom <= max_additional {
            headroom
        } else {
            max_additional
        };
        proof {
            lemma_sum_chunks_nonneg(old(self).ledgers@[controller].unlocking@);
        }
        let ledger = StakingLedger {
            stash,
            total: total + extra,
            active: active + extra,
            unlocking,
            last_reward,
        };
        self.events.push(Event::Bonded(stash, extra));
        proof {
            assert(old(self).ledgers@[controller].stash == stash);
        }
        self.update_ledger(controller, ledger);
        Ok(())
    }

    /// Schedule part of the active stake for unlocking: the requested
    /// value is clamped to the active amount, and when what would stay
    /// active is positive but below the minimum balance the whole
    /// active amount is unbonded instead. The chunk becomes
    /// withdrawable `bonding_duration` eras after the planned era.
    ///
    /// Fails `NotController` when no ledger is owned, `NoMoreChunks`
    /// when the unlocking queue is at capacity; a failing call, and a
    /// call that resolves to unbonding nothing, changes nothing.
    pub fn unbond(&mut self, controller: AccountId, value: Balance, minimum_balance: Balance) -> (r:
        Result<(), Error>)
        requires
            old(self).wf(),
            current_era_or_zero(*old(self)) + old(self).bonding_duration <= u32::MAX,
        ensures
            final(self).wf(),
            !old(self).ledgers@.contains_key(controller) ==> r == Err::<(), Error>(
                Error::NotController,
            ) && *final(self) == *old(self),
            old(self).ledgers@.contains_key(controller)
                && old(self).ledgers@[controller].unlocking@.len() >= MAX_UNLOCKING_CHUNKS ==> r
                == Err::<(), Error>(Error::NoMoreChunks) && *final(self) == *old(self),
            old(self).ledgers@.contains_key(controller)
                && old(self).ledgers@[controller].unlocking@.len() < MAX_UNLOCKING_CHUNKS ==> {
                let l = old(self).ledgers@[controller];
                let clamped = min_bal(value, l.active);
                let unbonded = if l.active - clamped > 0 && l.active - clamped < minimum_balance {
                    l.active
                } else {
                    clamped
                };
                &&& r == Ok::<(), Error>(())
                &&& unbonded == 0 ==> *final(self) == *old(self)
                &&& unbonded > 0 ==> {
                    let chunk = (UnlockChunk {
                        value: unbonded,
                        era: (current_era_or_zero(*old(self))
                            + old(self).bonding_duration) as u32,
                    });
                    &&& final(self).ledgers@.contains_key(controller)
                    &&& final(self).ledgers@[controller].stash == l.stash
                    &&& final(self).ledgers@[controller].total == l.total
                    &&& final(self).ledgers@[controller].active == l.active - unbonded
                    &&& final(self).ledgers@[controller].unlocking@ == l.unlocking@.push(chunk)
                    &&& final(self).ledgers@[controller].last_reward == l.last_reward
                    &&& final(self).ledgers@ == old(self).ledgers@.insert(
                        controller,
                        final(self).ledgers@[controller],
                    )
                    &&& final(self).locks@ == old(self).locks@
                    &&& final(self).events@ == old(self).events@.push(
                        Event::Unbonded(l.stash, unbonded),
                    )
                    &&& *final(self) == (StakingState {
                        ledgers: final(self).ledgers,
                        locks: final(self).locks,
                        events: final(self).events,
                        ..*old(self)
                    })
                }
            },
    {
        let stash;
        let total;
        let active;
        let last_reward;
        let unlocking;
        match self.ledgers.get(&controller) {
            Option::None => {
                return Err(Error::NotController);
            },
            Option::Some(l) => {
                if l.unlocking.len() >= MAX_UNLOCKING_CHUNKS {
                    return Err(Error::NoMoreChunks);
                }
                stash = l.stash;
                total = l.total;
                active = l.active;
                last_reward = l.last_reward;
                unlocking = Self::copy_chunks(&l.unlocking);
            },
        }
        let clamped = if value <= active {
            value
        } else {
            active
        };
        let remaining = active - clamped;
        let unbonded = if remaining > 0 && remaining < minimum_balance {
            active
        } else {
            clamped
        };
        if unbonded == 0 {
            return Ok(());
        }
        let era = match self.current_era {
            Option::None => 0,
            Option::Some(c) => c,
        } + self.bonding_duration;
        let chunk = UnlockChunk { value: unbonded, era };
        let mut unlocking = unlocking;
        proof {
            lemma_sum_chunks_push(old(self).ledgers@[controller].unlocking@, chunk);
        }
        unlocking.push(chunk);
        let ledger = StakingLedger {
            stash,
            total,
            active: active - unbonded,
            unlocking,
            last_reward,
        };
        self.events.push(Event::Unbonded(stash, unbonded));
        self.update_ledger(controller, ledger);
        proof {
            assert(self.locks@ =~= old(self).locks@);
        }
        Ok(())
    }

    /// Remove every unlocking chunk already due at the planned era,
    /// reduce the ledger's total and the stash's lock by their summed
    /// value, and report that value. With no chunk due the call is a
    /// no-op, not an error.
    ///
    /// Fails `NotController` when no ledger is owned; a failing call
    /// changes nothing.
    pub fn withdraw_unbonded(&mut self, controller: AccountId) -> (r: Result<Balance, Error>)
        requires
            old(self).wf(),
        ensures
            final(self).wf(),
            !old(self).ledgers@.contains_key(controller) ==> r == Err::<Balance, Error>(
                Error::NotController,
            ) && *final(self) == *old(self),
            old(self).ledgers@.contains_key(controller) ==> {
                let l = old(self).ledgers@[controller];
                let era = current_era_or_zero(*old(self));
                let due = due_sum(l.unlocking@, era);
                &&& r == Ok::<Balance, Error>(due as Balance)
                &&& due == 0 ==> *final(self) == *old(self)
                &&& due > 0 ==> {
                    &&& final(self).ledgers@.contains_key(controller)
                    &&& final(self).ledgers@[controller].stash == l.stash
                    &&& final(self).ledgers@[controller].total == l.total - due
                    &&& final(self).ledgers@[controller].active == l.active
                    &&& final(self).ledgers@[controller].unlocking@ == kept_chunks(
                        l.unlocking@,
                        era,
                    )
                    &&& final(self).ledgers@[controller].last_reward == l.last_reward
                    &&& final(self).ledgers@ == old(self).ledgers@.insert(
                        controller,
                        final(self).ledgers@[controller],
                    )
                    &&& final(self).locks@ == old(self).locks@.insert(
                        l.stash,
                        (l.total - due) as Balance,
                    )
                    &&& final(self).events@ == old(self).events@.push(
                        Event::Withdrawn(l.stash, due as Balance),
                    )
                    &&& *final(self) == (StakingState {
                        ledgers: final(self).ledgers,
                        locks: final(self).locks,
                        events: final(self).events,
                        ..*old(self)
                    })
                }
            },
    {
        let stash;
        let total;
        let active;
        let last_reward;
        let unlocking;
        match self.ledgers.get(&controller) {
            Option::None => {
                return Err(Error::NotController);
            },
            Option::Some(l) => {
                stash = l.stash;
                total = l.total;
                active = l.active;
                last_reward = l.last_reward;
                unlocking = Self::copy_chunks(&l.unlocking);
            },
        }
        let era = match self.current_era {
            Option::None => 0,
            Option::Some(c) => c,
        };
        let ghost all = old(self).ledgers@[controller].unlocking@;
        let n = unlocking.len();
        let mut kept: Vec<UnlockChunk> = Vec::new();
        let mut withdrawn: Balance = 0;
        let mut i: usize = 0;
        proof {
            lemma_sum_chunks_nonneg(all);
        }
        while i < n
            invariant
                i <= n,
                n == all.len(),
                unlocking@ == all,
                kept@ == kept_chunks(all.take(i as int), era),
                kept@.len() <= i,
                withdrawn == due_sum(all.take(i as int), era),
                sum_chunks(kept@) + withdrawn == sum_chunks(all.take(i as int)),
                sum_chunks(all.take(i as int)) <= sum_chunks(all),
                sum_chunks(kept@) >= 0,
                total == old(self).ledgers@[controller].total,
                sum_chunks(all) <= total,
            decreases n - i,
        {
            let c = unlocking[i];
            proof {
                lemma_withdraw_take_step(all, era, i as int);
                lemma_sum_chunks_take_step(all, i as int);
                lemma_sum_chunks_take_le(all, i + 1 as int);
                if c.era > era {
                    lemma_sum_chunks_push(kept@, c);
                }
            }
            if c.era > era {
                kept.push(c);
            } else {
                withdrawn = withdrawn + c.value;
            }
            i = i + 1;
        }
        proof {
            lemma_withdraw_take_all(all, era);
            lemma_sum_chunks_take_all(all);
            lemma_sum_chunks_nonneg(kept@);
        }
        if withdrawn == 0 {
            return Ok(0);
        }
        let ledger = StakingLedger {
            stash,
            total: total - withdrawn,
            active,
            unlocking: kept,
            last_reward,
        };
        self.events.push(Event::Withdrawn(stash, withdrawn));
        self.update_ledger(controller, ledger);
        Ok(withdrawn)
    }

    /// Rebind the stash to a new controller and move the ledger, as
    /// one step, to the new controller's key: afterwards the old key
    /// holds no ledger and the new key holds the identical ledger.
    ///
    /// Fails `NotStash` when the stash is not bound and
    /// `AlreadyPaired` when the new controller already owns a ledger
    /// or is the current one; a failing call changes nothing.
    pub fn set_controller(&mut self, stash: AccountId, new_controller: AccountId) -> (r: Result<
        (),
        Error,
    >)
        requires
            old(self).wf(),
        ensures
            final(self).wf(),
            !old(self).bonded@.contains_key(stash) ==> r == Err::<(), Error>(Error::NotStash)
                && *final(self) == *old(self),
            old(self).bonded@.contains_key(stash) && (old(self).ledgers@.contains_key(
                new_controller,
            ) || new_controller == old(self).bonded@[stash]) ==> r == Err::<(), Error>(
                Error::AlreadyPaired,
            ) && *final(self) == *old(self),
            old(self).bonded@.contains_key(stash) && !old(self).ledgers@.contains_key(
                new_controller,
            ) && new_controller != old(self).bonded@[stash] ==> {
                let old_controller = old(self).bonded@[stash];
                &&& r == Ok::<(), Error>(())
                &&& final(self).bonded@ == old(self).bonded@.insert(stash, new_controller)
                &&& !final(self).ledgers@.contains_key(old_controller)
                &&& final(self).ledgers@.contains_key(new_controller)
                &&& final(self).ledgers@[new_controller] == old(self).ledgers@[old_controller]
                &&& final(self).ledgers@ == old(self).ledgers@.remove(old_controller).insert(
                    new_controller,
                    old(self).ledgers@[old_controller],
                )
                &&& *final(self) == (StakingState {
                    bonded: final(self).bonded,
                    ledgers: final(self).ledgers,
                    ..*old(self)
                })
            },
    {
        let old_controller = match self.bonded.get(&stash) {
            Option::None => {
                return Err(Error::NotStash);
            },
            Option::Some(c) => *c,
        };
        if self.ledgers.contains_key(&new_controller) {
            return Err(Error::AlreadyPaired);
        }
        if new_controller == old_controller {
            return Err(Error::AlreadyPaired);
        }
        self.bonded.insert(stash, new_controller);
        match self.ledgers.remove(&old_controller) {
            Option::None => {
                // The invariant binds every bonded stash to a ledger.
                proof {
                    assert(false);
                }
            },
            Option::Some(ledger) => {
                self.ledgers.insert(new_controller, ledger);
            },
        }
        Ok(())
    }

    /// Re-set where this controller's stash is paid.
    ///
    /// Fails `NotController` when no ledger is owned; a failing call
    /// changes nothing.
    pub fn set_payee(&mut self, controller: AccountId, payee: RewardDestination) -> (r: Result<
        (),
        Error,
    >)
        requires
            old(self).wf(),
        ensures
            final(self).wf(),
            !old(self).ledgers@.contains_key(controller) ==> r == Err::<(), Error>(
                Error::NotController,
            ) && *final(self) == *old(self),
            old(self).ledgers@.contains_key(controller) ==> {
                &&& r == Ok::<(), Error>(())
                &&& final(self).payees@ == old(self).payees@.insert(
                    old(self).ledgers@[controller].stash,
                    payee,
                )
                &&& *final(self) == (StakingState { payees: final(self).payees, ..*old(self) })
            },
    {
        let stash = match self.ledgers.get(&controller) {
            Option::None => {
                return Err(Error::NotController);
            },
            Option::Some(l) => l.stash,
        };
        self.payees.insert(stash, payee);
        Ok(())
    }
}

} // verus!
