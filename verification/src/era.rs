//! The era controller: the per-block tick, the forcing state machine,
//! era rotation and activation, and the history-retention policy.

use vstd::prelude::*;
use crate::types::{
    AccountId, ActiveEraInfo, Balance, EraIndex, EraSnapshot, Event, Forcing, Moment,
    StakeRecord,
};
use crate::state::StakingState;
use crate::model::{kept_claims, lemma_claims_take_all, lemma_claims_take_step};

verus! {

/// Index the next rotation plans: one past the current era, or the
/// first era when none was ever planned.
pub open spec fn next_planned_era(s: StakingState) -> EraIndex {
    match s.current_era {
        Option::None => 0,
        Option::Some(c) => (c + 1) as EraIndex,
    }
}

/// Index the next activation rewards: one past the active era, or the
/// first era when none was ever active.
pub open spec fn next_active_era(s: StakingState) -> EraIndex {
    match s.active_era {
        Option::None => 0,
        Option::Some(a) => (a.index + 1) as EraIndex,
    }
}

/// The planned era, or the first era where none was ever planned.
pub open spec fn current_era_or_zero(s: StakingState) -> EraIndex {
    match s.current_era {
        Option::None => 0,
        Option::Some(c) => c,
    }
}

/// First era kept when `depth` eras of history are retained behind
/// `current`.
pub open spec fn first_kept_era(current: EraIndex, depth: u32) -> EraIndex {
    if current >= depth {
        (current - depth) as EraIndex
    } else {
        0
    }
}

impl StakingState {
    /// Force there to be no new eras indefinitely: the current forcing
    /// value is overwritten, whatever it was, and nothing else moves.
    pub fn force_no_eras(&mut self)
        requires
            old(self).wf(),
        ensures
            final(self).wf(),
            *final(self) == (StakingState { force_era: Forcing::ForceNone, ..*old(self) }),
    {
        self.force_era = Forcing::ForceNone;
    }

    /// Force a rotation at the next opportunity; the rotation itself
    /// resets the value. Overwrites unconditionally.
    pub fn force_new_era(&mut self)
        requires
            old(self).wf(),
        ensures
            final(self).wf(),
            *final(self) == (StakingState { force_era: Forcing::ForceNew, ..*old(self) }),
    {
        self.force_era = Forcing::ForceNew;
    }

    /// Force a rotation at every opportunity. Overwrites
    /// unconditionally.
    pub fn force_new_era_always(&mut self)
        requires
            old(self).wf(),
        ensures
            final(self).wf(),
            *final(self) == (StakingState { force_era: Forcing::ForceAlways, ..*old(self) }),
    {
        self.force_era = Forcing::ForceAlways;
    }

    /// Whether a rotation happens now, given whether the host's normal
    /// cadence says an era boundary is due: forcing to none suppresses
    /// every rotation, a one-shot or standing force triggers one
    /// regardless, and the default passes the cadence through.
    pub fn should_rotate(&self, era_boundary_due: bool) -> (r: bool)
        ensures
            r == match self.force_era {
                Forcing::NotForcing => era_boundary_due,
                Forcing::ForceNew => true,
                Forcing::ForceNone => false,
                Forcing::ForceAlways => true,
            },
    {
        match self.force_era {
            Forcing::NotForcing => era_boundary_due,
            Forcing::ForceNew => true,
            Forcing::ForceNone => false,
            Forcing::ForceAlways => true,
        }
    }

    /// Per-block tick: the first tick after an era becomes active
    /// stamps the era's start with the clock reading handed in; every
    /// later tick leaves the state untouched.
    pub fn tick(&mut self, now_ms: Moment)
        requires
            old(self).wf(),
        ensures
            final(self).wf(),
            *final(self) == (StakingState {
                active_era: match old(self).active_era {
                    Option::None => Option::None::<ActiveEraInfo>,
                    Option::Some(a) => Option::Some(
                        ActiveEraInfo {
                            index: a.index,
                            start: if a.start is None {
                                Option::Some(now_ms)
                            } else {
                                a.start
                            },
                        },
                    ),
                },
                ..*old(self)
            }),
    {
        match self.active_era {
            Option::None => {},
            Option::Some(a) => {
                if a.start.is_none() {
                    self.active_era = Option::Some(
                        ActiveEraInfo { index: a.index, start: Option::Some(now_ms) },
                    );
                }
            },
        }
    }

    /// Rotate the planned era: advance `current_era`, snapshot the
    /// stake targets in force so that they take effect at this new era
    /// boundary, and consume a one-shot force.
    pub fn rotate_era(&mut self)
        requires
            old(self).wf(),
            old(self).current_era matches Option::Some(c) ==> c < EraIndex::MAX,
        ensures
            final(self).wf(),
            final(self).current_era == Option::Some(next_planned_era(*old(self))),
            final(self).era_snapshots@ == old(self).era_snapshots@.insert(
                next_planned_era(*old(self)),
                final(self).era_snapshots@[next_planned_era(*old(self))],
            ),
            final(self).era_snapshots@[next_planned_era(*old(self))].records@
                == old(self).stakes@,
            final(self).era_snapshots@[next_planned_era(*old(self))].total
                == old(self).total_staked,
            final(self).force_era == (if old(self).force_era == Forcing::ForceNew {
                Forcing::NotForcing
            } else {
                old(self).force_era
            }),
            *final(self) == (StakingState {
                current_era: final(self).current_era,
                era_snapshots: final(self).era_snapshots,
                force_era: final(self).force_era,
                ..*old(self)
            }),
    {
        let next: EraIndex = match self.current_era {
            Option::None => 0,
            Option::Some(c) => c + 1,
        };
        let n = self.stakes.len();
        let mut records: Vec<StakeRecord> = Vec::new();
        let mut i: usize = 0;
        while i < n
            invariant
                i <= n,
                n == self.stakes@.len(),
                records@ == self.stakes@.take(i as int),
            decreases n - i,
        {
            let r = self.stakes[i];
            records.push(r);
            proof {
                assert(self.stakes@.take(i + 1 as int) =~= self.stakes@.take(i as int).push(r));
            }
            i = i + 1;
        }
        proof {
            assert(self.stakes@.take(n as int) =~= self.stakes@);
        }
        let snap = EraSnapshot { records, total: self.total_staked };
        self.era_snapshots.insert(next, snap);
        self.current_era = Option::Some(next);
        if matches!(self.force_era, Forcing::ForceNew) {
            self.force_era = Forcing::NotForcing;
        }
    }

    /// Activate the next era: the era that was active ends and its
    /// distributable payout — produced by the host's era-payout
    /// collaborator — is recorded and announced; the new era starts
    /// unstamped, to be stamped by the first tick.
    pub fn activate_era(&mut self, validator_payout: Balance)
        requires
            old(self).wf(),
            old(self).active_era matches Option::Some(a) ==> a.index < EraIndex::MAX,
        ensures
            final(self).wf(),
            final(self).active_era == Option::Some(
                ActiveEraInfo { index: next_active_era(*old(self)), start: Option::None },
            ),
            match old(self).active_era {
                Option::None => {
                    &&& final(self).era_rewards@ == old(self).era_rewards@
                    &&& final(self).events@ == old(self).events@
                },
                Option::Some(a) => {
                    &&& final(self).era_rewards@ == old(self).era_rewards@.insert(
                        a.index,
                        validator_payout,
                    )
                    &&& final(self).events@ == old(self).events@.push(
                        Event::TotalDappsRewards(a.index, validator_payout),
                    )
                },
            },
            *final(self) == (StakingState {
                active_era: final(self).active_era,
                era_rewards: final(self).era_rewards,
                events: final(self).events,
                ..*old(self)
            }),
    {
        let next: EraIndex = match self.active_era {
            Option::None => 0,
            Option::Some(a) => a.index + 1,
        };
        match self.active_era {
            Option::None => {},
            Option::Some(a) => {
                self.era_rewards.insert(a.index, validator_payout);
                self.events.push(Event::TotalDappsRewards(a.index, validator_payout));
            },
        }
        self.active_era = Option::Some(ActiveEraInfo { index: next, start: Option::None });
    }

    /// Set the history depth. When an era was ever planned, the eras
    /// that fall out of the retained window — from the old window's
    /// first kept era up to the new one's — lose their snapshot, their
    /// reward record and their payout-claim records, and the new depth
    /// is committed; widening the window purges nothing. With no
    /// planned era the call leaves the state untouched.
    #[verifier::rlimit(50)]
    pub fn set_history_depth(&mut self, new_history_depth: u32)
        requires
            old(self).wf(),
        ensures
            final(self).wf(),
            old(self).current_era is None ==> *final(self) == *old(self),
            old(self).current_era is Some ==> {
                let lo = first_kept_era(old(self).current_era->0, old(self).history_depth);
                let hi = first_kept_era(old(self).current_era->0, new_history_depth);
                &&& final(self).history_depth == new_history_depth
                &&& forall|e: EraIndex| lo <= e < hi ==> {
                    &&& !(#[trigger] final(self).era_snapshots@.contains_key(e))
                    &&& !final(self).era_rewards@.contains_key(e)
                }
                &&& forall|e: EraIndex| !(lo <= e < hi) ==> {
                    &&& (#[trigger] final(self).era_snapshots@.contains_key(e)
                        == old(self).era_snapshots@.contains_key(e))
                    &&& (old(self).era_snapshots@.contains_key(e)
                        ==> final(self).era_snapshots@[e] == old(self).era_snapshots@[e])
                    &&& (final(self).era_rewards@.contains_key(e)
                        == old(self).era_rewards@.contains_key(e))
                    &&& (old(self).era_rewards@.contains_key(e)
                        ==> final(self).era_rewards@[e] == old(self).era_rewards@[e])
                }
                &&& final(self).claimed_staker_payouts@ == kept_claims(
                    old(self).claimed_staker_payouts@,
                    lo,
                    hi,
                )
                &&& final(self).claimed_operator_payouts@ == kept_claims(
                    old(self).claimed_operator_payouts@,
                    lo,
                    hi,
                )
                &&& *final(self) == (StakingState {
                    history_depth: new_history_depth,
                    era_snapshots: final(self).era_snapshots,
                    era_rewards: final(self).era_rewards,
                    claimed_staker_payouts: final(self).claimed_staker_payouts,
                    claimed_operator_payouts: final(self).claimed_operator_payouts,
                    ..*old(self)
                })
            },
    {
        let current = match self.current_era {
            Option::None => {
                return ;
            },
            Option::Some(c) => c,
        };
        let lo = current.saturating_sub(self.history_depth);
        let hi = current.saturating_sub(new_history_depth);
        let kept_stakers = Self::retain_claims(&self.claimed_staker_payouts, lo, hi);
        let kept_operators = Self::retain_claims(&self.claimed_operator_payouts, lo, hi);
        self.claimed_staker_payouts = kept_stakers;
        self.claimed_operator_payouts = kept_operators;
        self.history_depth = new_history_depth;
        let ghost mid = *self;
        let mut e = lo;
        while e < hi
            invariant
                lo <= e,
                e <= hi || e == lo,
                forall|e2: EraIndex| lo <= e2 < e ==> {
                    &&& !(#[trigger] self.era_snapshots@.contains_key(e2))
                    &&& !self.era_rewards@.contains_key(e2)
                },
                forall|e2: EraIndex| !(lo <= e2 < e) ==> {
                    &&& (#[trigger] self.era_snapshots@.contains_key(e2)
                        == old(self).era_snapshots@.contains_key(e2))
                    &&& (old(self).era_snapshots@.contains_key(e2)
                        ==> self.era_snapshots@[e2] == old(self).era_snapshots@[e2])
                    &&& (self.era_rewards@.contains_key(e2)
                        == old(self).era_rewards@.contains_key(e2))
                    &&& (old(self).era_rewards@.contains_key(e2)
                        ==> self.era_rewards@[e2] == old(self).era_rewards@[e2])
                },
                *self == (StakingState {
                    era_snapshots: self.era_snapshots,
                    era_rewards: self.era_rewards,
                    ..mid
                }),
                mid == (StakingState {
                    history_depth: new_history_depth,
                    era_snapshots: mid.era_snapshots,
                    era_rewards: mid.era_rewards,
                    claimed_staker_payouts: mid.claimed_staker_payouts,
                    claimed_operator_payouts: mid.claimed_operator_payouts,
                    ..*old(self)
                }),
                mid.era_snapshots@ == old(self).era_snapshots@,
                mid.era_rewards@ == old(self).era_rewards@,
                mid.claimed_staker_payouts@ == kept_claims(
                    old(self).claimed_staker_payouts@,
                    lo,
                    hi,
                ),
                mid.claimed_operator_payouts@ == kept_claims(
                    old(self).claimed_operator_payouts@,
                    lo,
                    hi,
                ),
                lo == first_kept_era(old(self).current_era->0, old(self).history_depth),
                hi == first_kept_era(old(self).current_era->0, new_history_depth),
                old(self).current_era is Some,
            decreases hi - e,
        {
            self.era_snapshots.remove(&e);
            self.era_rewards.remove(&e);
            e = e + 1;
        }
    }

    /// The claim records whose era is outside the purged window.
    fn retain_claims(
        claims: &Vec<(AccountId, EraIndex)>,
        lo: EraIndex,
        hi: EraIndex,
    ) -> (kept: Vec<(AccountId, EraIndex)>)
        ensures
            kept@ == kept_claims(claims@, lo, hi),
    {
        let n = claims.len();
        let mut kept: Vec<(AccountId, EraIndex)> = Vec::new();
        let mut i: usize = 0;
        while i < n
            invariant
                i <= n,
                n == claims@.len(),
                kept@ == kept_claims(claims@.take(i as int), lo, hi),
            decreases n - i,
        {
            let entry = claims[i];
            proof {
                lemma_claims_take_step(claims@, lo, hi, i as int);
            }
            if !(lo <= entry.1 && entry.1 < hi) {
                kept.push(entry);
            }
            i = i + 1;
        }
        proof {
            lemma_claims_take_all(claims@, lo, hi);
        }
        kept
    }
}

} // verus!
