//! The engine's state and its well-formedness invariant.

use vstd::prelude::*;
use std::collections::HashMap;
use crate::types::{
    AccountId, ActiveEraInfo, Balance, ContractRegistration, EraIndex, EraSnapshot, Event,
    Forcing, RewardDestination, StakeRecord, StakingLedger, UnlockChunk, Vote, VoteRecord,
    DEFAULT_HISTORY_DEPTH, MAX_UNLOCKING_CHUNKS,
};
use crate::model::{sum_amounts, sum_chunks, unique_stake_pairs, unique_vote_keys};

verus! {

/// A snapshot is well formed when its stored total is the sum of its
/// record amounts.
pub open spec fn snapshot_wf(s: EraSnapshot) -> bool {
    s.total == sum_amounts(s.records@)
}

/// A ledger is well formed when its total splits into the active part
/// and the unlocking queue, and the queue is within capacity.
pub open spec fn ledger_wf(l: StakingLedger) -> bool {
    &&& l.total == l.active + sum_chunks(l.unlocking@)
    &&& l.unlocking@.len() <= MAX_UNLOCKING_CHUNKS
}

/// The whole engine: ledgers, bindings, era bookkeeping, the contract
/// registry, stake targets and votes, per-era reward records, and the
/// events emitted so far.
///
/// Outside collaborators appear only as plain values handed into the
/// operations (free balances, the minimum balance, the clock reading,
/// the contract finder's verdict, the era payout) and as plain values
/// handed back (credit lists, the lock amounts in `locks` that the
/// host mirrors onto the currency service).
pub struct StakingState {
    /// Number of eras an unbonding chunk waits before withdrawal.
    pub bonding_duration: EraIndex,
    /// Cap on the number of contracts one controller may stake on.
    pub max_targets: usize,
    /// Cap on the number of stakers rewarded per contract and era.
    pub max_rewarded_stakers: usize,
    /// The contract operator's share of an allocation, in hundredths.
    pub operator_percent: u64,
    /// Stash account to controller account.
    pub bonded: HashMap<AccountId, AccountId>,
    /// Controller account to its staking ledger.
    pub ledgers: HashMap<AccountId, StakingLedger>,
    /// Stash account to its reward destination.
    pub payees: HashMap<AccountId, RewardDestination>,
    /// Stash account to the amount its balance lock must hold.
    pub locks: HashMap<AccountId, Balance>,
    /// Number of past eras whose records are retained.
    pub history_depth: u32,
    /// The latest planned era, if any era was ever planned.
    pub current_era: Option<EraIndex>,
    /// The era being rewarded, if any era was ever activated.
    pub active_era: Option<ActiveEraInfo>,
    /// Root-controlled override of the rotation cadence.
    pub force_era: Forcing,
    /// Deposit required from a contract's registrant.
    pub register_deposit: Balance,
    /// Contract account to its registration.
    pub registrations: HashMap<AccountId, ContractRegistration>,
    /// Current stake targets, unique per (controller, contract).
    pub stakes: Vec<StakeRecord>,
    /// Sum of all amounts in `stakes`.
    pub total_staked: Balance,
    /// Current votes, unique per (controller, contract).
    pub votes: Vec<VoteRecord>,
    /// Era index to the stake records in force when it was planned.
    pub era_snapshots: HashMap<EraIndex, EraSnapshot>,
    /// Ended era to the payout distributable for it.
    pub era_rewards: HashMap<EraIndex, Balance>,
    /// (contract, era) pairs whose staker payout already ran.
    pub claimed_staker_payouts: Vec<(AccountId, EraIndex)>,
    /// (contract, era) pairs whose operator payout already ran.
    pub claimed_operator_payouts: Vec<(AccountId, EraIndex)>,
    /// Events emitted so far, oldest first.
    pub events: Vec<Event>,
}

impl StakingState {
    /// The engine's invariant, established by `new` and kept by every
    /// operation: every ledger balances and stays within queue
    /// capacity; stash and controller bind one to one, with the ledger
    /// under the controller naming the stash back; every ledger's
    /// stash carries a lock equal to the ledger's total; the tracked
    /// stake total is the sum of the records; stake and vote records
    /// are unique per key; and every snapshot's total is the sum of
    /// its records.
    pub open spec fn wf(self) -> bool {
        &&& forall|c: AccountId| #[trigger] self.ledgers@.contains_key(c)
            ==> ledger_wf(self.ledgers@[c])
        &&& forall|s: AccountId| #[trigger] self.bonded@.contains_key(s) ==> {
            &&& self.ledgers@.contains_key(self.bonded@[s])
            &&& self.ledgers@[self.bonded@[s]].stash == s
        }
        &&& forall|c: AccountId| #[trigger] self.ledgers@.contains_key(c) ==> {
            &&& self.bonded@.contains_key(self.ledgers@[c].stash)
            &&& self.bonded@[self.ledgers@[c].stash] == c
        }
        &&& forall|c: AccountId| #[trigger] self.ledgers@.contains_key(c) ==> {
            &&& self.locks@.contains_key(self.ledgers@[c].stash)
            &&& self.locks@[self.ledgers@[c].stash] == self.ledgers@[c].total
        }
        &&& self.total_staked == sum_amounts(self.stakes@)
        &&& unique_stake_pairs(self.stakes@)
        &&& unique_vote_keys(self.votes@)
        &&& self.operator_percent <= 100
        &&& forall|e: EraIndex| #[trigger] self.era_snapshots@.contains_key(e)
            ==> snapshot_wf(self.era_snapshots@[e])
    }

    /// A fresh engine: nothing bonded, no eras planned or active,
    /// normal rotation cadence, and the default history depth.
    ///
    /// An operator share above one hundred hundredths is clamped.
    pub fn new(
        bonding_duration: EraIndex,
        max_targets: usize,
        max_rewarded_stakers: usize,
        operator_percent: u64,
        register_deposit: Balance,
    ) -> (s: StakingState)
        ensures
            s.wf(),
            s.bonding_duration == bonding_duration,
            s.max_targets == max_targets,
            s.max_rewarded_stakers == max_rewarded_stakers,
            s.operator_percent == if operator_percent <= 100 {
                operator_percent
            } else {
                100u64
            },
            s.register_deposit == register_deposit,
            s.bonded@ == Map::<AccountId, AccountId>::empty(),
            s.ledgers@ == Map::<AccountId, StakingLedger>::empty(),
            s.payees@ == Map::<AccountId, RewardDestination>::empty(),
            s.locks@ == Map::<AccountId, Balance>::empty(),
            s.history_depth == DEFAULT_HISTORY_DEPTH,
            s.current_era is None,
            s.active_era is None,
            s.force_era == Forcing::NotForcing,
            s.registrations@ == Map::<AccountId, ContractRegistration>::empty(),
            s.stakes@ == Seq::<StakeRecord>::empty(),
            s.total_staked == 0,
            s.votes@ == Seq::<VoteRecord>::empty(),
            s.era_snapshots@ == Map::<EraIndex, EraSnapshot>::empty(),
            s.era_rewards@ == Map::<EraIndex, Balance>::empty(),
            s.claimed_staker_payouts@ == Seq::<(AccountId, EraIndex)>::empty(),
            s.claimed_operator_payouts@ == Seq::<(AccountId, EraIndex)>::empty(),
            s.events@ == Seq::<Event>::empty(),
    {
        let share = if operator_percent <= 100 {
            operator_percent
        } else {
            100
        };
        StakingState {
            bonding_duration,
            max_targets,
            max_rewarded_stakers,
            operator_percent: share,
            bonded: HashMap::new(),
            ledgers: HashMap::new(),
            payees: HashMap::new(),
            locks: HashMap::new(),
            history_depth: DEFAULT_HISTORY_DEPTH,
            current_era: None,
            active_era: None,
            force_era: Forcing::NotForcing,
            register_deposit,
            registrations: HashMap::new(),
            stakes: Vec::new(),
            total_staked: 0,
            votes: Vec::new(),
            era_snapshots: HashMap::new(),
            era_rewards: HashMap::new(),
            claimed_staker_payouts: Vec::new(),
            claimed_operator_payouts: Vec::new(),
            events: Vec::new(),
        }
    }
}

} // verus!
