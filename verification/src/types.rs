//! Core data types of the staking engine.

use vstd::prelude::*;

verus! {

/// Identity of an account (stash, controller, contract or payee).
pub type AccountId = u64;

/// A locked or free amount of currency.
pub type Balance = u64;

/// Index of a staking era.
pub type EraIndex = u32;

/// A moment in time, in milliseconds.
pub type Moment = u64;

/// Upper bound on the number of unlocking chunks a ledger may carry.
pub const MAX_UNLOCKING_CHUNKS: usize = 32;

/// History depth used until a root call overrides it.
pub const DEFAULT_HISTORY_DEPTH: u32 = 84;

/// A pending, time-delayed release of previously active stake.
#[derive(Clone, Copy, PartialEq, Eq, Structural, Debug)]
pub struct UnlockChunk {
    /// Amount scheduled to be unlocked.
    pub value: Balance,
    /// First era at which `value` may be withdrawn.
    pub era: EraIndex,
}

/// The staking record owned by one controller.
#[derive(Debug)]
pub struct StakingLedger {
    /// The stash account whose balance is locked.
    pub stash: AccountId,
    /// Total locked amount: active plus everything still unlocking.
    pub total: Balance,
    /// Amount actively at stake.
    pub active: Balance,
    /// Pending releases, in order of creation.
    pub unlocking: Vec<UnlockChunk>,
    /// Last era for which this ledger was rewarded.
    pub last_reward: EraIndex,
}

/// Where reward payouts are credited.
#[derive(Clone, Copy, PartialEq, Eq, Structural, Debug)]
pub enum RewardDestination {
    /// Pay into the stash account.
    Stash,
    /// Pay into the controller account.
    Controller,
    /// Pay into a designated account.
    Account(AccountId),
    /// Withhold the payout entirely.
    NoPayee,
}

/// The active era and, once the first block of the era has run, its start.
#[derive(Clone, Copy, PartialEq, Eq, Structural, Debug)]
pub struct ActiveEraInfo {
    /// Index of the era being rewarded.
    pub index: EraIndex,
    /// Wall-clock start of the era, set exactly once.
    pub start: Option<Moment>,
}

/// Root-controlled override of the era-rotation cadence.
#[derive(Clone, Copy, PartialEq, Eq, Structural, Debug)]
pub enum Forcing {
    /// Normal cadence: rotate when the host signals an era boundary.
    NotForcing,
    /// Rotate at the next opportunity, then revert to `NotForcing`.
    ForceNew,
    /// Suppress all rotation until cleared.
    ForceNone,
    /// Rotate at every opportunity.
    ForceAlways,
}

/// A controller's assessment of a contract.
#[derive(Clone, Copy, PartialEq, Eq, Structural, Debug)]
pub enum Vote {
    /// The contract behaves well.
    Good,
    /// The contract behaves badly.
    Bad,
}

/// A registered contract and the deposit that backs its registration.
#[derive(Clone, Copy, PartialEq, Eq, Structural, Debug)]
pub struct ContractRegistration {
    /// The registered contract.
    pub contract_id: AccountId,
    /// The account that registered the contract and holds its deposit.
    pub depositor: AccountId,
    /// The deposit taken at registration.
    pub deposit_amount: Balance,
    /// Whether the registration is live.
    pub registered: bool,
}

/// One controller's stake directed at one contract.
#[derive(Clone, Copy, PartialEq, Eq, Structural, Debug)]
pub struct StakeRecord {
    /// The controller that set the target.
    pub controller: AccountId,
    /// The stash whose funds back the stake.
    pub stash: AccountId,
    /// The contract staked on.
    pub contract: AccountId,
    /// The amount directed at the contract.
    pub amount: Balance,
}

/// One controller's recorded vote on one contract.
#[derive(Clone, Copy, PartialEq, Eq, Structural, Debug)]
pub struct VoteRecord {
    /// The controller that voted.
    pub controller: AccountId,
    /// The contract voted on.
    pub contract: AccountId,
    /// The assessment; the last write wins.
    pub vote: Vote,
}

/// The stake records in force when an era began, with their total.
#[derive(Debug)]
pub struct EraSnapshot {
    /// The stake records copied at rotation.
    pub records: Vec<StakeRecord>,
    /// Sum of all record amounts.
    pub total: Balance,
}

/// Everything an operation can fail with, returned before any mutation.
#[derive(Clone, Copy, PartialEq, Eq, Structural, Debug)]
pub enum Error {
    /// Not a controller account.
    NotController,
    /// Not a stash account.
    NotStash,
    /// Stash is already bonded.
    AlreadyBonded,
    /// Controller is already paired.
    AlreadyPaired,
    /// Targets cannot be empty.
    EmptyTargets,
    /// Duplicate index.
    DuplicateIndex,
    /// Slash record index out of bounds.
    InvalidSlashIndex,
    /// Cannot bond with a value less than the minimum balance.
    InsufficientValue,
    /// Cannot schedule more unlock chunks.
    NoMoreChunks,
    /// Cannot rebond without unlocking chunks.
    NoUnlockChunk,
    /// Attempting to target a stash that still has funds.
    FundedTarget,
    /// Invalid era to reward.
    InvalidEraToReward,
    /// Invalid number of nominations.
    InvalidNumberOfNominations,
    /// Items are not sorted and unique.
    NotSortedAndUnique,
    /// Nominations need at least one target.
    EmptyNominateTargets,
    /// Targets must be operated contracts.
    NotOperatedContracts,
    /// The nominations amount to more than the active staking amount.
    NotEnoughStaking,
}

/// What an operation reports to the outside world.
#[derive(Clone, Copy, PartialEq, Eq, Structural, Debug)]
pub enum Event {
    /// Rewards distributed for one contract and era: stakers' part and
    /// the contract's whole allocation.
    Reward(Balance, Balance),
    /// An account has bonded; carries the stash's free balance seen then.
    Bonded(AccountId, Balance),
    /// An account has unbonded this amount.
    Unbonded(AccountId, Balance),
    /// Unlocked chunks worth this amount left the unlocking queue.
    Withdrawn(AccountId, Balance),
    /// Total minted rewards recorded for an ended era.
    TotalDappsRewards(EraIndex, Balance),
    /// Stake targets of this stash changed.
    Stake(AccountId),
}

} // verus!
