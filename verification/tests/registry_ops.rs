use dapps_staking::state::StakingState;
use dapps_staking::types::{Error, Event, RewardDestination, Vote};

fn engine() -> StakingState {
    StakingState::new(2, 10, 100, 20, 5)
}

fn bonded_engine() -> StakingState {
    let mut s = engine();
    assert_eq!(s.bond(1, 2, 100, RewardDestination::Stash, 100, 1), Ok(()));
    s
}

#[test]
fn register_stores_the_registration() {
    let mut s = engine();
    assert_eq!(s.register(9, 7, true, 10), Ok(()));
    let reg = s.registrations.get(&7).unwrap();
    assert_eq!(reg.contract_id, 7);
    assert_eq!(reg.depositor, 9);
    assert_eq!(reg.deposit_amount, 5);
    assert!(reg.registered);
}

#[test]
fn register_unoperated_contract_fails() {
    let mut s = engine();
    assert_eq!(s.register(9, 7, false, 10), Err(Error::NotOperatedContracts));
    assert!(s.registrations.get(&7).is_none());
}

#[test]
fn register_without_the_deposit_fails() {
    let mut s = engine();
    assert_eq!(s.register(9, 7, true, 4), Err(Error::InsufficientValue));
    assert!(s.registrations.get(&7).is_none());
}

#[test]
fn set_register_deposit_governs_future_registrations() {
    let mut s = engine();
    s.set_register_deposit(50);
    assert_eq!(s.register(9, 7, true, 10), Err(Error::InsufficientValue));
    assert_eq!(s.register(9, 7, true, 50), Ok(()));
    assert_eq!(s.registrations.get(&7).unwrap().deposit_amount, 50);
}

#[test]
fn stake_contracts_splits_the_active_stake_evenly() {
    let mut s = bonded_engine();
    assert_eq!(s.register(9, 7, true, 10), Ok(()));
    assert_eq!(s.register(9, 8, true, 10), Ok(()));
    assert_eq!(s.stake_contracts(2, &vec![7, 8]), Ok(()));
    assert_eq!(s.stakes.len(), 2);
    for rec in s.stakes.iter() {
        assert_eq!(rec.controller, 2);
        assert_eq!(rec.stash, 1);
        assert_eq!(rec.amount, 50);
    }
    assert_eq!(s.stakes[0].contract, 7);
    assert_eq!(s.stakes[1].contract, 8);
    assert_eq!(s.total_staked, 100);
    assert_eq!(s.events.last(), Some(&Event::Stake(1)));
}

#[test]
fn stake_contracts_rounds_the_even_split_down() {
    let mut s = bonded_engine();
    assert_eq!(s.register(9, 7, true, 10), Ok(()));
    assert_eq!(s.register(9, 8, true, 10), Ok(()));
    assert_eq!(s.register(9, 11, true, 10), Ok(()));
    assert_eq!(s.stake_contracts(2, &vec![7, 8, 11]), Ok(()));
    // 100 / 3 rounds down; the remainder stays unstaked
    for rec in s.stakes.iter() {
        assert_eq!(rec.amount, 33);
    }
    assert_eq!(s.total_staked, 99);
}

#[test]
fn stake_contracts_error_cases() {
    let mut s = bonded_engine();
    assert_eq!(s.register(9, 7, true, 10), Ok(()));
    assert_eq!(s.register(9, 8, true, 10), Ok(()));
    assert_eq!(s.stake_contracts(3, &vec![7]), Err(Error::NotController));
    assert_eq!(s.stake_contracts(2, &vec![]), Err(Error::EmptyTargets));
    assert_eq!(
        s.stake_contracts(2, &vec![8, 7]),
        Err(Error::NotSortedAndUnique)
    );
    assert_eq!(
        s.stake_contracts(2, &vec![7, 7]),
        Err(Error::NotSortedAndUnique)
    );
    assert_eq!(
        s.stake_contracts(2, &vec![7, 12]),
        Err(Error::NotOperatedContracts)
    );
    // nothing was recorded by the failing calls
    assert!(s.stakes.is_empty());
    assert_eq!(s.total_staked, 0);
}

#[test]
fn stake_contracts_respects_the_target_cap() {
    let mut s = StakingState::new(2, 1, 100, 20, 5);
    assert_eq!(s.bond(1, 2, 100, RewardDestination::Stash, 100, 1), Ok(()));
    assert_eq!(s.register(9, 7, true, 10), Ok(()));
    assert_eq!(s.register(9, 8, true, 10), Ok(()));
    assert_eq!(
        s.stake_contracts(2, &vec![7, 8]),
        Err(Error::InvalidNumberOfNominations)
    );
    assert_eq!(s.stake_contracts(2, &vec![7]), Ok(()));
}

#[test]
fn stake_contracts_needs_one_unit_per_target() {
    let mut s = engine();
    assert_eq!(s.bond(1, 2, 1, RewardDestination::Stash, 1, 1), Ok(()));
    assert_eq!(s.register(9, 7, true, 10), Ok(()));
    assert_eq!(s.register(9, 8, true, 10), Ok(()));
    assert_eq!(
        s.stake_contracts(2, &vec![7, 8]),
        Err(Error::NotEnoughStaking)
    );
}

#[test]
fn restaking_replaces_the_earlier_targets() {
    let mut s = bonded_engine();
    assert_eq!(s.register(9, 7, true, 10), Ok(()));
    assert_eq!(s.register(9, 8, true, 10), Ok(()));
    assert_eq!(s.stake_contracts(2, &vec![7]), Ok(()));
    assert_eq!(s.total_staked, 100);
    assert_eq!(s.stake_contracts(2, &vec![8]), Ok(()));
    assert_eq!(s.stakes.len(), 1);
    assert_eq!(s.stakes[0].contract, 8);
    assert_eq!(s.total_staked, 100);
}

#[test]
fn votes_from_two_calls_keep_only_the_second() {
    let mut s = bonded_engine();
    assert_eq!(s.vote_contracts(2, &vec![(7, Vote::Good)]), Ok(()));
    assert_eq!(s.vote_contracts(2, &vec![(7, Vote::Bad)]), Ok(()));
    assert_eq!(s.votes.len(), 1);
    assert_eq!(s.votes[0].controller, 2);
    assert_eq!(s.votes[0].contract, 7);
    assert_eq!(s.votes[0].vote, Vote::Bad);
}

#[test]
fn votes_within_one_call_keep_only_the_last() {
    let mut s = bonded_engine();
    assert_eq!(
        s.vote_contracts(2, &vec![(7, Vote::Bad), (7, Vote::Good)]),
        Ok(())
    );
    assert_eq!(s.votes.len(), 1);
    assert_eq!(s.votes[0].vote, Vote::Good);
}

#[test]
fn votes_on_distinct_contracts_coexist() {
    let mut s = bonded_engine();
    assert_eq!(
        s.vote_contracts(2, &vec![(7, Vote::Good), (8, Vote::Bad)]),
        Ok(())
    );
    assert_eq!(s.votes.len(), 2);
}

#[test]
fn voting_unbonded_fails_not_controller() {
    let mut s = engine();
    assert_eq!(
        s.vote_contracts(2, &vec![(7, Vote::Good)]),
        Err(Error::NotController)
    );
    assert!(s.votes.is_empty());
}

#[test]
fn chill_clears_this_controllers_targets_and_votes() {
    let mut s = bonded_engine();
    assert_eq!(s.bond(4, 5, 60, RewardDestination::Stash, 60, 1), Ok(()));
    assert_eq!(s.register(9, 7, true, 10), Ok(()));
    assert_eq!(s.stake_contracts(2, &vec![7]), Ok(()));
    assert_eq!(s.stake_contracts(5, &vec![7]), Ok(()));
    assert_eq!(s.vote_contracts(2, &vec![(7, Vote::Good)]), Ok(()));
    assert_eq!(s.vote_contracts(5, &vec![(7, Vote::Bad)]), Ok(()));
    assert_eq!(s.total_staked, 160);
    assert_eq!(s.chill(2), Ok(()));
    assert_eq!(s.stakes.len(), 1);
    assert_eq!(s.stakes[0].controller, 5);
    assert_eq!(s.votes.len(), 1);
    assert_eq!(s.votes[0].controller, 5);
    assert_eq!(s.total_staked, 60);
}

#[test]
fn chill_unbonded_fails_not_controller() {
    let mut s = engine();
    assert_eq!(s.chill(2), Err(Error::NotController));
}
