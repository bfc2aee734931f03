use dapps_staking::state::StakingState;
use dapps_staking::types::{Error, Event, RewardDestination};

fn engine() -> StakingState {
    StakingState::new(2, 10, 100, 20, 5)
}

/// One staker (stash 1, controller 2) with 100 on contract 7, the
/// era-0 payout recorded as 50: era 0 is payable.
fn rewarded_engine() -> StakingState {
    let mut s = engine();
    assert_eq!(s.bond(1, 2, 100, RewardDestination::Stash, 100, 1), Ok(()));
    assert_eq!(s.register(9, 7, true, 10), Ok(()));
    assert_eq!(s.stake_contracts(2, &vec![7]), Ok(()));
    s.rotate_era();
    s.activate_era(0); // era 0 becomes active
    s.rotate_era();
    s.activate_era(50); // era 0 ends with a payout of 50
    s
}

#[test]
fn payout_with_no_eras_fails_invalid_era() {
    let mut s = engine();
    assert_eq!(s.payout_stakers(7, 0), Err(Error::InvalidEraToReward));
    assert_eq!(s.payout_contract(7, 0), Err(Error::InvalidEraToReward));
}

#[test]
fn payout_for_the_active_era_fails_invalid_era() {
    let mut s = rewarded_engine();
    // era 1 is active, not yet over
    assert_eq!(s.payout_stakers(7, 1), Err(Error::InvalidEraToReward));
    assert_eq!(s.payout_stakers(7, 9), Err(Error::InvalidEraToReward));
}

#[test]
fn payout_behind_the_history_window_fails_invalid_era() {
    let mut s = engine();
    assert_eq!(s.bond(1, 2, 100, RewardDestination::Stash, 100, 1), Ok(()));
    for _ in 0..4 {
        s.rotate_era();
        s.activate_era(10);
    }
    assert_eq!(s.current_era, Some(3));
    s.set_history_depth(1);
    // era 1 is below current era 3 minus depth 1
    assert_eq!(s.payout_stakers(7, 1), Err(Error::InvalidEraToReward));
    assert_eq!(s.payout_stakers(7, 2), Ok(vec![]));
}

#[test]
fn payout_stakers_pays_the_proportional_share() {
    let mut s = rewarded_engine();
    // allocation 50 * 100 / 100 = 50; operator cut 20% = 10; pool 40;
    // the single staker holds the whole contract stake
    let credits = s.payout_stakers(7, 0).unwrap();
    assert_eq!(credits, vec![(1, 40)]);
    assert_eq!(s.events.last(), Some(&Event::Reward(40, 50)));
}

#[test]
fn payout_stakers_is_idempotent() {
    let mut s = rewarded_engine();
    assert_eq!(s.payout_stakers(7, 0).unwrap().len(), 1);
    let events_before = s.events.len();
    // the second call pays nobody and emits nothing
    assert_eq!(s.payout_stakers(7, 0), Ok(vec![]));
    assert_eq!(s.events.len(), events_before);
}

#[test]
fn payout_follows_the_reward_destination() {
    let mut s = rewarded_engine();
    assert_eq!(s.set_payee(2, RewardDestination::Controller), Ok(()));
    let credits = s.payout_stakers(7, 0).unwrap();
    assert_eq!(credits, vec![(2, 40)]);
}

#[test]
fn payout_to_a_designated_account() {
    let mut s = rewarded_engine();
    assert_eq!(s.set_payee(2, RewardDestination::Account(42)), Ok(()));
    let credits = s.payout_stakers(7, 0).unwrap();
    assert_eq!(credits, vec![(42, 40)]);
}

#[test]
fn withheld_destination_gets_no_credit() {
    let mut s = rewarded_engine();
    assert_eq!(s.set_payee(2, RewardDestination::NoPayee), Ok(()));
    let credits = s.payout_stakers(7, 0).unwrap();
    assert!(credits.is_empty());
    // the allocation is still announced; the stakers' total is zero
    assert_eq!(s.events.last(), Some(&Event::Reward(0, 50)));
}

#[test]
fn payout_splits_between_stakers_and_retains_the_remainder() {
    let mut s = engine();
    assert_eq!(s.bond(1, 2, 100, RewardDestination::Stash, 100, 1), Ok(()));
    assert_eq!(s.bond(3, 4, 50, RewardDestination::Stash, 50, 1), Ok(()));
    assert_eq!(s.register(9, 7, true, 10), Ok(()));
    assert_eq!(s.stake_contracts(2, &vec![7]), Ok(()));
    assert_eq!(s.stake_contracts(4, &vec![7]), Ok(()));
    s.rotate_era();
    s.activate_era(0);
    s.rotate_era();
    s.activate_era(100);
    // allocation 100, cut 20, pool 80: 80*100/150 = 53, 80*50/150 = 26
    let credits = s.payout_stakers(7, 0).unwrap();
    assert_eq!(credits, vec![(1, 53), (3, 26)]);
    assert_eq!(s.events.last(), Some(&Event::Reward(79, 100)));
    // 53 + 26 + 20 = 99 <= 100: the remainder is retained
}

#[test]
fn payout_caps_the_rewarded_stakers() {
    let mut s = StakingState::new(2, 10, 1, 20, 5);
    assert_eq!(s.bond(1, 2, 100, RewardDestination::Stash, 100, 1), Ok(()));
    assert_eq!(s.bond(3, 4, 100, RewardDestination::Stash, 100, 1), Ok(()));
    assert_eq!(s.register(9, 7, true, 10), Ok(()));
    assert_eq!(s.stake_contracts(2, &vec![7]), Ok(()));
    assert_eq!(s.stake_contracts(4, &vec![7]), Ok(()));
    s.rotate_era();
    s.activate_era(0);
    s.rotate_era();
    s.activate_era(100);
    // only the first snapshot row is rewarded: its stake is 100 of the
    // era's 200, so the allocation is 100*100/200 = 50, cut 10, pool 40
    let credits = s.payout_stakers(7, 0).unwrap();
    assert_eq!(credits, vec![(1, 40)]);
    assert_eq!(s.events.last(), Some(&Event::Reward(40, 50)));
}

#[test]
fn payout_contract_pays_the_operator_cut() {
    let mut s = rewarded_engine();
    // allocation 50, operator share 20 hundredths: 10 to depositor 9
    assert_eq!(s.payout_contract(7, 0), Ok(Some((9, 10))));
    // and only once
    assert_eq!(s.payout_contract(7, 0), Ok(None));
}

#[test]
fn payout_contract_unregistered_fails() {
    let mut s = rewarded_engine();
    assert_eq!(s.payout_contract(8, 0), Err(Error::NotOperatedContracts));
}

#[test]
fn staker_and_operator_payouts_are_tracked_separately() {
    let mut s = rewarded_engine();
    assert_eq!(s.payout_stakers(7, 0).unwrap(), vec![(1, 40)]);
    assert_eq!(s.payout_contract(7, 0), Ok(Some((9, 10))));
    assert_eq!(s.payout_stakers(7, 0), Ok(vec![]));
    assert_eq!(s.payout_contract(7, 0), Ok(None));
}

#[test]
fn payout_for_a_contract_without_stake_is_empty() {
    let mut s = rewarded_engine();
    assert_eq!(s.register(9, 8, true, 10), Ok(()));
    let credits = s.payout_stakers(8, 0).unwrap();
    assert!(credits.is_empty());
    assert_eq!(s.events.last(), Some(&Event::Reward(0, 0)));
}
