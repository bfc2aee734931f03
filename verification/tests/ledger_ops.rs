use dapps_staking::state::StakingState;
use dapps_staking::types::{Error, Event, RewardDestination};

fn engine() -> StakingState {
    // bonding duration 2, up to 10 targets, up to 100 rewarded stakers,
    // operator share 20 hundredths, register deposit 5
    StakingState::new(2, 10, 100, 20, 5)
}

fn advance_eras(s: &mut StakingState, count: u32) {
    let mut i = 0;
    while i < count {
        s.rotate_era();
        s.activate_era(0);
        i += 1;
    }
}

#[test]
fn bond_creates_ledger_binding_and_lock() {
    let mut s = engine();
    let r = s.bond(1, 2, 100, RewardDestination::Stash, 100, 1);
    assert_eq!(r, Ok(()));
    assert_eq!(s.bonded.get(&1), Some(&2));
    let l = s.ledgers.get(&2).unwrap();
    assert_eq!(l.stash, 1);
    assert_eq!(l.total, 100);
    assert_eq!(l.active, 100);
    assert!(l.unlocking.is_empty());
    assert_eq!(s.locks.get(&1), Some(&100));
    assert_eq!(s.payees.get(&1), Some(&RewardDestination::Stash));
    assert_eq!(s.events.last(), Some(&Event::Bonded(1, 100)));
}

#[test]
fn bond_locks_at_most_the_free_balance() {
    let mut s = engine();
    assert_eq!(s.bond(1, 2, 150, RewardDestination::Stash, 100, 1), Ok(()));
    assert_eq!(s.ledgers.get(&2).unwrap().total, 100);
    assert_eq!(s.locks.get(&1), Some(&100));
}

#[test]
fn bond_same_stash_twice_fails_already_bonded() {
    let mut s = engine();
    assert_eq!(s.bond(1, 2, 100, RewardDestination::Stash, 100, 1), Ok(()));
    let events_before = s.events.len();
    assert_eq!(
        s.bond(1, 3, 50, RewardDestination::Stash, 100, 1),
        Err(Error::AlreadyBonded)
    );
    // nothing changed on failure
    assert_eq!(s.events.len(), events_before);
    assert_eq!(s.bonded.get(&1), Some(&2));
    assert!(s.ledgers.get(&3).is_none());
}

#[test]
fn bond_taken_controller_fails_already_paired() {
    let mut s = engine();
    assert_eq!(s.bond(1, 2, 100, RewardDestination::Stash, 100, 1), Ok(()));
    assert_eq!(
        s.bond(4, 2, 50, RewardDestination::Stash, 100, 1),
        Err(Error::AlreadyPaired)
    );
    assert!(s.bonded.get(&4).is_none());
}

#[test]
fn bond_below_minimum_fails_insufficient_value() {
    let mut s = engine();
    assert_eq!(
        s.bond(1, 2, 3, RewardDestination::Stash, 100, 5),
        Err(Error::InsufficientValue)
    );
    assert!(s.bonded.get(&1).is_none());
    assert!(s.events.is_empty());
}

#[test]
fn bond_with_zero_free_balance_fails_insufficient_value() {
    let mut s = engine();
    assert_eq!(
        s.bond(1, 2, 100, RewardDestination::Stash, 0, 1),
        Err(Error::InsufficientValue)
    );
    assert!(s.bonded.get(&1).is_none());
}

#[test]
fn bond_extra_grows_active_total_and_lock() {
    let mut s = engine();
    assert_eq!(s.bond(1, 2, 50, RewardDestination::Stash, 100, 1), Ok(()));
    assert_eq!(s.bond_extra(1, 30, 100), Ok(()));
    let l = s.ledgers.get(&2).unwrap();
    assert_eq!(l.total, 80);
    assert_eq!(l.active, 80);
    assert_eq!(s.locks.get(&1), Some(&80));
    assert_eq!(s.events.last(), Some(&Event::Bonded(1, 30)));
}

#[test]
fn bond_extra_is_capped_by_the_headroom() {
    let mut s = engine();
    assert_eq!(s.bond(1, 2, 90, RewardDestination::Stash, 100, 1), Ok(()));
    assert_eq!(s.bond_extra(1, 500, 100), Ok(()));
    assert_eq!(s.ledgers.get(&2).unwrap().total, 100);
}

#[test]
fn bond_extra_without_headroom_changes_nothing() {
    let mut s = engine();
    assert_eq!(s.bond(1, 2, 100, RewardDestination::Stash, 100, 1), Ok(()));
    let events_before = s.events.len();
    assert_eq!(s.bond_extra(1, 30, 100), Ok(()));
    assert_eq!(s.ledgers.get(&2).unwrap().total, 100);
    assert_eq!(s.events.len(), events_before);
}

#[test]
fn bond_extra_unknown_stash_fails_not_stash() {
    let mut s = engine();
    assert_eq!(s.bond_extra(1, 30, 100), Err(Error::NotStash));
}

#[test]
fn unbond_at_era_five_schedules_for_era_seven() {
    let mut s = engine();
    assert_eq!(s.bond(1, 2, 100, RewardDestination::Stash, 100, 1), Ok(()));
    advance_eras(&mut s, 6); // current era 5
    assert_eq!(s.current_era, Some(5));
    assert_eq!(s.unbond(2, 40, 1), Ok(()));
    let l = s.ledgers.get(&2).unwrap();
    assert_eq!(l.total, 100);
    assert_eq!(l.active, 60);
    assert_eq!(l.unlocking.len(), 1);
    assert_eq!(l.unlocking[0].value, 40);
    assert_eq!(l.unlocking[0].era, 7);
    assert_eq!(s.locks.get(&1), Some(&100));
    assert_eq!(s.events.last(), Some(&Event::Unbonded(1, 40)));
}

#[test]
fn unbond_below_minimum_unbonds_everything() {
    let mut s = engine();
    assert_eq!(s.bond(1, 2, 100, RewardDestination::Stash, 100, 10), Ok(()));
    // 100 - 99 = 1 would stay active, below the minimum of 10
    assert_eq!(s.unbond(2, 99, 10), Ok(()));
    let l = s.ledgers.get(&2).unwrap();
    assert_eq!(l.active, 0);
    assert_eq!(l.unlocking[0].value, 100);
}

#[test]
fn unbond_unknown_controller_fails_not_controller() {
    let mut s = engine();
    assert_eq!(s.unbond(2, 40, 1), Err(Error::NotController));
}

#[test]
fn unbond_full_queue_fails_no_more_chunks() {
    let mut s = engine();
    assert_eq!(s.bond(1, 2, 100, RewardDestination::Stash, 100, 1), Ok(()));
    for _ in 0..32 {
        assert_eq!(s.unbond(2, 1, 1), Ok(()));
    }
    assert_eq!(s.ledgers.get(&2).unwrap().unlocking.len(), 32);
    assert_eq!(s.unbond(2, 1, 1), Err(Error::NoMoreChunks));
    assert_eq!(s.ledgers.get(&2).unwrap().unlocking.len(), 32);
}

#[test]
fn withdraw_before_the_chunk_era_is_a_noop() {
    let mut s = engine();
    assert_eq!(s.bond(1, 2, 100, RewardDestination::Stash, 100, 1), Ok(()));
    advance_eras(&mut s, 6);
    assert_eq!(s.unbond(2, 40, 1), Ok(()));
    let events_before = s.events.len();
    assert_eq!(s.withdraw_unbonded(2), Ok(0));
    let l = s.ledgers.get(&2).unwrap();
    assert_eq!(l.total, 100);
    assert_eq!(l.unlocking.len(), 1);
    assert_eq!(s.locks.get(&1), Some(&100));
    assert_eq!(s.events.len(), events_before);
}

#[test]
fn withdraw_at_the_chunk_era_reduces_total_and_lock() {
    let mut s = engine();
    assert_eq!(s.bond(1, 2, 100, RewardDestination::Stash, 100, 1), Ok(()));
    advance_eras(&mut s, 6);
    assert_eq!(s.unbond(2, 40, 1), Ok(()));
    advance_eras(&mut s, 2); // current era 7
    assert_eq!(s.current_era, Some(7));
    assert_eq!(s.withdraw_unbonded(2), Ok(40));
    let l = s.ledgers.get(&2).unwrap();
    assert_eq!(l.total, 60);
    assert_eq!(l.active, 60);
    assert!(l.unlocking.is_empty());
    assert_eq!(s.locks.get(&1), Some(&60));
    assert_eq!(s.events.last(), Some(&Event::Withdrawn(1, 40)));
}

#[test]
fn withdraw_unknown_controller_fails_not_controller() {
    let mut s = engine();
    assert_eq!(s.withdraw_unbonded(2), Err(Error::NotController));
}

#[test]
fn set_controller_moves_the_ledger_atomically() {
    let mut s = engine();
    assert_eq!(s.bond(1, 2, 100, RewardDestination::Stash, 100, 1), Ok(()));
    assert_eq!(s.set_controller(1, 3), Ok(()));
    assert!(s.ledgers.get(&2).is_none());
    let l = s.ledgers.get(&3).unwrap();
    assert_eq!(l.stash, 1);
    assert_eq!(l.total, 100);
    assert_eq!(l.active, 100);
    assert!(l.unlocking.is_empty());
    assert_eq!(s.bonded.get(&1), Some(&3));
    // the controller now manages the stake
    assert_eq!(s.unbond(3, 10, 1), Ok(()));
    assert_eq!(s.unbond(2, 10, 1), Err(Error::NotController));
}

#[test]
fn set_controller_unknown_stash_fails_not_stash() {
    let mut s = engine();
    assert_eq!(s.set_controller(1, 3), Err(Error::NotStash));
}

#[test]
fn set_controller_to_current_or_taken_fails_already_paired() {
    let mut s = engine();
    assert_eq!(s.bond(1, 2, 100, RewardDestination::Stash, 100, 1), Ok(()));
    assert_eq!(s.bond(4, 5, 100, RewardDestination::Stash, 100, 1), Ok(()));
    assert_eq!(s.set_controller(1, 2), Err(Error::AlreadyPaired));
    assert_eq!(s.set_controller(1, 5), Err(Error::AlreadyPaired));
    assert_eq!(s.bonded.get(&1), Some(&2));
}

#[test]
fn set_payee_rebinds_the_stash_destination() {
    let mut s = engine();
    assert_eq!(s.bond(1, 2, 100, RewardDestination::Stash, 100, 1), Ok(()));
    assert_eq!(s.set_payee(2, RewardDestination::Account(9)), Ok(()));
    assert_eq!(s.payees.get(&1), Some(&RewardDestination::Account(9)));
    assert_eq!(
        s.set_payee(3, RewardDestination::Stash),
        Err(Error::NotController)
    );
}

#[test]
fn bond_unbond_withdraw_scenario() {
    let mut s = engine();
    // bond 100 as stash 1 / controller 2, minimum balance 1
    assert_eq!(s.bond(1, 2, 100, RewardDestination::Stash, 100, 1), Ok(()));
    {
        let l = s.ledgers.get(&2).unwrap();
        assert_eq!((l.total, l.active, l.unlocking.len()), (100, 100, 0));
    }
    // unbond 40 at era 5 with bonding duration 2
    advance_eras(&mut s, 6);
    assert_eq!(s.unbond(2, 40, 1), Ok(()));
    {
        let l = s.ledgers.get(&2).unwrap();
        assert_eq!((l.total, l.active), (100, 60));
        assert_eq!((l.unlocking[0].value, l.unlocking[0].era), (40, 7));
    }
    // at era 7 the chunk is withdrawable
    advance_eras(&mut s, 2);
    assert_eq!(s.withdraw_unbonded(2), Ok(40));
    {
        let l = s.ledgers.get(&2).unwrap();
        assert_eq!((l.total, l.active, l.unlocking.len()), (60, 60, 0));
    }
    assert_eq!(s.locks.get(&1), Some(&60));
    assert_eq!(s.events.last(), Some(&Event::Withdrawn(1, 40)));
}
