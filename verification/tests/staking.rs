use devkit_showcase::{DevKitShowcase, Error, Event};

fn pool_contract() -> DevKitShowcase {
    // token reference 9, voting period 10, quorum 1000, reward rate 10
    DevKitShowcase::new(9, 10, 1000, 10, 0)
}

#[test]
fn stake_creates_record_and_grows_pool() {
    let mut c = pool_contract();
    assert_eq!(c.stake(1, 100, 0), Ok(()));
    let info = c.get_staker_info(1).expect("record exists");
    assert_eq!(info.amount, 100);
    assert_eq!(info.reward_debt, 0);
    assert_eq!(info.last_update, 0);
    assert_eq!(c.get_staking_pool(), 100);
    assert_eq!(c.get_staked_amount(1), 100);
    assert_eq!(c.get_staked_amount(2), 0);
}

#[test]
fn stake_zero_amount_is_rejected() {
    let mut c = pool_contract();
    assert_eq!(c.stake(1, 0, 0), Err(Error::InvalidAmount));
    assert_eq!(c.get_staking_pool(), 0);
    assert!(c.get_staker_info(1).is_none());
    assert!(c.take_events().is_empty());
}

#[test]
fn pool_total_matches_sum_of_records() {
    let mut c = pool_contract();
    assert_eq!(c.stake(1, 100, 0), Ok(()));
    assert_eq!(c.stake(2, 300, 0), Ok(()));
    assert_eq!(c.stake(1, 50, 0), Ok(()));
    assert_eq!(c.unstake(2, 120, 0), Ok(0));
    assert_eq!(
        c.get_staking_pool(),
        c.get_staked_amount(1) + c.get_staked_amount(2)
    );
    assert_eq!(c.get_staking_pool(), 330);
}

#[test]
fn proportional_accrual_two_stakers() {
    // amounts 100 and 300, rate 10, 100 units elapsed: the pool emits
    // 1000; shares are floor(100*1000/400) = 250 and floor(300*1000/400)
    // = 750, and their sum does not exceed the emission.
    let mut c = pool_contract();
    assert_eq!(c.stake(1, 100, 0), Ok(()));
    assert_eq!(c.stake(2, 300, 0), Ok(()));
    assert_eq!(c.get_staking_pool(), 400);
    let p1 = c.get_pending_rewards(1, 100);
    let p2 = c.get_pending_rewards(2, 100);
    assert_eq!(p1, 250);
    assert_eq!(p2, 750);
    assert!(p1 + p2 <= 1000);
}

#[test]
fn stake_then_unstake_restores_pool_and_removes_record() {
    let mut c = pool_contract();
    assert_eq!(c.stake(7, 250, 3), Ok(()));
    let before = c.get_staking_pool();
    assert_eq!(c.stake(1, 40, 3), Ok(()));
    assert_eq!(c.unstake(1, 40, 3), Ok(0));
    assert_eq!(c.get_staking_pool(), before);
    assert!(c.get_staker_info(1).is_none());
}

#[test]
fn partial_unstake_keeps_record_and_reward_snapshot() {
    let mut c = pool_contract();
    assert_eq!(c.stake(1, 100, 0), Ok(()));
    // at t=10 the pool emits 100; the only staker gets all of it
    assert_eq!(c.unstake(1, 40, 10), Ok(100));
    let info = c.get_staker_info(1).expect("record remains");
    assert_eq!(info.amount, 60);
    assert_eq!(info.reward_debt, 100);
    assert_eq!(info.last_update, 10);
    assert_eq!(c.get_staking_pool(), 60);
}

#[test]
fn unstake_without_record_fails() {
    let mut c = pool_contract();
    assert_eq!(c.unstake(1, 5, 0), Err(Error::NoStake));
}

#[test]
fn unstake_more_than_staked_fails_without_side_effects() {
    let mut c = pool_contract();
    assert_eq!(c.stake(1, 100, 0), Ok(()));
    let events_before = c.take_events().len();
    assert_eq!(events_before, 1);
    let info_before = c.get_staker_info(1);
    let pool_before = c.get_staking_pool();
    assert_eq!(c.unstake(1, 101, 5), Err(Error::InsufficientStake));
    assert_eq!(c.get_staker_info(1), info_before);
    assert_eq!(c.get_staking_pool(), pool_before);
    assert_eq!(c.get_pending_rewards(1, 0), 0);
    assert!(c.take_events().is_empty());
}

#[test]
fn claim_zeroes_debt_and_returns_amount() {
    let mut c = pool_contract();
    assert_eq!(c.stake(1, 100, 0), Ok(()));
    // 10 units elapsed, rate 10, sole staker: entitlement 100
    assert_eq!(c.claim_rewards(1, 10), Ok(100));
    let info = c.get_staker_info(1).expect("record remains");
    assert_eq!(info.amount, 100);
    assert_eq!(info.reward_debt, 0);
    assert_eq!(c.get_staking_pool(), 100);
}

#[test]
fn claim_without_record_fails() {
    let mut c = pool_contract();
    assert_eq!(c.claim_rewards(1, 5), Err(Error::NoStake));
}

#[test]
fn claim_with_no_entitlement_fails() {
    let mut c = pool_contract();
    assert_eq!(c.stake(1, 100, 0), Ok(()));
    assert_eq!(c.claim_rewards(1, 0), Err(Error::NoRewards));
}

#[test]
fn accrue_is_idempotent_at_a_fixed_instant() {
    let mut c = pool_contract();
    assert_eq!(c.stake(1, 100, 0), Ok(()));
    assert_eq!(c.accrue(1, 10), Ok(()));
    let after_first = c.get_staker_info(1).expect("record exists");
    assert_eq!(after_first.reward_debt, 100);
    assert_eq!(c.accrue(1, 10), Ok(()));
    assert_eq!(c.get_staker_info(1), Some(after_first));
}

#[test]
fn debt_never_decreases_without_a_claim() {
    let mut c = pool_contract();
    assert_eq!(c.stake(1, 100, 0), Ok(()));
    let mut last_debt = 0u128;
    assert_eq!(c.accrue(1, 4), Ok(()));
    let d1 = c.get_staker_info(1).unwrap().reward_debt;
    assert!(d1 >= last_debt);
    last_debt = d1;
    assert_eq!(c.stake(1, 60, 8), Ok(()));
    let d2 = c.get_staker_info(1).unwrap().reward_debt;
    assert!(d2 >= last_debt);
    last_debt = d2;
    assert_eq!(c.unstake(1, 10, 12), Ok(last_debt + 40));
    let d3 = c.get_staker_info(1).unwrap().reward_debt;
    assert!(d3 >= last_debt);
}

#[test]
fn pool_overflow_is_reported() {
    let mut c = pool_contract();
    assert_eq!(c.stake(1, u128::MAX, 0), Ok(()));
    assert_eq!(c.stake(2, 1, 0), Err(Error::ArithmeticOverflow));
    assert_eq!(c.get_staking_pool(), u128::MAX);
    assert!(c.get_staker_info(2).is_none());
}

#[test]
fn emission_overflow_is_reported_on_mutation() {
    let mut c = DevKitShowcase::new(9, 10, 1000, u128::MAX, 0);
    assert_eq!(c.stake(1, 100, 0), Ok(()));
    assert_eq!(c.claim_rewards(1, 2), Err(Error::ArithmeticOverflow));
    assert_eq!(c.accrue(1, 2), Err(Error::ArithmeticOverflow));
    // the read-only query saturates instead of failing
    assert_eq!(c.get_pending_rewards(1, 2), u128::MAX);
    // one unit elapsed: the share numerator overflows, so the query
    // saturates as well
    assert_eq!(c.get_pending_rewards(1, 1), u128::MAX);
}

#[test]
fn stake_events_carry_account_amount_and_time() {
    let mut c = pool_contract();
    assert_eq!(c.stake(1, 100, 5), Ok(()));
    assert_eq!(c.unstake(1, 30, 15), Ok(100));
    assert_eq!(c.claim_rewards(1, 15), Ok(100));
    let events = c.take_events();
    assert_eq!(events.len(), 3);
    match &events[0] {
        Event::Staked(e) => {
            assert_eq!(e.staker, 1);
            assert_eq!(e.amount, 100);
            assert_eq!(e.timestamp, 5);
        }
        other => panic!("expected a stake event, got {:?}", other),
    }
    match &events[1] {
        Event::Unstaked(e) => {
            assert_eq!(e.staker, 1);
            assert_eq!(e.amount, 30);
            assert_eq!(e.reward_debt, 100);
            assert_eq!(e.timestamp, 15);
        }
        other => panic!("expected an unstake event, got {:?}", other),
    }
    match &events[2] {
        Event::RewardsClaimed(e) => {
            assert_eq!(e.staker, 1);
            assert_eq!(e.amount, 100);
            assert_eq!(e.timestamp, 15);
        }
        other => panic!("expected a claim event, got {:?}", other),
    }
    assert!(c.take_events().is_empty());
}

#[test]
fn accrual_with_empty_pool_only_advances_time() {
    let mut c = pool_contract();
    assert_eq!(c.accrue(1, 50), Ok(()));
    assert_eq!(c.stake(1, 100, 60), Ok(()));
    // no reward was emitted while the pool was empty
    assert_eq!(c.get_pending_rewards(1, 60), 0);
}

#[test]
fn failed_claim_commits_nothing() {
    // reward rate 0: a claim after elapsed time still finds no
    // entitlement, and the failed call must not even advance the
    // accrual timestamps
    let mut c = DevKitShowcase::new(9, 10, 1000, 0, 0);
    assert_eq!(c.stake(1, 100, 0), Ok(()));
    assert_eq!(c.claim_rewards(1, 10), Err(Error::NoRewards));
    assert_eq!(c.last_reward_update, 0);
    assert_eq!(c.get_staker_info(1).unwrap().last_update, 0);
    assert!(c.take_events().len() == 1); // only the stake event
}
