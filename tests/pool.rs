use staking::{AccountId, Error, Record, Staking, SCALE};

const OWNER: AccountId = [1u8; 32];
const ALICE: AccountId = [2u8; 32];
const BOB: AccountId = [3u8; 32];

fn funded_pool(duration: u128, amount: u128) -> Staking {
    let mut pool = Staking::new(OWNER, duration);
    assert_eq!(pool.update_reward_rate(OWNER, 0, amount, amount), Ok(()));
    pool
}

#[test]
fn new_pool_is_empty() {
    let pool = Staking::new(OWNER, 100);
    assert_eq!(pool.owner(), OWNER);
    assert_eq!(pool.duration(), 100);
    assert_eq!(pool.finish_at(), 0);
    assert_eq!(pool.updated_at(), 0);
    assert_eq!(pool.reward_rate(), 0);
    assert_eq!(pool.reward_per_token_stored(), 0);
    assert_eq!(pool.total_supply(), 0);
    assert_eq!(
        pool.record_of(&ALICE),
        Record { staked: 0, reward_per_token_paid: 0, pending_reward: 0 }
    );
    assert_eq!(pool.earned(ALICE, 50), 0);
}

#[test]
fn two_stakers_share_the_emission() {
    let mut pool = funded_pool(100, 1000);
    assert_eq!(pool.reward_rate(), 10);
    assert_eq!(pool.finish_at(), 100);
    assert_eq!(pool.stake(ALICE, 0, 50), Ok(()));
    assert_eq!(pool.stake(BOB, 50, 50), Ok(()));
    assert_eq!(pool.earned(ALICE, 100), 750);
    assert_eq!(pool.earned(BOB, 100), 250);
    assert_eq!(pool.get_reward(ALICE, 100), 750);
    assert_eq!(pool.get_reward(BOB, 100), 250);
    assert_eq!(pool.earned(ALICE, 100), 0);
    assert_eq!(pool.earned(BOB, 100), 0);
    // Nothing streams after the period has ended.
    assert_eq!(pool.earned(ALICE, 500), 0);
}

#[test]
fn index_formula_exact_value() {
    let mut pool = funded_pool(100, 1000);
    assert_eq!(pool.stake(ALICE, 0, 3), Ok(()));
    assert_eq!(pool.reward_per_token(1), 10 * SCALE / 3);
    assert_eq!(pool.reward_per_token(1), 3_333_333_333_333_333_333);
    assert_eq!(pool.earned(ALICE, 1), 9);
    assert_eq!(pool.earned(ALICE, 3), 30);
}

#[test]
fn last_time_reward_applicable_is_min() {
    let pool = funded_pool(100, 1000);
    assert_eq!(pool.last_time_reward_applicable(40), 40);
    assert_eq!(pool.last_time_reward_applicable(100), 100);
    assert_eq!(pool.last_time_reward_applicable(250), 100);
}

#[test]
fn index_never_decreases() {
    let mut pool = funded_pool(100, 1000);
    let mut last = pool.reward_per_token_stored();
    assert_eq!(pool.stake(ALICE, 5, 20), Ok(()));
    assert!(pool.reward_per_token_stored() >= last);
    last = pool.reward_per_token_stored();
    assert_eq!(pool.stake(BOB, 30, 7), Ok(()));
    assert!(pool.reward_per_token_stored() >= last);
    last = pool.reward_per_token_stored();
    assert_eq!(pool.withdraw(ALICE, 60, 20), Ok(()));
    assert!(pool.reward_per_token_stored() >= last);
    last = pool.reward_per_token_stored();
    pool.get_reward(BOB, 70);
    assert!(pool.reward_per_token_stored() >= last);
    last = pool.reward_per_token_stored();
    assert_eq!(pool.update_reward_rate(OWNER, 80, 500, 10_000), Ok(()));
    assert!(pool.reward_per_token_stored() >= last);
    last = pool.reward_per_token_stored();
    pool.update_reward(None, 200);
    assert!(pool.reward_per_token_stored() >= last);
    assert!(pool.reward_per_token_stored() > 0);
}

#[test]
fn sole_staker_earns_whole_emission() {
    let mut pool = funded_pool(100, 1000);
    assert_eq!(pool.stake(ALICE, 10, 7), Ok(()));
    let earned = pool.earned(ALICE, 70);
    let emitted = 10 * 60;
    assert!(earned <= emitted);
    assert!(emitted - earned <= 60);
    assert_eq!(earned, 599);
}

#[test]
fn index_stays_while_nothing_is_staked() {
    let mut pool = funded_pool(100, 1000);
    pool.update_reward(None, 30);
    assert_eq!(pool.reward_per_token_stored(), 0);
    pool.update_reward(Some(ALICE), 90);
    assert_eq!(pool.reward_per_token_stored(), 0);
    assert_eq!(pool.reward_per_token(99), 0);
    assert_eq!(pool.earned(ALICE, 99), 0);
}

#[test]
fn repeated_checkpoint_keeps_earned() {
    let mut pool = funded_pool(100, 1000);
    assert_eq!(pool.stake(ALICE, 0, 40), Ok(()));
    pool.update_reward(Some(ALICE), 25);
    let once = pool.earned(ALICE, 25);
    let after_once = pool.clone();
    pool.update_reward(Some(ALICE), 25);
    assert_eq!(pool.earned(ALICE, 25), once);
    assert_eq!(once, 250);
    assert_eq!(pool.record_of(&ALICE), after_once.record_of(&ALICE));
    assert_eq!(pool.reward_per_token_stored(), after_once.reward_per_token_stored());
}

#[test]
fn refund_rolls_unspent_reward_over() {
    let mut pool = funded_pool(100, 1000);
    assert_eq!(pool.stake(ALICE, 0, 10), Ok(()));
    let before = pool.earned(ALICE, 40);
    assert_eq!(pool.update_reward_rate(OWNER, 40, 600, 1600), Ok(()));
    // remaining = (100 - 40) * 10 = 600; rate = (600 + 600) / 100
    assert_eq!(pool.reward_rate(), 12);
    assert_eq!(pool.finish_at(), 140);
    assert_eq!(pool.updated_at(), 40);
    assert_eq!(pool.earned(ALICE, 40), before);
    assert_eq!(before, 400);
    assert_eq!(pool.earned(ALICE, 140), 400 + 1200);
}

#[test]
fn funding_after_period_ignores_old_rate() {
    let mut pool = funded_pool(100, 1000);
    assert_eq!(pool.update_reward_rate(OWNER, 150, 300, 300), Ok(()));
    assert_eq!(pool.reward_rate(), 3);
    assert_eq!(pool.finish_at(), 250);
}

#[test]
fn fund_rejects_insufficient_balance() {
    let mut pool = Staking::new(OWNER, 100);
    let before = pool.clone();
    assert_eq!(
        pool.update_reward_rate(OWNER, 0, 1000, 999),
        Err(Error::InsufficientRewardBalance)
    );
    assert_eq!(pool.reward_rate(), before.reward_rate());
    assert_eq!(pool.finish_at(), before.finish_at());
    // Exactly covered is accepted.
    assert_eq!(pool.update_reward_rate(OWNER, 0, 1000, 1000), Ok(()));
}

#[test]
fn fund_rejects_non_owner() {
    let mut pool = Staking::new(OWNER, 100);
    assert_eq!(pool.update_reward_rate(ALICE, 0, 1000, 1000), Err(Error::NotOwner));
    assert_eq!(pool.reward_rate(), 0);
}

#[test]
fn stake_rejects_zero() {
    let mut pool = funded_pool(100, 1000);
    assert_eq!(pool.stake(ALICE, 10, 0), Err(Error::AmountMustBePositive));
    assert_eq!(pool.total_supply(), 0);
    assert_eq!(pool.updated_at(), 0);
}

#[test]
fn withdraw_checks_amount() {
    let mut pool = funded_pool(100, 1000);
    assert_eq!(pool.stake(ALICE, 0, 20), Ok(()));
    assert_eq!(pool.withdraw(ALICE, 10, 0), Err(Error::AmountMustBePositive));
    assert_eq!(pool.withdraw(ALICE, 10, 21), Err(Error::InsufficientStake));
    assert_eq!(pool.withdraw(BOB, 10, 1), Err(Error::InsufficientStake));
    assert_eq!(pool.total_supply(), 20);
    assert_eq!(pool.withdraw(ALICE, 10, 15), Ok(()));
    assert_eq!(pool.total_supply(), 5);
    assert_eq!(pool.record_of(&ALICE).staked, 5);
    assert_eq!(pool.record_of(&ALICE).pending_reward, 100);
}

#[test]
fn duration_changes_only_when_idle() {
    let mut pool = funded_pool(100, 1000);
    assert_eq!(pool.set_rewards_duration(OWNER, 50, 20), Err(Error::PeriodStillActive));
    assert_eq!(pool.set_rewards_duration(ALICE, 150, 20), Err(Error::NotOwner));
    assert_eq!(pool.duration(), 100);
    assert_eq!(pool.set_rewards_duration(OWNER, 100, 20), Ok(()));
    assert_eq!(pool.duration(), 120);
}

#[test]
fn accounts_are_told_apart_by_every_byte() {
    let mut pool = funded_pool(100, 1000);
    let mut near = ALICE;
    near[31] = 9;
    assert_eq!(pool.stake(ALICE, 0, 10), Ok(()));
    assert_eq!(pool.stake(near, 0, 30), Ok(()));
    assert_eq!(pool.record_of(&ALICE).staked, 10);
    assert_eq!(pool.record_of(&near).staked, 30);
    assert_eq!(pool.earned(ALICE, 100), 250);
    assert_eq!(pool.earned(near, 100), 750);
}

#[test]
fn refused_transfer_undoes_the_operation() {
    let mut pool = funded_pool(100, 1000);
    let before = pool.clone();
    assert_eq!(pool.stake(ALICE, 10, 40), Ok(()));
    assert_eq!(pool.complete_transfer(before, false), Err(Error::TransferFailed));
    assert_eq!(pool.total_supply(), 0);
    assert_eq!(pool.updated_at(), 0);
    assert_eq!(pool.record_of(&ALICE).staked, 0);
    let before = pool.clone();
    assert_eq!(pool.stake(ALICE, 10, 40), Ok(()));
    assert_eq!(pool.complete_transfer(before, true), Ok(()));
    assert_eq!(pool.total_supply(), 40);
}

#[test]
fn fit_checks_detect_overflow() {
    let mut pool = funded_pool(100, 1000);
    assert!(pool.index_fits(50));
    assert!(pool.checkpoint_fits(Some(ALICE), 50));
    assert!(pool.fund_fits(500, 50));
    assert!(!pool.fund_fits(u128::MAX, 50));
    assert_eq!(pool.stake(ALICE, 0, 1), Ok(()));
    // A huge rate makes the index overflow once time passes.
    let mut big = Staking::new(OWNER, 1);
    assert_eq!(big.update_reward_rate(OWNER, 0, u128::MAX / 2, u128::MAX), Ok(()));
    assert_eq!(big.stake(ALICE, 0, 1), Ok(()));
    assert!(big.index_fits(0));
    assert!(!big.index_fits(1));
    assert!(!big.checkpoint_fits(None, 1));
    assert!(pool.checkpoint_fits(None, 1));
    pool.update_reward(None, 1);
}
