use staking_dapp::types::SECONDS_PER_YEAR;
use staking_dapp::{AccountId, Deposit, Payout, StakingContract, StakingError};

const RATE: u128 = 11098427194317605276;

fn account(byte: u8) -> AccountId {
    AccountId::from([byte; 32])
}

fn token() -> AccountId {
    account(0x7)
}

fn fresh_pool() -> StakingContract {
    StakingContract::new(token(), account(0x1), 0)
}

#[test]
fn lib_instantiation_works() {
    let staking_token = account(0x7);
    let reputation_token = AccountId::from([0x1; 32]);

    let staking_contract = StakingContract::new(staking_token, reputation_token, 0);
    assert_eq!(staking_contract.total_supply(), 0);
    assert_eq!(staking_contract.staking().total_staked, 0);
    assert_eq!(staking_contract.staking().period_start, 0);
    assert_eq!(staking_contract.staking().period_finish, SECONDS_PER_YEAR);
    assert_eq!(staking_contract.staking().reward_rate, 0);
    assert_eq!(staking_contract.staking().reward_per_token_stored, 0);
    assert_eq!(staking_contract.staking().last_update_time, 0);
    assert_eq!(staking_contract.staking().staking_token, staking_token);
    assert_eq!(staking_contract.reputation_token(), reputation_token);
    assert_eq!(staking_contract.balance_of(account(0xb)), 0);
}

#[test]
fn instantiation_at_a_later_time() {
    let pool = StakingContract::new(token(), account(1), 1_700_000_000);
    assert_eq!(pool.staking().period_start, 1_700_000_000);
    assert_eq!(pool.staking().period_finish, 1_700_000_000 + SECONDS_PER_YEAR);
    assert_eq!(pool.staking().last_update_time, 0);
}

#[test]
fn stake_works() {
    let alice = account(0xa);
    let bob = account(0xb);
    let mut pool = fresh_pool();

    // Alice stakes without having allowed the pool to take anything
    assert_eq!(
        pool.stake(alice, 0, 1_000_000, 0, 1_000_000),
        Err(StakingError::InsufficientAllowance)
    );

    // Alice allows 1_000_000 and stakes them
    assert_eq!(
        pool.stake(alice, 0, 1_000_000, 1_000_000, 1_000_000),
        Ok(Deposit { token: token(), from: alice, amount: 1_000_000 })
    );
    assert_eq!(pool.total_supply(), 1_000_000);
    assert_eq!(pool.balance_of(alice), 1_000_000);

    // Bob stakes 500_000 with no time gone by
    assert_eq!(
        pool.stake(bob, 0, 500_000, 500_000, 500_000),
        Ok(Deposit { token: token(), from: bob, amount: 500_000 })
    );
    assert_eq!(pool.total_supply(), 1_500_000);
    assert_eq!(pool.balance_of(bob), 500_000);
    assert_eq!(pool.balance_of(alice), 1_000_000);
}

#[test]
fn stake_refreshes_the_ledger_first() {
    let alice = account(0xa);
    let bob = account(0xb);
    let mut pool = fresh_pool();
    pool.stake(alice, 0, 1_000_000, 1_000_000, 1_000_000).unwrap();
    assert_eq!(pool.staking().reward_rate, RATE);
    assert_eq!(pool.staking().reward_per_token_stored, 0);
    assert_eq!(pool.staking().rewards.get(&alice), Some(0));
    assert_eq!(pool.staking().user_reward_per_token_paid.get(&alice), Some(0));

    pool.stake(bob, 10, 500_000, 500_000, 500_000).unwrap();
    assert_eq!(pool.staking().last_update_time, 10);
    assert_eq!(pool.staking().reward_per_token_stored, 110984271943176052760000000000000);
    assert_eq!(pool.staking().rewards.get(&bob), Some(0));
    assert_eq!(
        pool.staking().user_reward_per_token_paid.get(&bob),
        Some(110984271943176052760000000000000)
    );
    // Alice was not refreshed
    assert_eq!(pool.staking().rewards.get(&alice), Some(0));
    assert_eq!(pool.staking().user_reward_per_token_paid.get(&alice), Some(0));
    assert_eq!(pool.earned(alice, 10), Ok(110984271943176052760));
    assert_eq!(pool.earned(bob, 10), Ok(0));
}

#[test]
fn stake_of_nothing_fails_and_changes_nothing() {
    let alice = account(0xa);
    let mut pool = fresh_pool();
    pool.stake(alice, 0, 1_000_000, 1_000_000, 1_000_000).unwrap();

    assert_eq!(pool.stake(alice, 20, 0, 5, 5), Err(StakingError::ZeroAmount));
    assert_eq!(pool.stake(alice, 20, 0, 0, 0), Err(StakingError::ZeroAmount));

    assert_eq!(pool.total_supply(), 1_000_000);
    assert_eq!(pool.balance_of(alice), 1_000_000);
    assert_eq!(pool.staking().last_update_time, 0);
    assert_eq!(pool.staking().reward_per_token_stored, 0);
    assert_eq!(pool.staking().reward_rate, RATE);
    assert_eq!(pool.staking().period_finish, SECONDS_PER_YEAR);
    assert_eq!(pool.staking().rewards.get(&alice), Some(0));
    assert_eq!(pool.staking().user_reward_per_token_paid.get(&alice), Some(0));
}

#[test]
fn stake_checks_allowance_before_balance() {
    let alice = account(0xa);
    let mut pool = fresh_pool();
    assert_eq!(pool.stake(alice, 0, 10, 9, 9), Err(StakingError::InsufficientAllowance));
    assert_eq!(pool.stake(alice, 0, 10, 10, 9), Err(StakingError::InsufficientBalance));
    assert_eq!(pool.stake(alice, 0, 10, 9, 10), Err(StakingError::InsufficientAllowance));
    assert_eq!(pool.total_supply(), 0);
    assert_eq!(pool.staking().reward_rate, 0);
    assert_eq!(pool.staking().rewards.get(&alice), None);
}

#[test]
fn stake_reports_overflow_and_changes_nothing() {
    let alice = account(0xa);
    let bob = account(0xb);
    let mut pool = fresh_pool();
    pool.stake(alice, 0, u128::MAX, u128::MAX, u128::MAX).unwrap();
    // the total would leave the range
    assert_eq!(pool.stake(bob, 0, 1, 1, 1), Err(StakingError::OverflowError));
    assert_eq!(pool.total_supply(), u128::MAX);
    assert_eq!(pool.balance_of(bob), 0);
    assert_eq!(pool.staking().rewards.get(&bob), None);

    // the refresh leaves the range: 31 seconds of reward cannot be scaled
    let mut pool = fresh_pool();
    pool.stake(alice, 0, 1_000_000, 1_000_000, 1_000_000).unwrap();
    assert_eq!(pool.stake(bob, 31, 1, 1, 1), Err(StakingError::OverflowError));
    assert_eq!(pool.staking().last_update_time, 0);
    assert_eq!(pool.total_supply(), 1_000_000);
    // time before the start of the pool
    let mut pool = StakingContract::new(token(), account(1), 100);
    assert_eq!(pool.stake(bob, 99, 1, 1, 1), Err(StakingError::OverflowError));
    assert_eq!(pool.total_supply(), 0);
}

#[test]
fn withdraw_works() {
    let alice = account(0xa);
    let mut pool = fresh_pool();

    // Alice tries to withdraw what she has not staked
    assert_eq!(pool.withdraw(alice, 0, 1_000_000), Err(StakingError::InsufficientBalance));

    pool.stake(alice, 0, 1_000_000, 1_000_000, 1_000_000).unwrap();
    assert_eq!(pool.total_supply(), 1_000_000);
    assert_eq!(pool.balance_of(alice), 1_000_000);

    assert_eq!(
        pool.withdraw(alice, 0, 500_000),
        Ok(Payout { token: token(), to: alice, amount: 500_000 })
    );
    assert_eq!(pool.total_supply(), 500_000);
    assert_eq!(pool.balance_of(alice), 500_000);
}

#[test]
fn withdraw_of_more_than_staked_fails_and_changes_nothing() {
    let alice = account(0xa);
    let bob = account(0xb);
    let mut pool = fresh_pool();
    pool.stake(alice, 0, 1_000_000, 1_000_000, 1_000_000).unwrap();
    pool.stake(bob, 0, 500_000, 500_000, 500_000).unwrap();

    assert_eq!(pool.withdraw(alice, 10, 1_000_001), Err(StakingError::InsufficientBalance));
    assert_eq!(pool.withdraw(bob, 10, 1_000_000), Err(StakingError::InsufficientBalance));
    assert_eq!(pool.withdraw(account(0xc), 10, 1), Err(StakingError::InsufficientBalance));
    assert_eq!(pool.withdraw(alice, 10, 0), Err(StakingError::ZeroAmount));

    assert_eq!(pool.total_supply(), 1_500_000);
    assert_eq!(pool.balance_of(alice), 1_000_000);
    assert_eq!(pool.balance_of(bob), 500_000);
    assert_eq!(pool.staking().last_update_time, 0);
    assert_eq!(pool.staking().reward_per_token_stored, 0);
    assert_eq!(pool.staking().rewards.get(&account(0xc)), None);
}

#[test]
fn withdraw_refreshes_and_keeps_what_was_earned() {
    let alice = account(0xa);
    let mut pool = fresh_pool();
    pool.stake(alice, 0, 1_000_000, 1_000_000, 1_000_000).unwrap();
    assert_eq!(
        pool.withdraw(alice, 10, 1_000_000),
        Ok(Payout { token: token(), to: alice, amount: 1_000_000 })
    );
    assert_eq!(pool.total_supply(), 0);
    assert_eq!(pool.balance_of(alice), 0);
    assert_eq!(pool.staking().balances.get(&alice), Some(0));
    assert_eq!(pool.staking().rewards.get(&alice), Some(110984271943176052760));
    assert_eq!(pool.staking().last_update_time, 10);
    // nothing accrues while nothing is staked
    assert_eq!(pool.earned(alice, 1_000), Ok(110984271943176052760));
    assert_eq!(
        pool.get_reward(alice, 1_000),
        Ok(Payout { token: token(), to: alice, amount: 110984271943176052760 })
    );
}

#[test]
fn withdraw_reports_overflow_and_changes_nothing() {
    let alice = account(0xa);
    let mut pool = fresh_pool();
    pool.stake(alice, 0, 1_000_000, 1_000_000, 1_000_000).unwrap();
    assert_eq!(pool.withdraw(alice, 31, 1), Err(StakingError::OverflowError));
    assert_eq!(pool.balance_of(alice), 1_000_000);
    assert_eq!(pool.staking().last_update_time, 0);
}

#[test]
fn rewards_distribution_works() {
    let alice = account(0xa);
    let amount = 100_000_000 * 10u128.pow(18);
    let mut pool = fresh_pool();
    pool.stake(alice, 0, amount, amount, amount).unwrap();

    // with no time gone by there is nothing to claim
    assert_eq!(pool.get_reward(alice, 0), Err(StakingError::NoStakingRewards));

    // ten seconds later
    assert_eq!(pool.earned(alice, 10), Ok(110984271943100000000));
    assert_eq!(
        pool.get_reward(alice, 10),
        Ok(Payout { token: token(), to: alice, amount: 110984271943100000000 })
    );
    assert_eq!(pool.staking().rewards.get(&alice), Some(0));
    assert_eq!(pool.earned(alice, 10), Ok(0));
    assert_eq!(pool.balance_of(alice), amount);
    assert_eq!(pool.total_supply(), amount);
}

#[test]
fn rewards_are_shared_by_stake() {
    let alice = account(0xa);
    let bob = account(0xb);
    let mut pool = fresh_pool();
    pool.stake(alice, 0, 1_000_000, 1_000_000, 1_000_000).unwrap();
    pool.stake(bob, 10, 500_000, 500_000, 500_000).unwrap();

    assert_eq!(pool.reward_per_token(20), Ok(184973786571960087933333333333333));
    assert_eq!(pool.earned(alice, 20), Ok(184973786571960087933));
    assert_eq!(pool.earned(bob, 20), Ok(36994757314392017586));
    // asking does not change anything
    assert_eq!(pool.staking().reward_per_token_stored, 110984271943176052760000000000000);
    assert_eq!(pool.staking().last_update_time, 10);

    assert_eq!(
        pool.get_reward(alice, 20),
        Ok(Payout { token: token(), to: alice, amount: 184973786571960087933 })
    );
    assert_eq!(pool.staking().reward_per_token_stored, 184973786571960087933333333333333);
    assert_eq!(pool.earned(bob, 20), Ok(36994757314392017586));
    assert_eq!(
        pool.get_reward(bob, 20),
        Ok(Payout { token: token(), to: bob, amount: 36994757314392017586 })
    );
}

#[test]
fn second_claim_in_a_row_finds_nothing() {
    let alice = account(0xa);
    let mut pool = fresh_pool();
    pool.stake(alice, 0, 1_000_000, 1_000_000, 1_000_000).unwrap();

    let first = pool.get_reward(alice, 10).unwrap();
    assert!(first.amount > 0);
    assert_eq!(first.amount, 110984271943176052760);
    assert_eq!(pool.get_reward(alice, 10), Err(StakingError::NoStakingRewards));
    assert_eq!(pool.staking().rewards.get(&alice), Some(0));
    assert_eq!(pool.staking().last_update_time, 10);
}

#[test]
fn claim_without_stake_fails_and_changes_nothing() {
    let alice = account(0xa);
    let mut pool = fresh_pool();
    assert_eq!(pool.get_reward(alice, 5), Err(StakingError::NoStakingRewards));
    assert_eq!(pool.staking().reward_rate, 0);
    assert_eq!(pool.staking().last_update_time, 0);
    assert_eq!(pool.staking().rewards.get(&alice), None);
    assert_eq!(pool.staking().user_reward_per_token_paid.get(&alice), None);
}

#[test]
fn claim_reports_overflow_before_it_looks_at_the_rewards() {
    let alice = account(0xa);
    let mut pool = fresh_pool();
    pool.stake(alice, 0, 1_000_000, 1_000_000, 1_000_000).unwrap();
    assert_eq!(pool.get_reward(alice, 31), Err(StakingError::OverflowError));
    assert_eq!(pool.get_reward(account(0xc), 31), Err(StakingError::OverflowError));
}

#[test]
fn sole_staker_earns_the_emission() {
    let alice = account(0xa);
    let mut pool = fresh_pool();
    pool.stake(alice, 0, 1_000_000, 1_000_000, 1_000_000).unwrap();
    assert_eq!(pool.earned(alice, 0), Ok(0));
    assert_eq!(pool.earned(alice, 1), Ok(RATE));
    assert_eq!(pool.earned(alice, 7), Ok(7 * RATE));
    assert_eq!(pool.earned(alice, 30), Ok(30 * RATE));
    assert_eq!(pool.earned(alice, 31), Err(StakingError::OverflowError));
}

#[test]
fn sole_staker_with_a_stake_that_does_not_divide_the_reward() {
    let alice = account(0xa);
    let mut pool = fresh_pool();
    pool.stake(alice, 0, 7, 7, 7).unwrap();
    // 3 * RATE * 10^18 / 7 is rounded down, and so is the share
    let per_token = 3 * RATE * 10u128.pow(18) / 7;
    assert_eq!(pool.reward_per_token(3), Ok(per_token));
    assert_eq!(pool.earned(alice, 3), Ok(7 * per_token / 10u128.pow(18)));
    assert_eq!(pool.earned(alice, 3), Ok(3 * RATE - 1));
}

#[test]
fn exit_pays_out_stake_and_reward() {
    let alice = account(0xa);
    let bob = account(0xb);
    let mut pool = fresh_pool();
    pool.stake(alice, 0, 1_000_000, 1_000_000, 1_000_000).unwrap();
    pool.stake(bob, 10, 500_000, 500_000, 500_000).unwrap();

    assert_eq!(
        pool.exit(alice, 20),
        Ok((
            Payout { token: token(), to: alice, amount: 1_000_000 },
            Payout { token: token(), to: alice, amount: 184973786571960087933 },
        ))
    );
    assert_eq!(pool.balance_of(alice), 0);
    assert_eq!(pool.staking().rewards.get(&alice), Some(0));
    assert_eq!(pool.total_supply(), 500_000);
    assert_eq!(pool.balance_of(bob), 500_000);
    assert_eq!(pool.staking().last_update_time, 20);
    assert_eq!(pool.earned(bob, 20), Ok(36994757314392017586));
}

#[test]
fn exit_fails_as_its_parts_do_and_changes_nothing() {
    let alice = account(0xa);
    let mut pool = fresh_pool();
    // nothing staked: the withdrawal fails
    assert_eq!(pool.exit(alice, 0), Err(StakingError::ZeroAmount));

    pool.stake(alice, 0, 1_000_000, 1_000_000, 1_000_000).unwrap();
    // nothing earned yet: the claim fails, and the withdrawal is not kept
    assert_eq!(pool.exit(alice, 0), Err(StakingError::NoStakingRewards));
    assert_eq!(pool.balance_of(alice), 1_000_000);
    assert_eq!(pool.total_supply(), 1_000_000);
    // the refresh leaves the range
    assert_eq!(pool.exit(alice, 31), Err(StakingError::OverflowError));
    assert_eq!(pool.balance_of(alice), 1_000_000);
    assert_eq!(pool.staking().last_update_time, 0);
}

#[test]
fn update_reward_settles_one_account() {
    let alice = account(0xa);
    let bob = account(0xb);
    let mut pool = fresh_pool();
    pool.stake(alice, 0, 1_000_000, 1_000_000, 1_000_000).unwrap();
    pool.stake(bob, 0, 500_000, 500_000, 500_000).unwrap();

    pool.update_reward(alice, 12).unwrap();
    assert_eq!(pool.staking().reward_per_token_stored, 88787417554540842208000000000000);
    assert_eq!(pool.staking().last_update_time, 12);
    assert_eq!(pool.staking().rewards.get(&alice), Some(88787417554540842208));
    assert_eq!(
        pool.staking().user_reward_per_token_paid.get(&alice),
        Some(88787417554540842208000000000000)
    );
    assert_eq!(pool.staking().rewards.get(&bob), Some(0));
    assert_eq!(pool.staking().user_reward_per_token_paid.get(&bob), Some(0));
    assert_eq!(pool.earned(bob, 12), Ok(44393708777270421104));
    assert_eq!(pool.total_supply(), 1_500_000);

    // once more at the same time: nothing moves
    pool.update_reward(alice, 12).unwrap();
    assert_eq!(pool.staking().reward_per_token_stored, 88787417554540842208000000000000);
    assert_eq!(pool.staking().rewards.get(&alice), Some(88787417554540842208));

    assert_eq!(pool.update_reward(alice, 11), Err(StakingError::OverflowError));
    assert_eq!(pool.staking().last_update_time, 12);
}

#[test]
fn reward_per_token_of_an_empty_pool_is_unchanged() {
    let alice = account(0xa);
    let mut pool = fresh_pool();
    assert_eq!(pool.reward_per_token(0), Ok(0));
    assert_eq!(pool.reward_per_token(1_000_000), Ok(0));

    pool.stake(alice, 0, 1_000_000, 1_000_000, 1_000_000).unwrap();
    pool.withdraw(alice, 10, 1_000_000).unwrap();
    assert_eq!(pool.total_supply(), 0);
    assert_eq!(pool.reward_per_token(10), Ok(110984271943176052760000000000000));
    assert_eq!(pool.reward_per_token(5_000), Ok(110984271943176052760000000000000));
    assert_eq!(pool.reward_per_token(3), Ok(110984271943176052760000000000000));
}

#[test]
fn accumulator_never_decreases() {
    let alice = account(0xa);
    let bob = account(0xb);
    let mut pool = fresh_pool();
    let mut last = pool.staking().reward_per_token_stored;
    let mut step = |pool: &StakingContract| {
        let stored = pool.staking().reward_per_token_stored;
        assert!(stored >= last);
        last = stored;
    };
    pool.stake(alice, 0, 1_000, 1_000, 1_000).unwrap();
    step(&pool);
    pool.stake(bob, 5, 3_000, 3_000, 3_000).unwrap();
    step(&pool);
    let _ = pool.withdraw(alice, 5, 5_000);
    step(&pool);
    pool.withdraw(alice, 9, 1_000).unwrap();
    step(&pool);
    pool.get_reward(alice, 12).unwrap();
    step(&pool);
    let _ = pool.get_reward(alice, 12);
    step(&pool);
    pool.exit(bob, 20).unwrap();
    step(&pool);
    pool.update_reward(alice, SECONDS_PER_YEAR).unwrap();
    step(&pool);
    assert_eq!(pool.total_supply(), 0);
}

#[test]
fn total_is_the_sum_of_the_balances() {
    let accounts = [account(1), account(2), account(3)];
    let mut pool = fresh_pool();
    pool.stake(accounts[0], 0, 10, 10, 10).unwrap();
    pool.stake(accounts[1], 1, 20, 20, 20).unwrap();
    pool.stake(accounts[2], 2, 30, 30, 30).unwrap();
    pool.withdraw(accounts[1], 3, 5).unwrap();
    pool.stake(accounts[0], 4, 1, 1, 1).unwrap();
    let _ = pool.withdraw(accounts[2], 5, 31);
    pool.exit(accounts[2], 6).unwrap();
    let sum: u128 = accounts.iter().map(|a| pool.balance_of(*a)).sum();
    assert_eq!(pool.total_supply(), sum);
    assert_eq!(pool.total_supply(), 11 + 15);
}

#[test]
fn rate_of_the_second_year_applies_after_the_boundary() {
    let alice = account(0xa);
    let mut pool = fresh_pool();
    pool.stake(alice, SECONDS_PER_YEAR - 5, 1_000_000, 1_000_000, 1_000_000).unwrap();
    assert_eq!(pool.staking().period_finish, SECONDS_PER_YEAR);
    // reward stops at the end of the epoch until the schedule is worked out again
    assert_eq!(pool.earned(alice, SECONDS_PER_YEAR + 5), Ok(5 * RATE));
    pool.update_reward(alice, SECONDS_PER_YEAR + 5).unwrap();
    assert_eq!(pool.staking().period_finish, 2 * SECONDS_PER_YEAR);
    assert_eq!(pool.staking().reward_rate, 5549213597158802638);
    // the refresh applies the new rate to all the time since the last update
    assert_eq!(pool.staking().rewards.get(&alice), Some(10 * 5549213597158802638));
}

#[test]
fn a_call_for_one_account_leaves_the_others_alone() {
    let alice = account(0xa);
    let bob = account(0xb);
    let mut pool = fresh_pool();
    pool.stake(alice, 0, 1_000_000, 1_000_000, 1_000_000).unwrap();
    pool.stake(bob, 10, 500_000, 500_000, 500_000).unwrap();

    let entitled = pool.earned(bob, 20).unwrap();
    let rewards = pool.staking().rewards.get(&bob);
    let paid = pool.staking().user_reward_per_token_paid.get(&bob);
    pool.stake(alice, 20, 7, 7, 7).unwrap();
    pool.withdraw(alice, 20, 1_000).unwrap();
    pool.get_reward(alice, 20).unwrap();
    assert_eq!(pool.earned(bob, 20), Ok(entitled));
    assert_eq!(pool.balance_of(bob), 500_000);
    assert_eq!(pool.staking().rewards.get(&bob), rewards);
    assert_eq!(pool.staking().user_reward_per_token_paid.get(&bob), paid);
}

#[test]
fn the_emission_halves_every_year() {
    let mut pool = fresh_pool();
    let mut rates = Vec::new();
    for year in 0..8u64 {
        pool.update_reward_rate(year * SECONDS_PER_YEAR).unwrap();
        rates.push(pool.staking().reward_rate);
    }
    assert_eq!(
        rates,
        vec![
            11098427194317605276,
            5549213597158802638,
            2663622526636225266,
            1331811263318112633,
            665905631659056316,
            221968543886352105,
            0,
            0
        ]
    );
}

#[test]
fn rewards_paid_never_exceed_emission() {
    let alice = account(0xa);
    let bob = account(0xb);
    let carol = account(0xc);
    let mut pool = fresh_pool();
    let mut paid: u128 = 0;
    let mut emitted: u128 = 0;
    let mut last_update = 0u64;
    // every successful call refreshes the ledger at its time
    let mut refreshed_at = |pool: &StakingContract, total_before: u128, now: u64| {
        if total_before > 0 {
            emitted += (now - last_update) as u128 * pool.staking().reward_rate;
        }
        last_update = now;
    };

    let total = pool.total_supply();
    pool.stake(alice, 0, 3, 3, 3).unwrap();
    refreshed_at(&pool, total, 0);
    let total = pool.total_supply();
    pool.stake(bob, 4, 7, 7, 7).unwrap();
    refreshed_at(&pool, total, 4);
    let total = pool.total_supply();
    paid += pool.get_reward(alice, 9).unwrap().amount;
    refreshed_at(&pool, total, 9);
    let total = pool.total_supply();
    pool.stake(carol, 11, 1_000_003, 1_000_003, 1_000_003).unwrap();
    refreshed_at(&pool, total, 11);
    let total = pool.total_supply();
    paid += pool.exit(bob, 20).unwrap().1.amount;
    refreshed_at(&pool, total, 20);
    let total = pool.total_supply();
    pool.withdraw(carol, 21, 1_000_000).unwrap();
    refreshed_at(&pool, total, 21);
    let total = pool.total_supply();
    paid += pool.get_reward(alice, 30).unwrap().amount;
    refreshed_at(&pool, total, 30);
    let total = pool.total_supply();
    paid += pool.exit(carol, 30).unwrap().1.amount;
    refreshed_at(&pool, total, 30);
    let total = pool.total_supply();
    paid += pool.exit(alice, 31).unwrap().1.amount;
    refreshed_at(&pool, total, 31);

    assert_eq!(pool.total_supply(), 0);
    assert_eq!(emitted, 31 * RATE);
    assert!(paid <= emitted);
    // rounding keeps back less than one unit per account and refresh
    assert!(emitted - paid < 20);
}
