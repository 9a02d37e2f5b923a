use staking_dapp::reputation::new_reputation;
use staking_dapp::types::REPUTATION_DURATION;
use staking_dapp::{AccountId, ReputationGrant, StakingContract, StakingError};

fn account(byte: u8) -> AccountId {
    AccountId::from([byte; 32])
}

#[test]
fn reputation_grows_with_stake_and_time() {
    let tokens = 10u128.pow(18);
    assert_eq!(new_reputation(5 * tokens, 0, 3 * REPUTATION_DURATION), Ok(15));
    assert_eq!(new_reputation(5 * tokens, 100, 100 + 3 * REPUTATION_DURATION + 86_399), Ok(15));
    assert_eq!(new_reputation(5 * tokens, 0, REPUTATION_DURATION - 1), Ok(0));
    assert_eq!(new_reputation(tokens - 1, 0, REPUTATION_DURATION), Ok(0));
    assert_eq!(new_reputation(3 * tokens / 2, 0, 3 * REPUTATION_DURATION), Ok(4));
    assert_eq!(new_reputation(0, 0, u64::MAX), Ok(0));
}

#[test]
fn reputation_reports_what_leaves_the_range() {
    assert_eq!(new_reputation(1, 10, 9), Err(StakingError::OverflowError));
    assert_eq!(
        new_reputation(u128::MAX, 0, 2 * REPUTATION_DURATION),
        Err(StakingError::OverflowError)
    );
    assert_eq!(
        new_reputation(u128::MAX, 0, REPUTATION_DURATION),
        Ok(u128::MAX / 10u128.pow(18))
    );
}

#[test]
fn claim_reputation_grants_and_restarts_the_clock() {
    let alice = account(0xa);
    let reputation = account(0x1);
    let tokens = 10u128.pow(18);
    let mut pool = StakingContract::new(account(0x7), reputation, 0);
    pool.stake(alice, 0, 5 * tokens, 5 * tokens, 5 * tokens).unwrap();
    assert_eq!(pool.reputation_last_update(alice), 0);

    let now = 3 * REPUTATION_DURATION + 10;
    assert_eq!(
        pool.claim_reputation(alice, now),
        Ok(ReputationGrant { token: reputation, to: alice, amount: 15 })
    );
    assert_eq!(pool.reputation_last_update(alice), now);
    // the ledger of stakes is not touched
    assert_eq!(pool.staking().last_update_time, 0);
    assert_eq!(pool.balance_of(alice), 5 * tokens);

    // less than a period later nothing is gained, and the clock restarts all the same
    assert_eq!(
        pool.claim_reputation(alice, now + REPUTATION_DURATION - 1),
        Ok(ReputationGrant { token: reputation, to: alice, amount: 0 })
    );
    assert_eq!(pool.reputation_last_update(alice), now + REPUTATION_DURATION - 1);
}

#[test]
fn claim_reputation_fails_when_time_runs_backwards() {
    let alice = account(0xa);
    let mut pool = StakingContract::new(account(0x7), account(0x1), 0);
    pool.claim_reputation(alice, 100).unwrap();
    assert_eq!(pool.claim_reputation(alice, 99), Err(StakingError::OverflowError));
    assert_eq!(pool.reputation_last_update(alice), 100);
    assert_eq!(pool.update_reputation(alice, 99), Err(StakingError::OverflowError));
}

#[test]
fn update_reputation_of_an_account_without_stake() {
    let bob = account(0xb);
    let reputation = account(0x1);
    let mut pool = StakingContract::new(account(0x7), reputation, 0);
    assert_eq!(
        pool.update_reputation(bob, 10 * REPUTATION_DURATION),
        Ok(ReputationGrant { token: reputation, to: bob, amount: 0 })
    );
    assert_eq!(pool.reputation_last_update(bob), 10 * REPUTATION_DURATION);
    assert_eq!(pool.reputation_last_update(account(0xc)), 0);
}
