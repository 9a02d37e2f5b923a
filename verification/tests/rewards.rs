use staking_dapp::rewards::{earned, last_time_reward_applicable, reward_per_token};
use staking_dapp::StakingError;

const RATE: u128 = 11098427194317605276;

#[test]
fn reward_stops_at_the_end_of_the_epoch() {
    assert_eq!(last_time_reward_applicable(5, 10), 5);
    assert_eq!(last_time_reward_applicable(10, 10), 10);
    assert_eq!(last_time_reward_applicable(11, 10), 10);
    assert_eq!(last_time_reward_applicable(0, 0), 0);
}

#[test]
fn reward_per_token_of_an_empty_pool_is_the_stored_value() {
    assert_eq!(reward_per_token(0, RATE, 0, 10, 0), Ok(0));
    assert_eq!(reward_per_token(1234, RATE, 0, 1_000_000, 0), Ok(1234));
    // not even time running backwards matters while nothing is staked
    assert_eq!(reward_per_token(77, RATE, 50, 10, 0), Ok(77));
    assert_eq!(reward_per_token(u128::MAX, u128::MAX, 0, u64::MAX, 0), Ok(u128::MAX));
}

#[test]
fn reward_per_token_follows_the_formula() {
    assert_eq!(
        reward_per_token(0, RATE, 0, 10, 1_000_000),
        Ok(110984271943176052760000000000000)
    );
    assert_eq!(
        reward_per_token(110984271943176052760000000000000, RATE, 10, 20, 1_500_000),
        Ok(184973786571960087933333333333333)
    );
    assert_eq!(reward_per_token(5, 3, 2, 4, 7), Ok(5 + 2 * 3 * 10u128.pow(18) / 7));
    assert_eq!(reward_per_token(5, 3, 4, 4, 7), Ok(5));
    assert_eq!(reward_per_token(5, 0, 1, 4, 7), Ok(5));
}

#[test]
fn reward_per_token_reports_what_leaves_the_range() {
    // time running backwards
    assert_eq!(reward_per_token(0, RATE, 11, 10, 1), Err(StakingError::OverflowError));
    // 30 seconds of the first year's rate can be scaled, 31 cannot
    assert!(reward_per_token(0, RATE, 0, 30, 1_000_000).is_ok());
    assert_eq!(reward_per_token(0, RATE, 0, 31, 1_000_000), Err(StakingError::OverflowError));
    // rate times time
    assert_eq!(reward_per_token(0, u128::MAX, 0, 2, 1), Err(StakingError::OverflowError));
    // the sum
    assert_eq!(
        reward_per_token(u128::MAX, 1, 0, 1, 10u128.pow(18)),
        Err(StakingError::OverflowError)
    );
    assert_eq!(reward_per_token(u128::MAX - 1, 1, 0, 1, 10u128.pow(18)), Ok(u128::MAX));
}

#[test]
fn earned_follows_the_formula() {
    assert_eq!(
        earned(1_000_000, 110984271943176052760000000000000, 0, 0),
        Ok(110984271943176052760)
    );
    assert_eq!(
        earned(
            500_000,
            184973786571960087933333333333333,
            110984271943176052760000000000000,
            0
        ),
        Ok(36994757314392017586)
    );
    assert_eq!(earned(3, 10u128.pow(18) * 5 + 1, 10u128.pow(18), 7), Ok(3 * 4 + 7));
    assert_eq!(earned(0, 123, 23, 9), Ok(9));
    assert_eq!(earned(10, 55, 55, 9), Ok(9));
}

#[test]
fn earned_reports_what_leaves_the_range() {
    // settled at a higher value than the current one
    assert_eq!(earned(1, 5, 6, 0), Err(StakingError::OverflowError));
    // the product
    assert_eq!(earned(u128::MAX, 2, 0, 0), Err(StakingError::OverflowError));
    // the sum
    assert_eq!(earned(10u128.pow(18), 1, 0, u128::MAX), Err(StakingError::OverflowError));
    assert_eq!(earned(10u128.pow(18), 1, 0, u128::MAX - 1), Ok(u128::MAX));
}
