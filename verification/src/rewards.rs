//! The reward-per-token accumulator and the reward an account has earned, as arithmetic on
//! plain numbers.
//!
//! Every step is checked: a result that leaves the range of its type is reported as
//! `OverflowError`, never wrapped.

use crate::errors::StakingError;
use crate::types::{Balance, Timestamp, PRECISION};
use vstd::arithmetic::div_mod::{lemma_fundamental_div_mod, lemma_mod_pos_bound};
use vstd::prelude::*;

verus! {

/// The time up to which reward has accrued: `now`, but not later than the end of the epoch.
pub open spec fn applicable_time(now: Timestamp, period_finish: Timestamp) -> Timestamp {
    if now < period_finish {
        now
    } else {
        period_finish
    }
}

/// Reward emitted between `last_update_time` and `applicable`, scaled by `PRECISION`.
pub open spec fn scaled_reward(
    reward_rate: Balance,
    last_update_time: Timestamp,
    applicable: Timestamp,
) -> int {
    (applicable - last_update_time) * reward_rate * PRECISION
}

/// The accumulator rolled forward to `applicable`: what was stored, plus the reward emitted
/// since the last update per staked unit. An empty pool accrues nothing.
pub open spec fn reward_per_token_at(
    stored: Balance,
    reward_rate: Balance,
    last_update_time: Timestamp,
    applicable: Timestamp,
    total_staked: Balance,
) -> int {
    if total_staked == 0 {
        stored as int
    } else {
        stored + scaled_reward(reward_rate, last_update_time, applicable) / (total_staked as int)
    }
}

/// Whether the accumulator can be rolled forward within the range of `Balance`: the pool is
/// empty, or time has not run backwards and neither the scaled reward nor the new value of the
/// accumulator is too large.
pub open spec fn reward_per_token_defined(
    stored: Balance,
    reward_rate: Balance,
    last_update_time: Timestamp,
    applicable: Timestamp,
    total_staked: Balance,
) -> bool {
    total_staked == 0 || {
        &&& last_update_time <= applicable
        &&& scaled_reward(reward_rate, last_update_time, applicable) <= Balance::MAX
        &&& reward_per_token_at(stored, reward_rate, last_update_time, applicable, total_staked)
            <= Balance::MAX
    }
}

/// What an account is entitled to: its share of the reward accrued since the account last
/// settled, plus what it had earned by then and has not claimed.
pub open spec fn earned_at(
    balance: Balance,
    reward_per_token: int,
    reward_per_token_paid: Balance,
    rewards: Balance,
) -> int {
    balance * (reward_per_token - reward_per_token_paid) / (PRECISION as int) + rewards
}

/// Whether the entitlement can be worked out within the range of `Balance`: the account has
/// not settled at a higher value of the accumulator than the current one, and neither the
/// product nor the sum is too large.
pub open spec fn earned_defined(
    balance: Balance,
    reward_per_token: int,
    reward_per_token_paid: Balance,
    rewards: Balance,
) -> bool {
    &&& reward_per_token_paid <= reward_per_token
    &&& balance * (reward_per_token - reward_per_token_paid) <= Balance::MAX
    &&& earned_at(balance, reward_per_token, reward_per_token_paid, rewards) <= Balance::MAX
}

/// Rolling the accumulator forward never lowers it.
pub proof fn lemma_reward_per_token_grows(
    stored: Balance,
    reward_rate: Balance,
    last_update_time: Timestamp,
    applicable: Timestamp,
    total_staked: Balance,
)
    requires
        total_staked == 0 || last_update_time <= applicable,
    ensures
        stored <= reward_per_token_at(
            stored,
            reward_rate,
            last_update_time,
            applicable,
            total_staked,
        ),
{
    if total_staked != 0 {
        let scaled = scaled_reward(reward_rate, last_update_time, applicable);
        assert(0 <= scaled) by (nonlinear_arith)
            requires
                scaled == (applicable - last_update_time) * reward_rate * PRECISION,
                last_update_time <= applicable,
        ;
        assert(0 <= scaled / (total_staked as int)) by (nonlinear_arith)
            requires
                0 <= scaled,
                0 < total_staked,
        ;
    }
}

/// With no time gone by since the last update the accumulator stays where it is.
pub proof fn lemma_reward_per_token_at_rest(
    stored: Balance,
    reward_rate: Balance,
    at: Timestamp,
    total_staked: Balance,
)
    ensures
        reward_per_token_at(stored, reward_rate, at, at, total_staked) == stored,
        reward_per_token_defined(stored, reward_rate, at, at, total_staked),
{
    let scaled = scaled_reward(reward_rate, at, at);
    assert(scaled == 0) by (nonlinear_arith)
        requires
            scaled == (at - at) * reward_rate * PRECISION,
    ;
}

/// An account is never entitled to less than what it had earned when it last settled.
pub proof fn lemma_earned_at_least_rewards(
    balance: Balance,
    reward_per_token: int,
    reward_per_token_paid: Balance,
    rewards: Balance,
)
    requires
        reward_per_token_paid <= reward_per_token,
    ensures
        rewards <= earned_at(balance, reward_per_token, reward_per_token_paid, rewards),
{
    let gain = balance * (reward_per_token - reward_per_token_paid);
    assert(0 <= gain) by (nonlinear_arith)
        requires
            gain == balance * (reward_per_token - reward_per_token_paid),
            reward_per_token_paid <= reward_per_token,
    ;
}

/// An account that settled at the current value of the accumulator is entitled to what it
/// had earned by then, and no more.
pub proof fn lemma_earned_at_rest(balance: Balance, reward_per_token: Balance, rewards: Balance)
    ensures
        earned_at(balance, reward_per_token as int, reward_per_token, rewards) == rewards,
        earned_defined(balance, reward_per_token as int, reward_per_token, rewards),
{
    let gain = balance * (reward_per_token - reward_per_token);
    assert(gain == 0) by (nonlinear_arith)
        requires
            gain == balance * (reward_per_token - reward_per_token),
    ;
}

/// Where one account holds the whole stake, scaling the reward up, dividing it by the stake
/// and scaling the account's share down again loses less than one unit for every `PRECISION`
/// staked, and one more.
pub proof fn lemma_sole_share(stake: int, reward: int)
    requires
        0 < stake,
        0 <= reward,
    ensures
        reward - stake / (PRECISION as int) - 1 <= stake * (reward * PRECISION / stake) / (
        PRECISION as int) <= reward,
{
    let scaled = reward * PRECISION;
    let per_token = scaled / stake;
    lemma_fundamental_div_mod(scaled, stake);
    lemma_mod_pos_bound(scaled, stake);
    assert(scaled - stake < stake * per_token <= scaled);
}

/// The time up to which reward has accrued: `now`, but not later than the end of the epoch.
pub fn last_time_reward_applicable(now: Timestamp, period_finish: Timestamp) -> (applicable:
    Timestamp)
    ensures
        applicable == applicable_time(now, period_finish),
{
    if now < period_finish {
        now
    } else {
        period_finish
    }
}

/// Rolls the accumulator forward to `applicable`.
///
/// Returns the stored value for an empty pool. Fails with `OverflowError`, and only then,
/// where `reward_per_token_defined` does not hold.
pub fn reward_per_token(
    stored: Balance,
    reward_rate: Balance,
    last_update_time: Timestamp,
    applicable: Timestamp,
    total_staked: Balance,
) -> (per_token: Result<Balance, StakingError>)
    ensures
        per_token is Ok <==> reward_per_token_defined(
            stored,
            reward_rate,
            last_update_time,
            applicable,
            total_staked,
        ),
        per_token matches Ok(value) ==> value == reward_per_token_at(
            stored,
            reward_rate,
            last_update_time,
            applicable,
            total_staked,
        ),
        per_token matches Err(e) ==> e == StakingError::OverflowError,
{
    if total_staked == 0 {
        return Ok(stored);
    }
    let delta_time = match applicable.checked_sub(last_update_time) {
        Some(delta_time) => delta_time,
        None => {
            return Err(StakingError::OverflowError);
        },
    };
    let ghost scaled = scaled_reward(reward_rate, last_update_time, applicable);
    proof {
        assert(delta_time * reward_rate <= scaled) by (nonlinear_arith)
            requires
                scaled == delta_time * reward_rate * PRECISION,
                PRECISION >= 1,
        ;
    }
    let reward = match reward_rate.checked_mul(delta_time as u128) {
        Some(reward) => reward,
        None => {
            return Err(StakingError::OverflowError);
        },
    };
    assert(reward == delta_time * reward_rate) by (nonlinear_arith)
        requires
            reward == reward_rate * delta_time,
    ;
    let scaled_up = match reward.checked_mul(PRECISION) {
        Some(scaled_up) => scaled_up,
        None => {
            return Err(StakingError::OverflowError);
        },
    };
    match stored.checked_add(scaled_up / total_staked) {
        Some(value) => Ok(value),
        None => Err(StakingError::OverflowError),
    }
}

/// Works out what an account is entitled to.
///
/// Fails with `OverflowError`, and only then, where `earned_defined` does not hold.
pub fn earned(
    balance: Balance,
    reward_per_token: Balance,
    reward_per_token_paid: Balance,
    rewards: Balance,
) -> (entitlement: Result<Balance, StakingError>)
    ensures
        entitlement is Ok <==> earned_defined(
            balance,
            reward_per_token as int,
            reward_per_token_paid,
            rewards,
        ),
        entitlement matches Ok(value) ==> value == earned_at(
            balance,
            reward_per_token as int,
            reward_per_token_paid,
            rewards,
        ),
        entitlement matches Err(e) ==> e == StakingError::OverflowError,
{
    let gain_per_token = match reward_per_token.checked_sub(reward_per_token_paid) {
        Some(gain_per_token) => gain_per_token,
        None => {
            return Err(StakingError::OverflowError);
        },
    };
    let gain = match balance.checked_mul(gain_per_token) {
        Some(gain) => gain,
        None => {
            return Err(StakingError::OverflowError);
        },
    };
    match (gain / PRECISION).checked_add(rewards) {
        Some(value) => Ok(value),
        None => Err(StakingError::OverflowError),
    }
}

} // verus!
