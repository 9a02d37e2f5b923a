//! Reputation: a score that grows with the amount an account keeps staked and with the time
//! it keeps it there.

use crate::errors::StakingError;
use crate::types::{Balance, Timestamp, PRECISION, REPUTATION_DURATION};
use vstd::prelude::*;

verus! {

/// Whole reputation periods that lie between `last_update` and `now`.
pub open spec fn reputation_rate(last_update: Timestamp, now: Timestamp) -> int {
    (now - last_update) / (REPUTATION_DURATION as int)
}

/// Reputation that an account with `balance` staked has gained between `last_update` and
/// `now`.
pub open spec fn reputation_gain(balance: Balance, last_update: Timestamp, now: Timestamp) -> int {
    balance * reputation_rate(last_update, now) / (PRECISION as int)
}

/// Whether the gain can be worked out within the range of its type: time has not run
/// backwards, and the product is not too large.
pub open spec fn reputation_defined(
    balance: Balance,
    last_update: Timestamp,
    now: Timestamp,
) -> bool {
    &&& last_update <= now
    &&& balance * reputation_rate(last_update, now) <= u128::MAX
}

/// Works out the reputation gained between `last_update` and `now`.
///
/// Fails with `OverflowError`, and only then, where `reputation_defined` does not hold.
pub fn new_reputation(balance: Balance, last_update: Timestamp, now: Timestamp) -> (gain: Result<
    u128,
    StakingError,
>)
    ensures
        gain is Ok <==> reputation_defined(balance, last_update, now),
        gain matches Ok(value) ==> value == reputation_gain(balance, last_update, now),
        gain matches Err(e) ==> e == StakingError::OverflowError,
{
    let time_elapsed = match now.checked_sub(last_update) {
        Some(time_elapsed) => time_elapsed,
        None => {
            return Err(StakingError::OverflowError);
        },
    };
    let rate: u64 = time_elapsed / REPUTATION_DURATION;
    match balance.checked_mul(rate as u128) {
        Some(weighted) => Ok(weighted / PRECISION),
        None => Err(StakingError::OverflowError),
    }
}

} // verus!
