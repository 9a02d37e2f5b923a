//! How the initial supply of the staked asset is split between its creator and the pool.

use crate::types::{Balance, INITIAL_SUPPLY, STAKING_ALLOCATION};
use vstd::prelude::*;

verus! {

/// The part of the initial supply that is set aside for staking rewards.
pub open spec fn staking_share() -> int {
    INITIAL_SUPPLY * STAKING_ALLOCATION / 100
}

/// Splits the initial supply: first what goes to the creator of the token, then what goes to
/// the pool. Together they are the whole supply.
pub fn initial_distribution() -> (shares: (Balance, Balance))
    ensures
        shares.1 == staking_share(),
        shares.0 == INITIAL_SUPPLY - staking_share(),
        shares.0 == 300_000_000_000_000_000_000_000_000,
        shares.1 == 700_000_000_000_000_000_000_000_000,
{
    let staking_tokens: Balance = INITIAL_SUPPLY * STAKING_ALLOCATION / 100;
    (INITIAL_SUPPLY - staking_tokens, staking_tokens)
}

} // verus!
