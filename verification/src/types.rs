//! Primitive types and the constants of the reward schedule.

use vstd::prelude::*;
use vstd::std_specs::cmp::PartialEqSpecImpl;
use vstd::std_specs::convert::FromSpecImpl;

verus! {

/// An amount of the staked asset, in its smallest unit.
pub type Balance = u128;

/// A point in time as the host reports it.
pub type Timestamp = u64;

/// Length of one reward epoch.
pub const SECONDS_PER_YEAR: u64 = 31_536_000;

/// Percentage of the staking allocation that is released during the first epoch.
pub const INITIAL_REWARD_RATE: u128 = 50;

/// Percentage of the initial supply that is set aside for staking rewards.
pub const STAKING_ALLOCATION: u128 = 70;

/// Initial supply of the staked asset: one billion tokens of 18 decimals.
pub const INITIAL_SUPPLY: u128 = 1_000_000_000_000_000_000_000_000_000;

/// Time an account has to keep its stake to earn one unit of reputation rate.
pub const REPUTATION_DURATION: u64 = 86_400;

/// Fixed-point scale of the reward-per-token accumulator.
pub const PRECISION: u128 = 1_000_000_000_000_000_000;

/// Identifier of an account or of a collaborating contract: 32 opaque bytes.
#[derive(Clone, Copy, Debug, Eq, Hash)]
pub struct AccountId(pub [u8; 32]);

impl AccountId {
    /// The bytes of the identifier.
    pub fn to_bytes(&self) -> (bytes: [u8; 32])
        ensures
            bytes == self.0,
    {
        self.0
    }
}

impl From<[u8; 32]> for AccountId {
    fn from(bytes: [u8; 32]) -> (id: AccountId) {
        AccountId(bytes)
    }
}

impl FromSpecImpl<[u8; 32]> for AccountId {
    open spec fn obeys_from_spec() -> bool {
        true
    }

    open spec fn from_spec(bytes: [u8; 32]) -> AccountId {
        AccountId(bytes)
    }
}

impl PartialEq for AccountId {
    fn eq(&self, other: &AccountId) -> (same: bool) {
        let mut i: usize = 0;
        while i < 32
            invariant
                i <= 32,
                forall|j: int| 0 <= j < i ==> self.0@[j] == other.0@[j],
            decreases 32 - i,
        {
            if self.0[i] != other.0[i] {
                return false;
            }
            i += 1;
        }
        proof {
            assert(self.0 =~= other.0);
        }
        true
    }
}

impl PartialEqSpecImpl for AccountId {
    open spec fn obeys_eq_spec() -> bool {
        true
    }

    open spec fn eq_spec(&self, other: &AccountId) -> bool {
        *self == *other
    }
}

} // verus!
