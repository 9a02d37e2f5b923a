//! The pool ledger as it is held in memory.

use crate::ledger::Ledger;
use crate::mapping::Mapping;
use crate::types::{AccountId, Balance, Timestamp};
use vstd::prelude::*;

verus! {

/// The durable state of one pool: the global totals, the parameters of the reward schedule,
/// and what is recorded for each account. An account without an entry counts as zero.
pub struct Data {
    /// The token that is staked and that rewards are paid in.
    pub staking_token: AccountId,
    /// When the pool was created.
    pub period_start: Timestamp,
    /// When the current epoch ends.
    pub period_finish: Timestamp,
    /// Reward emitted per second during the current epoch.
    pub reward_rate: Balance,
    /// When the accumulator was last rolled forward.
    pub last_update_time: Timestamp,
    /// Reward emitted so far per staked unit, scaled by `PRECISION`.
    pub reward_per_token_stored: Balance,
    /// For each account, the value of the accumulator when the account last settled.
    pub user_reward_per_token_paid: Mapping<Balance>,
    /// For each account, what it had earned when it last settled and has not claimed.
    pub rewards: Mapping<Balance>,
    /// The sum of all staked amounts.
    pub total_staked: Balance,
    /// For each account, the amount it has staked.
    pub balances: Mapping<Balance>,
}

impl View for Data {
    type V = Ledger;

    open spec fn view(&self) -> Ledger {
        Ledger {
            staking_token: self.staking_token,
            period_start: self.period_start,
            period_finish: self.period_finish,
            reward_rate: self.reward_rate,
            last_update_time: self.last_update_time,
            reward_per_token_stored: self.reward_per_token_stored,
            user_reward_per_token_paid: self.user_reward_per_token_paid@,
            rewards: self.rewards@,
            total_staked: self.total_staked,
            balances: self.balances@,
        }
    }
}

impl Data {
    /// A copy of the ledger.
    pub fn snapshot(&self) -> (copy: Data)
        ensures
            copy@ == self@,
    {
        Data {
            staking_token: self.staking_token,
            period_start: self.period_start,
            period_finish: self.period_finish,
            reward_rate: self.reward_rate,
            last_update_time: self.last_update_time,
            reward_per_token_stored: self.reward_per_token_stored,
            user_reward_per_token_paid: self.user_reward_per_token_paid.snapshot(),
            rewards: self.rewards.snapshot(),
            total_staked: self.total_staked,
            balances: self.balances.snapshot(),
        }
    }
}

impl Default for Data {
    /// A ledger with every counter at zero, no account, and the all-zero identifier in place
    /// of the token.
    fn default() -> (data: Data)
        ensures
            data@.inv(),
            data@.staking_token.0@ == Seq::new(32, |i: int| 0u8),
            data@.period_start == 0,
            data@.period_finish == 0,
            data@.reward_rate == 0,
            data@.last_update_time == 0,
            data@.reward_per_token_stored == 0,
            data@.total_staked == 0,
            data@.user_reward_per_token_paid == Map::<AccountId, Balance>::empty(),
            data@.rewards == Map::<AccountId, Balance>::empty(),
            data@.balances == Map::<AccountId, Balance>::empty(),
    {
        proof {
            crate::totals::lemma_sum_of_empty();
        }
        Data {
            staking_token: AccountId::from([0u8; 32]),
            period_start: 0,
            period_finish: 0,
            reward_rate: 0,
            last_update_time: 0,
            reward_per_token_stored: 0,
            user_reward_per_token_paid: Mapping::new(),
            rewards: Mapping::new(),
            total_staked: 0,
            balances: Mapping::new(),
        }
    }
}

} // verus!
