//! The pool as a mathematical record: the ledger, and what is kept for reputation.

use crate::errors::StakingError;
use crate::ledger::Ledger;
use crate::reputation::{reputation_defined, reputation_gain};
use crate::types::{AccountId, Balance, Timestamp};
use vstd::prelude::*;

verus! {

/// An instruction to the reputation token: grant `amount` of reputation to `to`.
#[derive(Clone, Copy, Debug, PartialEq, Eq)]
pub struct ReputationGrant {
    pub token: AccountId,
    pub to: AccountId,
    pub amount: u128,
}

/// The state of a pool.
#[verifier::ext_equal]
pub struct Pool {
    /// The ledger of stakes and rewards.
    pub staking: Ledger,
    /// The token that records reputation.
    pub reputation_token: AccountId,
    /// For each account, when reputation was last granted to it.
    pub reputation_last_update: Map<AccountId, Timestamp>,
}

impl Pool {
    /// What holds of the pool at all times: the invariant of its ledger.
    pub open spec fn inv(self) -> bool {
        self.staking.inv()
    }

    /// The pool as it is created at `now`.
    pub open spec fn genesis(
        staking_token: AccountId,
        reputation_token: AccountId,
        now: Timestamp,
    ) -> Pool {
        Pool {
            staking: Ledger::genesis(staking_token, now),
            reputation_token,
            reputation_last_update: Map::empty(),
        }
    }

    /// The pool with another ledger.
    pub open spec fn with_ledger(self, staking: Ledger) -> Pool {
        Pool { staking, ..self }
    }

    /// When reputation was last granted to `account`; never counts as time zero.
    pub open spec fn reputation_updated_at(self, account: AccountId) -> Timestamp {
        if self.reputation_last_update.contains_key(account) {
            self.reputation_last_update[account]
        } else {
            0
        }
    }

    /// Granting `staker` the reputation it has gained since the last grant: the new pool and
    /// the grant that the reputation token has to carry out, or `OverflowError` where the gain
    /// cannot be worked out. Every grant, even of nothing, restarts the clock of the
    /// account.
    pub open spec fn update_reputation(self, staker: AccountId, now: Timestamp) -> Result<
        (Pool, ReputationGrant),
        StakingError,
    > {
        let balance = self.staking.balance_of(staker);
        let last_update = self.reputation_updated_at(staker);
        if !reputation_defined(balance, last_update, now) {
            Err(StakingError::OverflowError)
        } else {
            Ok(
                (
                    Pool {
                        reputation_last_update: self.reputation_last_update.insert(staker, now),
                        ..self
                    },
                    ReputationGrant {
                        token: self.reputation_token,
                        to: staker,
                        amount: reputation_gain(balance, last_update, now) as u128,
                    },
                ),
            )
        }
    }
}

/// One call of an operation of the pool, with what the host and the token said when it was
/// made.
pub enum Call {
    UpdateRewardRate { now: Timestamp },
    UpdateReward { account: AccountId, now: Timestamp },
    Stake {
        staker: AccountId,
        now: Timestamp,
        amount: Balance,
        allowance: Balance,
        token_balance: Balance,
    },
    Withdraw { staker: AccountId, now: Timestamp, amount: Balance },
    GetReward { staker: AccountId, now: Timestamp },
    Exit { staker: AccountId, now: Timestamp },
    ClaimReputation { caller: AccountId, now: Timestamp },
}

impl Call {
    /// The account that the call is made for; none where the call concerns the schedule
    /// alone.
    pub open spec fn account(self) -> Option<AccountId> {
        match self {
            Call::UpdateRewardRate { .. } => None,
            Call::UpdateReward { account, .. } => Some(account),
            Call::Stake { staker, .. } => Some(staker),
            Call::Withdraw { staker, .. } => Some(staker),
            Call::GetReward { staker, .. } => Some(staker),
            Call::Exit { staker, .. } => Some(staker),
            Call::ClaimReputation { caller, .. } => Some(caller),
        }
    }

    /// The time at which the call is made.
    pub open spec fn time(self) -> Timestamp {
        match self {
            Call::UpdateRewardRate { now } => now,
            Call::UpdateReward { now, .. } => now,
            Call::Stake { now, .. } => now,
            Call::Withdraw { now, .. } => now,
            Call::GetReward { now, .. } => now,
            Call::Exit { now, .. } => now,
            Call::ClaimReputation { now, .. } => now,
        }
    }
}

impl Pool {
    /// The pool with the ledger that an operation on the ledger has led to; the pool itself
    /// where the operation has failed.
    pub open spec fn with_outcome<A>(self, outcome: Result<(Ledger, A), StakingError>) -> Pool {
        match outcome {
            Ok((ledger, _)) => self.with_ledger(ledger),
            Err(_) => self,
        }
    }

    /// The pool after `call`: changed as the operation says where the call succeeds, and as
    /// it was where the call fails.
    pub open spec fn after(self, call: Call) -> Pool {
        match call {
            Call::UpdateRewardRate { now } => match self.staking.update_reward_rate(now) {
                Ok(ledger) => self.with_ledger(ledger),
                Err(_) => self,
            },
            Call::UpdateReward { account, now } => match self.staking.update_reward(
                account,
                now,
            ) {
                Ok(ledger) => self.with_ledger(ledger),
                Err(_) => self,
            },
            Call::Stake { staker, now, amount, allowance, token_balance } => self.with_outcome(
                self.staking.stake(staker, now, amount, allowance, token_balance),
            ),
            Call::Withdraw { staker, now, amount } => self.with_outcome(
                self.staking.withdraw(staker, now, amount),
            ),
            Call::GetReward { staker, now } => self.with_outcome(
                self.staking.get_reward(staker, now),
            ),
            Call::Exit { staker, now } => match self.staking.exit(staker, now) {
                Ok((ledger, _, _)) => self.with_ledger(ledger),
                Err(_) => self,
            },
            Call::ClaimReputation { caller, now } => match self.update_reputation(caller, now) {
                Ok((pool, _)) => pool,
                Err(_) => self,
            },
        }
    }

    /// The pool after a sequence of calls, made one after the other.
    pub open spec fn after_all(self, calls: Seq<Call>) -> Pool
        decreases calls.len(),
    {
        if calls.len() == 0 {
            self
        } else {
            self.after_all(calls.drop_last()).after(calls.last())
        }
    }
}

} // verus!
