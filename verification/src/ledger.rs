//! The pool ledger as a mathematical record, and what each operation of the pool makes of it.
//!
//! Every operation that changes a balance or an entitlement first refreshes the ledger: it
//! works out the current epoch, rolls the accumulator forward, and settles the account that
//! the operation is for. An operation that fails leaves the ledger as it was.

use crate::errors::StakingError;
use crate::rewards::{
    applicable_time, earned_at, earned_defined, lemma_earned_at_least_rewards,
    lemma_earned_at_rest, lemma_reward_per_token_at_rest, lemma_reward_per_token_grows,
    reward_per_token_at, reward_per_token_defined,
};
use crate::schedule::{
    epoch_end, lemma_epoch_end_after_now, lemma_yearly_reward_rate_bound, schedule_defined,
    yearly_reward_rate, years_elapsed,
};
use crate::totals::{amount_of, lemma_amount_at_most_sum, lemma_sum_of_insert, sum_of};
use crate::types::{AccountId, Balance, Timestamp, SECONDS_PER_YEAR};
use vstd::prelude::*;

verus! {

/// An instruction to the token of the staked asset: move `amount` from `from` to the pool,
/// out of what `from` has allowed the pool to take.
#[derive(Clone, Copy, Debug, PartialEq, Eq)]
pub struct Deposit {
    pub token: AccountId,
    pub from: AccountId,
    pub amount: Balance,
}

/// An instruction to the token of the staked asset: move `amount` from the pool to `to`.
#[derive(Clone, Copy, Debug, PartialEq, Eq)]
pub struct Payout {
    pub token: AccountId,
    pub to: AccountId,
    pub amount: Balance,
}

/// The state of the pool's ledger.
#[verifier::ext_equal]
pub struct Ledger {
    /// The token that is staked and that rewards are paid in.
    pub staking_token: AccountId,
    /// When the pool was created.
    pub period_start: Timestamp,
    /// When the current epoch ends.
    pub period_finish: Timestamp,
    /// Reward emitted per second during the current epoch.
    pub reward_rate: Balance,
    /// When the accumulator was last rolled forward.
    pub last_update_time: Timestamp,
    /// Reward emitted so far per staked unit, scaled by `PRECISION`.
    pub reward_per_token_stored: Balance,
    /// For each account, the value of the accumulator when the account last settled.
    pub user_reward_per_token_paid: Map<AccountId, Balance>,
    /// For each account, what it had earned when it last settled and has not claimed.
    pub rewards: Map<AccountId, Balance>,
    /// The sum of all staked amounts.
    pub total_staked: Balance,
    /// For each account, the amount it has staked.
    pub balances: Map<AccountId, Balance>,
}

impl Ledger {
    /// What holds of the ledger at all times: it knows finitely many accounts, the total is
    /// the sum of the balances, the epoch does not end before the pool started, and no
    /// account has settled at a higher value of the accumulator than the stored one.
    pub open spec fn inv(self) -> bool {
        &&& self.balances.dom().finite()
        &&& self.rewards.dom().finite()
        &&& self.user_reward_per_token_paid.dom().finite()
        &&& self.total_staked == sum_of(self.balances)
        &&& self.period_start <= self.period_finish
        &&& forall|account: AccountId| #[trigger]
            self.user_reward_per_token_paid.contains_key(account)
                ==> self.user_reward_per_token_paid[account] <= self.reward_per_token_stored
    }

    /// The ledger of a pool created at `now`: nothing staked, nothing accrued, and a first
    /// epoch of one year.
    pub open spec fn genesis(staking_token: AccountId, now: Timestamp) -> Ledger {
        Ledger {
            staking_token,
            period_start: now,
            period_finish: (now + SECONDS_PER_YEAR) as Timestamp,
            reward_rate: 0,
            last_update_time: 0,
            reward_per_token_stored: 0,
            user_reward_per_token_paid: Map::empty(),
            rewards: Map::empty(),
            total_staked: 0,
            balances: Map::empty(),
        }
    }

    /// The amount that `account` has staked.
    pub open spec fn balance_of(self, account: AccountId) -> Balance {
        amount_of(self.balances, account)
    }

    /// What `account` had earned when it last settled and has not claimed.
    pub open spec fn rewards_of(self, account: AccountId) -> Balance {
        amount_of(self.rewards, account)
    }

    /// The value of the accumulator when `account` last settled.
    pub open spec fn paid_of(self, account: AccountId) -> Balance {
        amount_of(self.user_reward_per_token_paid, account)
    }

    /// The time up to which reward has accrued at `now`.
    pub open spec fn last_time_reward_applicable(self, now: Timestamp) -> Timestamp {
        applicable_time(now, self.period_finish)
    }

    /// The accumulator as it stands at `now`.
    pub open spec fn reward_per_token(self, now: Timestamp) -> int {
        reward_per_token_at(
            self.reward_per_token_stored,
            self.reward_rate,
            self.last_update_time,
            self.last_time_reward_applicable(now),
            self.total_staked,
        )
    }

    /// Whether the accumulator at `now` lies within the range of `Balance`.
    pub open spec fn reward_per_token_defined(self, now: Timestamp) -> bool {
        reward_per_token_defined(
            self.reward_per_token_stored,
            self.reward_rate,
            self.last_update_time,
            self.last_time_reward_applicable(now),
            self.total_staked,
        )
    }

    /// What `account` is entitled to at `now`.
    pub open spec fn earned(self, account: AccountId, now: Timestamp) -> int {
        earned_at(
            self.balance_of(account),
            self.reward_per_token(now),
            self.paid_of(account),
            self.rewards_of(account),
        )
    }

    /// Whether the entitlement of `account` at `now` can be worked out within the range of
    /// `Balance`.
    pub open spec fn earned_defined(self, account: AccountId, now: Timestamp) -> bool {
        &&& self.reward_per_token_defined(now)
        &&& earned_defined(
            self.balance_of(account),
            self.reward_per_token(now),
            self.paid_of(account),
            self.rewards_of(account),
        )
    }

    /// The ledger with the epoch and the rate that hold at `now`.
    pub open spec fn rescheduled(self, now: Timestamp) -> Ledger {
        Ledger {
            period_finish: epoch_end(self.period_start, now) as Timestamp,
            reward_rate: yearly_reward_rate(years_elapsed(self.period_start, now) as nat) as Balance,
            ..self
        }
    }

    /// The ledger with the accumulator rolled forward to `now`.
    pub open spec fn accumulated(self, now: Timestamp) -> Ledger {
        Ledger {
            reward_per_token_stored: self.reward_per_token(now) as Balance,
            last_update_time: self.last_time_reward_applicable(now),
            ..self
        }
    }

    /// The ledger with `account` settled at `now`: what it is entitled to is written down as
    /// earned, and the account is marked as having seen the stored value of the accumulator.
    pub open spec fn settled(self, account: AccountId, now: Timestamp) -> Ledger {
        Ledger {
            rewards: self.rewards.insert(account, self.earned(account, now) as Balance),
            user_reward_per_token_paid: self.user_reward_per_token_paid.insert(
                account,
                self.reward_per_token_stored,
            ),
            ..self
        }
    }

    /// The ledger refreshed for `account` at `now`: rescheduled, then accumulated, then
    /// settled.
    pub open spec fn refreshed(self, account: AccountId, now: Timestamp) -> Ledger {
        self.rescheduled(now).accumulated(now).settled(account, now)
    }

    /// Whether every step of the refresh stays within the range of its type.
    pub open spec fn refresh_defined(self, account: AccountId, now: Timestamp) -> bool {
        &&& schedule_defined(self.period_start, now)
        &&& self.rescheduled(now).reward_per_token_defined(now)
        &&& self.rescheduled(now).accumulated(now).earned_defined(account, now)
    }

    /// The ledger with `amount` more staked by `account`.
    pub open spec fn credited(self, account: AccountId, amount: Balance) -> Ledger {
        Ledger {
            balances: self.balances.insert(
                account,
                (self.balance_of(account) + amount) as Balance,
            ),
            total_staked: (self.total_staked + amount) as Balance,
            ..self
        }
    }

    /// The ledger with `amount` less staked by `account`.
    pub open spec fn debited(self, account: AccountId, amount: Balance) -> Ledger {
        Ledger {
            balances: self.balances.insert(
                account,
                (self.balance_of(account) - amount) as Balance,
            ),
            total_staked: (self.total_staked - amount) as Balance,
            ..self
        }
    }

    /// The ledger with nothing left to claim for `account`.
    pub open spec fn claimed(self, account: AccountId) -> Ledger {
        Ledger { rewards: self.rewards.insert(account, 0), ..self }
    }

    /// The ledger with neither stake nor unclaimed reward left for `account`.
    pub open spec fn cleared(self, account: AccountId) -> Ledger {
        Ledger {
            balances: self.balances.insert(account, 0),
            rewards: self.rewards.insert(account, 0),
            ..self
        }
    }

    /// Refreshing the ledger by itself: the new ledger, or `OverflowError` where a step leaves
    /// the range of its type.
    pub open spec fn update_reward(self, account: AccountId, now: Timestamp) -> Result<
        Ledger,
        StakingError,
    > {
        if self.refresh_defined(account, now) {
            Ok(self.refreshed(account, now))
        } else {
            Err(StakingError::OverflowError)
        }
    }

    /// Working out the epoch by itself: the new ledger, or `OverflowError` where the epoch
    /// cannot be expressed.
    pub open spec fn update_reward_rate(self, now: Timestamp) -> Result<Ledger, StakingError> {
        if schedule_defined(self.period_start, now) {
            Ok(self.rescheduled(now))
        } else {
            Err(StakingError::OverflowError)
        }
    }

    /// Staking `amount` for `staker`, who has allowed the pool to take `allowance` of the
    /// staked asset and owns `token_balance` of it: the new ledger and the deposit that the
    /// token has to carry out, or why nothing is staked.
    pub open spec fn stake(
        self,
        staker: AccountId,
        now: Timestamp,
        amount: Balance,
        allowance: Balance,
        token_balance: Balance,
    ) -> Result<(Ledger, Deposit), StakingError> {
        if amount == 0 {
            Err(StakingError::ZeroAmount)
        } else if allowance < amount {
            Err(StakingError::InsufficientAllowance)
        } else if token_balance < amount {
            Err(StakingError::InsufficientBalance)
        } else if !self.refresh_defined(staker, now) {
            Err(StakingError::OverflowError)
        } else if self.total_staked + amount > Balance::MAX {
            Err(StakingError::OverflowError)
        } else {
            Ok(
                (
                    self.refreshed(staker, now).credited(staker, amount),
                    Deposit { token: self.staking_token, from: staker, amount },
                ),
            )
        }
    }

    /// Withdrawing `amount` of what `staker` has staked: the new ledger and the payout that
    /// the token has to carry out, or why nothing is withdrawn.
    pub open spec fn withdraw(self, staker: AccountId, now: Timestamp, amount: Balance) -> Result<
        (Ledger, Payout),
        StakingError,
    > {
        if amount == 0 {
            Err(StakingError::ZeroAmount)
        } else if self.balance_of(staker) < amount {
            Err(StakingError::InsufficientBalance)
        } else if !self.refresh_defined(staker, now) {
            Err(StakingError::OverflowError)
        } else {
            Ok(
                (
                    self.refreshed(staker, now).debited(staker, amount),
                    Payout { token: self.staking_token, to: staker, amount },
                ),
            )
        }
    }

    /// Claiming what `staker` has earned: the new ledger and the payout that the token has to
    /// carry out, or why nothing is claimed.
    pub open spec fn get_reward(self, staker: AccountId, now: Timestamp) -> Result<
        (Ledger, Payout),
        StakingError,
    > {
        if !self.refresh_defined(staker, now) {
            Err(StakingError::OverflowError)
        } else if self.refreshed(staker, now).rewards_of(staker) == 0 {
            Err(StakingError::NoStakingRewards)
        } else {
            Ok(
                (
                    self.refreshed(staker, now).claimed(staker),
                    Payout {
                        token: self.staking_token,
                        to: staker,
                        amount: self.refreshed(staker, now).rewards_of(staker),
                    },
                ),
            )
        }
    }

    /// Leaving the pool: all that `staker` has staked is withdrawn, then what it has earned
    /// is claimed, and the account is left with neither. Gives the new ledger with the payout
    /// of the stake and the payout of the reward, or the failure of the withdrawal or, where
    /// that succeeds, of the claim.
    pub open spec fn exit(self, staker: AccountId, now: Timestamp) -> Result<
        (Ledger, Payout, Payout),
        StakingError,
    > {
        match self.withdraw(staker, now, self.balance_of(staker)) {
            Err(e) => Err(e),
            Ok((withdrawn, principal)) => match withdrawn.get_reward(staker, now) {
                Err(e) => Err(e),
                Ok((paid_out, reward)) => Ok((paid_out.cleared(staker), principal, reward)),
            },
        }
    }
}

impl Ledger {
    /// Whether the ledger was just refreshed for `account` at `now`: the epoch and the rate
    /// are those of `now`, the accumulator stands at `now`, and the account has settled at its
    /// stored value.
    pub open spec fn fresh_for(self, account: AccountId, now: Timestamp) -> bool {
        &&& schedule_defined(self.period_start, now)
        &&& self.period_finish == epoch_end(self.period_start, now)
        &&& self.reward_rate == yearly_reward_rate(years_elapsed(self.period_start, now) as nat)
        &&& self.last_update_time == now
        &&& self.user_reward_per_token_paid.contains_key(account)
        &&& self.user_reward_per_token_paid[account] == self.reward_per_token_stored
        &&& self.rewards.contains_key(account)
    }

    /// What a refresh does, field by field: it never lowers the accumulator, touches neither
    /// the balances nor the total, settles the account at the new value of the accumulator
    /// and leaves the other accounts alone; and it keeps the invariant.
    pub proof fn lemma_refreshed(self, account: AccountId, now: Timestamp)
        requires
            self.inv(),
            self.refresh_defined(account, now),
        ensures
            ({
                let next = self.refreshed(account, now);
                &&& next.inv()
                &&& next.fresh_for(account, now)
                &&& next.staking_token == self.staking_token
                &&& next.period_start == self.period_start
                &&& now < next.period_finish
                &&& next.balances == self.balances
                &&& next.total_staked == self.total_staked
                &&& next.reward_per_token_stored == self.rescheduled(now).reward_per_token(now)
                &&& next.reward_per_token_stored >= self.reward_per_token_stored
                &&& next.rewards == self.rewards.insert(account, next.rewards_of(account))
                &&& next.user_reward_per_token_paid == self.user_reward_per_token_paid.insert(
                    account,
                    next.reward_per_token_stored,
                )
                &&& next.rewards_of(account) == earned_at(
                    self.balance_of(account),
                    next.reward_per_token_stored as int,
                    self.paid_of(account),
                    self.rewards_of(account),
                )
                &&& next.rewards_of(account) >= self.rewards_of(account)
            }),
    {
        lemma_epoch_end_after_now(self.period_start, now);
        lemma_yearly_reward_rate_bound(years_elapsed(self.period_start, now) as nat);
        let scheduled = self.rescheduled(now);
        let applicable = scheduled.last_time_reward_applicable(now);
        lemma_reward_per_token_grows(
            scheduled.reward_per_token_stored,
            scheduled.reward_rate,
            scheduled.last_update_time,
            applicable,
            scheduled.total_staked,
        );
        let rolled = scheduled.accumulated(now);
        lemma_reward_per_token_at_rest(
            rolled.reward_per_token_stored,
            rolled.reward_rate,
            now,
            rolled.total_staked,
        );
        lemma_earned_at_least_rewards(
            self.balance_of(account),
            rolled.reward_per_token_stored as int,
            self.paid_of(account),
            self.rewards_of(account),
        );
        let next = self.refreshed(account, now);
        assert forall|other: AccountId| #[trigger]
            next.user_reward_per_token_paid.contains_key(other)
                implies next.user_reward_per_token_paid[other]
            <= next.reward_per_token_stored by {
            if other != account {
                assert(self.user_reward_per_token_paid.contains_key(other));
            }
        }
    }

    /// A ledger that was just refreshed for an account at `now` can be refreshed for it at
    /// `now` again, and stays as it is.
    pub proof fn lemma_refresh_at_rest(self, account: AccountId, now: Timestamp)
        requires
            self.inv(),
            self.fresh_for(account, now),
        ensures
            self.refresh_defined(account, now),
            self.refreshed(account, now) == self,
    {
        lemma_epoch_end_after_now(self.period_start, now);
        lemma_reward_per_token_at_rest(
            self.reward_per_token_stored,
            self.reward_rate,
            now,
            self.total_staked,
        );
        lemma_earned_at_rest(
            self.balance_of(account),
            self.reward_per_token_stored,
            self.rewards_of(account),
        );
        let rolled = self.rescheduled(now).accumulated(now);
        assert(rolled == self);
        let next = rolled.settled(account, now);
        assert(next.rewards =~= self.rewards);
        assert(next.user_reward_per_token_paid =~= self.user_reward_per_token_paid);
    }

    /// Staking more keeps the invariant, as long as the total stays in range.
    pub proof fn lemma_credited(self, account: AccountId, amount: Balance)
        requires
            self.inv(),
            self.total_staked + amount <= Balance::MAX,
        ensures
            self.credited(account, amount).inv(),
            self.balance_of(account) + amount <= Balance::MAX,
            self.credited(account, amount).balance_of(account) == self.balance_of(account)
                + amount,
            self.credited(account, amount).total_staked == self.total_staked + amount,
    {
        lemma_amount_at_most_sum(self.balances, account);
        lemma_sum_of_insert(
            self.balances,
            account,
            (self.balance_of(account) + amount) as Balance,
        );
    }

    /// Withdrawing no more than an account has staked keeps the invariant.
    pub proof fn lemma_debited(self, account: AccountId, amount: Balance)
        requires
            self.inv(),
            amount <= self.balance_of(account),
        ensures
            self.debited(account, amount).inv(),
            amount <= self.total_staked,
            self.debited(account, amount).balance_of(account) == self.balance_of(account)
                - amount,
            self.debited(account, amount).total_staked == self.total_staked - amount,
    {
        lemma_amount_at_most_sum(self.balances, account);
        lemma_sum_of_insert(
            self.balances,
            account,
            (self.balance_of(account) - amount) as Balance,
        );
    }

    /// What leaving the pool comes to: one refresh, after which the whole stake and all that
    /// was earned are paid out and the account is left with neither. It succeeds exactly
    /// where something is staked, the refresh stays in range and something was earned; and
    /// it keeps the invariant.
    pub proof fn lemma_exit(self, staker: AccountId, now: Timestamp)
        requires
            self.inv(),
        ensures
            self.exit(staker, now) is Ok <==> {
                &&& self.balance_of(staker) > 0
                &&& self.refresh_defined(staker, now)
                &&& self.refreshed(staker, now).rewards_of(staker) > 0
            },
            self.exit(staker, now) matches Ok((left, principal, reward)) ==> {
                &&& left.inv()
                &&& left == self.refreshed(staker, now).debited(
                    staker,
                    self.balance_of(staker),
                ).claimed(staker)
                &&& left.reward_per_token_stored >= self.reward_per_token_stored
                &&& left.balance_of(staker) == 0
                &&& left.rewards_of(staker) == 0
                &&& left.total_staked == self.total_staked - self.balance_of(staker)
                &&& principal == Payout {
                    token: self.staking_token,
                    to: staker,
                    amount: self.balance_of(staker),
                }
                &&& reward == Payout {
                    token: self.staking_token,
                    to: staker,
                    amount: self.refreshed(staker, now).rewards_of(staker),
                }
            },
    {
        let staked = self.balance_of(staker);
        if self.withdraw(staker, now, staked) is Ok {
            self.lemma_refreshed(staker, now);
            let refreshed = self.refreshed(staker, now);
            refreshed.lemma_debited(staker, staked);
            let withdrawn = refreshed.debited(staker, staked);
            withdrawn.lemma_refresh_at_rest(staker, now);
            if withdrawn.get_reward(staker, now) is Ok {
                let left = withdrawn.claimed(staker).cleared(staker);
                assert(left =~= withdrawn.claimed(staker));
            }
        }
    }
}

} // verus!
