//! What the pool owes never exceeds what it has emitted.
//!
//! The debt of the pool is what all accounts together are entitled to at the stored value of
//! the accumulator. It is reckoned here scaled by `PRECISION` and before rounding, so that it
//! is a sum of products and never less than what the accounts can claim. A refresh raises the
//! debt by no more than the reward emitted since the last update; staking and withdrawing
//! leave it alone; a claim lowers it by what is paid out.

use crate::ledger::Ledger;
use crate::pool::{Call, Pool};
use crate::totals::{
    lemma_sum_over_amounts, lemma_sum_over_bound, lemma_sum_over_more,
    lemma_sum_over_not_negative, lemma_sum_over_remove, lemma_sum_over_same, sum_over,
};
use crate::types::{AccountId, Timestamp, PRECISION};
use vstd::arithmetic::div_mod::{lemma_fundamental_div_mod, lemma_mod_pos_bound};
use vstd::prelude::*;

verus! {

impl Ledger {
    /// The accounts that the ledger knows.
    pub open spec fn accounts(self) -> Set<AccountId> {
        self.balances.dom() + self.rewards.dom() + self.user_reward_per_token_paid.dom()
    }

    /// What the pool owes `account` at the stored value of the accumulator, scaled by
    /// `PRECISION` and before rounding.
    pub open spec fn owed_scaled(self, account: AccountId) -> int {
        self.balance_of(account) * (self.reward_per_token_stored - self.paid_of(account))
            + PRECISION * self.rewards_of(account)
    }

    /// What the pool owes all accounts together, scaled by `PRECISION` and before rounding.
    pub open spec fn debt_scaled(self) -> int {
        sum_over(self.accounts(), |account: AccountId| self.owed_scaled(account))
    }

    /// The reward that a refresh at `now` takes as emitted since the last update: the rate
    /// of the epoch of `now` for every second gone by, and nothing while nothing is staked.
    pub open spec fn emission(self, now: Timestamp) -> int {
        let scheduled = self.rescheduled(now);
        if self.total_staked == 0 {
            0
        } else {
            (scheduled.last_time_reward_applicable(now) - self.last_update_time)
                * scheduled.reward_rate
        }
    }

    /// No account is owed less than nothing, nor less than it can claim.
    pub proof fn lemma_owed_scaled(self, account: AccountId)
        requires
            self.inv(),
        ensures
            PRECISION * self.rewards_of(account) <= self.owed_scaled(account),
    {
        let gain = self.balance_of(account) * (self.reward_per_token_stored - self.paid_of(
            account,
        ));
        assert(0 <= gain) by (nonlinear_arith)
            requires
                gain == self.balance_of(account) * (self.reward_per_token_stored - self.paid_of(
                    account,
                )),
                self.paid_of(account) <= self.reward_per_token_stored,
        ;
    }

    /// The debt is never negative.
    pub proof fn lemma_debt_not_negative(self)
        requires
            self.inv(),
        ensures
            0 <= self.debt_scaled(),
    {
        let owed = |account: AccountId| self.owed_scaled(account);
        assert forall|account: AccountId| #[trigger] self.accounts().contains(account) implies 0
            <= owed(account) by {
            self.lemma_owed_scaled(account);
        }
        lemma_sum_over_not_negative(self.accounts(), owed);
    }

    /// A refresh raises the debt by no more than the reward emitted since the last update.
    pub proof fn lemma_refresh_is_covered(self, account: AccountId, now: Timestamp)
        requires
            self.inv(),
            self.refresh_defined(account, now),
        ensures
            self.refreshed(account, now).debt_scaled() <= self.debt_scaled() + PRECISION
                * self.emission(now),
    {
        self.lemma_refreshed(account, now);
        let next = self.refreshed(account, now);
        let gain = next.reward_per_token_stored - self.reward_per_token_stored;
        let owed = |other: AccountId| self.owed_scaled(other);
        let owed_next = |other: AccountId| next.owed_scaled(other);
        let staked = |other: AccountId| self.balance_of(other) as int;
        assert forall|other: AccountId| #[trigger] next.accounts().contains(other) implies owed_next(
            other,
        ) <= owed(other) + gain * staked(other) by {
            let balance = self.balance_of(other) as int;
            let stored = self.reward_per_token_stored as int;
            let paid = self.paid_of(other) as int;
            if other == account {
                let share = balance * (next.reward_per_token_stored - paid);
                assert(0 <= share) by (nonlinear_arith)
                    requires
                        share == balance * (next.reward_per_token_stored - paid),
                        0 <= balance,
                        paid <= next.reward_per_token_stored,
                ;
                lemma_fundamental_div_mod(share, PRECISION as int);
                lemma_mod_pos_bound(share, PRECISION as int);
                assert(balance * (next.reward_per_token_stored - next.reward_per_token_stored)
                    == 0) by (nonlinear_arith);
                assert(share == balance * (stored - paid) + gain * balance) by (nonlinear_arith)
                    requires
                        share == balance * (next.reward_per_token_stored - paid),
                        gain == next.reward_per_token_stored - stored,
                ;
            } else {
                assert(balance * (next.reward_per_token_stored - paid) == balance * (stored
                    - paid) + gain * balance) by (nonlinear_arith)
                    requires
                        gain == next.reward_per_token_stored - stored,
                ;
            }
        }
        lemma_sum_over_bound(next.accounts(), owed_next, owed, staked, gain);
        assert forall|other: AccountId|
            next.accounts().contains(other) && !self.accounts().contains(other) implies #[trigger] owed(
            other,
        ) == 0 by {
            assert(self.balance_of(other) * (self.reward_per_token_stored - self.paid_of(other))
                == 0) by (nonlinear_arith)
                requires
                    self.balance_of(other) == 0,
            ;
        }
        lemma_sum_over_more(self.accounts(), next.accounts(), owed);
        lemma_sum_over_amounts(next.accounts(), self.balances, staked);
        let total = self.total_staked as int;
        if total == 0 {
            assert(gain * total == 0) by (nonlinear_arith)
                requires
                    total == 0,
            ;
        } else {
            let emitted = self.emission(now);
            let scaled = emitted * PRECISION;
            assert(0 <= scaled) by (nonlinear_arith)
                requires
                    scaled == emitted * PRECISION,
                    emitted == (now - self.last_update_time) * next.reward_rate,
                    self.last_update_time <= now,
            ;
            assert(gain == scaled / total);
            lemma_fundamental_div_mod(scaled, total);
            lemma_mod_pos_bound(scaled, total);
            assert(gain * total == total * gain) by (nonlinear_arith);
        }
    }

    /// Staking and withdrawing leave the debt alone, where the account has just settled:
    /// `next` is this ledger but for what `account` has staked and for the total.
    pub proof fn lemma_stake_leaves_debt(self, next: Ledger, account: AccountId)
        requires
            self.inv(),
            self.rewards.contains_key(account),
            self.paid_of(account) == self.reward_per_token_stored,
            next.balances == self.balances.insert(account, next.balance_of(account)),
            next.rewards == self.rewards,
            next.user_reward_per_token_paid == self.user_reward_per_token_paid,
            next.reward_per_token_stored == self.reward_per_token_stored,
        ensures
            next.debt_scaled() == self.debt_scaled(),
    {
        let owed = |other: AccountId| self.owed_scaled(other);
        let owed_next = |other: AccountId| next.owed_scaled(other);
        assert(next.accounts() =~= self.accounts());
        assert forall|other: AccountId| #[trigger] self.accounts().contains(other) implies owed(
            other,
        ) == owed_next(other) by {
            if other == account {
                let none = self.reward_per_token_stored - self.paid_of(account);
                assert(self.balance_of(account) * none == 0 && next.balance_of(account) * none
                    == 0) by (nonlinear_arith)
                    requires
                        none == 0,
                ;
            }
        }
        lemma_sum_over_same(self.accounts(), owed, owed_next);
    }

    /// A claim lowers the debt by what is paid out.
    pub proof fn lemma_claim_lowers_debt(self, account: AccountId)
        requires
            self.inv(),
            self.rewards.contains_key(account),
        ensures
            self.claimed(account).debt_scaled() == self.debt_scaled() - PRECISION
                * self.rewards_of(account),
    {
        let next = self.claimed(account);
        let owed = |other: AccountId| self.owed_scaled(other);
        let owed_next = |other: AccountId| next.owed_scaled(other);
        assert(next.accounts() =~= self.accounts());
        lemma_sum_over_remove(self.accounts(), owed, account);
        lemma_sum_over_remove(self.accounts(), owed_next, account);
        lemma_sum_over_same(self.accounts().remove(account), owed, owed_next);
    }
}

impl Pool {
    /// The reward that `call` pays out: what a claim pays, by itself or as the last part of
    /// leaving the pool. Stakes that are given back are no reward.
    pub open spec fn reward_paid(self, call: Call) -> int {
        match call {
            Call::GetReward { staker, now } => match self.staking.get_reward(staker, now) {
                Ok((_, payout)) => payout.amount as int,
                Err(_) => 0,
            },
            Call::Exit { staker, now } => match self.staking.exit(staker, now) {
                Ok((_, _, reward)) => reward.amount as int,
                Err(_) => 0,
            },
            _ => 0,
        }
    }

    /// The reward that `call` takes as emitted: the emission since the last update where the
    /// call refreshes the ledger, and nothing where it does not or fails.
    pub open spec fn emitted(self, call: Call) -> int {
        let refreshes = match call {
            Call::UpdateRewardRate { .. } => false,
            Call::UpdateReward { account, now } => self.staking.update_reward(account, now) is Ok,
            Call::Stake { staker, now, amount, allowance, token_balance } => self.staking.stake(
                staker,
                now,
                amount,
                allowance,
                token_balance,
            ) is Ok,
            Call::Withdraw { staker, now, amount } => self.staking.withdraw(staker, now, amount)
                is Ok,
            Call::GetReward { staker, now } => self.staking.get_reward(staker, now) is Ok,
            Call::Exit { staker, now } => self.staking.exit(staker, now) is Ok,
            Call::ClaimReputation { .. } => false,
        };
        if refreshes {
            self.staking.emission(call.time())
        } else {
            0
        }
    }

    /// The reward that a sequence of calls pays out, one call after the other.
    pub open spec fn reward_paid_all(self, calls: Seq<Call>) -> int
        decreases calls.len(),
    {
        if calls.len() == 0 {
            0
        } else {
            self.reward_paid_all(calls.drop_last()) + self.after_all(
                calls.drop_last(),
            ).reward_paid(calls.last())
        }
    }

    /// The reward that a sequence of calls takes as emitted, one call after the other.
    pub open spec fn emitted_all(self, calls: Seq<Call>) -> int
        decreases calls.len(),
    {
        if calls.len() == 0 {
            0
        } else {
            self.emitted_all(calls.drop_last()) + self.after_all(calls.drop_last()).emitted(
                calls.last(),
            )
        }
    }

    /// What one call adds to the debt and pays out is covered by what it takes as emitted.
    pub proof fn lemma_call_is_covered(self, call: Call)
        requires
            self.inv(),
        ensures
            self.after(call).staking.debt_scaled() + PRECISION * self.reward_paid(call)
                <= self.staking.debt_scaled() + PRECISION * self.emitted(call),
    {
        let ledger = self.staking;
        let now = call.time();
        match call {
            Call::UpdateRewardRate { .. } => {
                let next = self.after(call).staking;
                lemma_sum_over_same(
                    ledger.accounts(),
                    |account: AccountId| ledger.owed_scaled(account),
                    |account: AccountId| next.owed_scaled(account),
                );
            },
            Call::UpdateReward { account, .. } => {
                if ledger.refresh_defined(account, now) {
                    ledger.lemma_refresh_is_covered(account, now);
                }
            },
            Call::Stake { staker, amount, allowance, token_balance, .. } => {
                if ledger.stake(staker, now, amount, allowance, token_balance) is Ok {
                    let refreshed = ledger.refreshed(staker, now);
                    ledger.lemma_refreshed(staker, now);
                    ledger.lemma_refresh_is_covered(staker, now);
                    refreshed.lemma_stake_leaves_debt(refreshed.credited(staker, amount), staker);
                }
            },
            Call::Withdraw { staker, amount, .. } => {
                if ledger.withdraw(staker, now, amount) is Ok {
                    let refreshed = ledger.refreshed(staker, now);
                    ledger.lemma_refreshed(staker, now);
                    ledger.lemma_refresh_is_covered(staker, now);
                    refreshed.lemma_stake_leaves_debt(refreshed.debited(staker, amount), staker);
                }
            },
            Call::GetReward { staker, .. } => {
                if ledger.get_reward(staker, now) is Ok {
                    ledger.lemma_refreshed(staker, now);
                    ledger.lemma_refresh_is_covered(staker, now);
                    ledger.refreshed(staker, now).lemma_claim_lowers_debt(staker);
                }
            },
            Call::Exit { staker, .. } => {
                ledger.lemma_exit(staker, now);
                if ledger.exit(staker, now) is Ok {
                    let refreshed = ledger.refreshed(staker, now);
                    let withdrawn = refreshed.debited(staker, ledger.balance_of(staker));
                    ledger.lemma_refreshed(staker, now);
                    ledger.lemma_refresh_is_covered(staker, now);
                    refreshed.lemma_debited(staker, ledger.balance_of(staker));
                    refreshed.lemma_stake_leaves_debt(withdrawn, staker);
                    withdrawn.lemma_claim_lowers_debt(staker);
                }
            },
            Call::ClaimReputation { .. } => {},
        }
    }
}

} // verus!
