//! The pool: its state in memory and the operations on it.
//!
//! The pool does not talk to the token that holds the staked asset, nor to the token that
//! records reputation. An operation is handed what the token said beforehand (an allowance, a
//! balance), and hands back what the token has to do afterwards: a [`Deposit`], a [`Payout`]
//! or a [`ReputationGrant`]. The new state is meant to last only if the token then does it.

use crate::data::Data;
use crate::errors::StakingError;
use crate::ledger::{Deposit, Ledger, Payout};
use crate::mapping::Mapping;
use crate::pool::{Call, Pool, ReputationGrant};
use crate::reputation::new_reputation;
use crate::rewards::{earned, last_time_reward_applicable, reward_per_token};
use crate::schedule::epoch_schedule;
use crate::totals::{all_at_most, amount_of, checked_total, sum_of};
use crate::types::{AccountId, Balance, Timestamp, SECONDS_PER_YEAR};
use vstd::prelude::*;

verus! {

/// A pool of stakes with its reward schedule and its record of reputation.
pub struct StakingContract {
    staking: Data,
    reputation_token: AccountId,
    reputation_last_update: Mapping<Timestamp>,
}

impl View for StakingContract {
    type V = Pool;

    closed spec fn view(&self) -> Pool {
        Pool {
            staking: self.staking@,
            reputation_token: self.reputation_token,
            reputation_last_update: self.reputation_last_update@,
        }
    }
}

/// What a refresh is going to write, worked out before anything is written.
struct Refresh {
    period_finish: Timestamp,
    reward_rate: Balance,
    reward_per_token_stored: Balance,
    last_update_time: Timestamp,
    earned: Balance,
}

impl Refresh {
    /// The ledger `before` with this refresh written into it for `account`.
    spec fn written(self, before: Ledger, account: AccountId) -> Ledger {
        Ledger {
            period_finish: self.period_finish,
            reward_rate: self.reward_rate,
            reward_per_token_stored: self.reward_per_token_stored,
            last_update_time: self.last_update_time,
            rewards: before.rewards.insert(account, self.earned),
            user_reward_per_token_paid: before.user_reward_per_token_paid.insert(
                account,
                self.reward_per_token_stored,
            ),
            ..before
        }
    }
}

/// Writes a refresh that was worked out for `account` into the ledger.
fn write_refresh(staking: &mut Data, account: AccountId, refresh: Refresh)
    ensures
        final(staking)@ == refresh.written(old(staking)@, account),
{
    staking.period_finish = refresh.period_finish;
    staking.reward_rate = refresh.reward_rate;
    staking.reward_per_token_stored = refresh.reward_per_token_stored;
    staking.last_update_time = refresh.last_update_time;
    staking.rewards.insert(account, refresh.earned);
    staking.user_reward_per_token_paid.insert(account, refresh.reward_per_token_stored);
}

/// The amount that `table` holds for `account`; no entry counts as zero.
fn amount_in(table: &Mapping<Balance>, account: &AccountId) -> (amount: Balance)
    ensures
        amount == amount_of(table@, *account),
{
    match table.get(account) {
        Some(amount) => amount,
        None => 0,
    }
}

impl StakingContract {
    /// What holds of every pool at all times: its state keeps the invariant of the ledger.
    #[verifier::type_invariant]
    pub open spec fn inv(&self) -> bool {
        self@.inv()
    }

    /// Creates the pool at `now`, with nothing staked and a first epoch of one year.
    pub fn new(staking_token: AccountId, reputation_token: AccountId, now: Timestamp) -> (contract:
        StakingContract)
        requires
            now + SECONDS_PER_YEAR <= Timestamp::MAX,
        ensures
            contract@.inv(),
            contract@ == Pool::genesis(staking_token, reputation_token, now),
    {
        let mut staking = Data::default();
        staking.staking_token = staking_token;
        staking.period_start = now;
        staking.period_finish = now + SECONDS_PER_YEAR;
        StakingContract { staking, reputation_token, reputation_last_update: Mapping::new() }
    }

    /// Puts a pool together from its parts, as [`StakingContract::into_parts`] gave them or as
    /// they were kept elsewhere. Parts that break the invariant of the ledger are refused.
    pub fn restore(
        staking: Data,
        reputation_token: AccountId,
        reputation_last_update: Mapping<Timestamp>,
    ) -> (restored: Option<StakingContract>)
        ensures
            restored is Some <==> staking@.inv(),
            restored matches Some(contract) ==> contract@ == (Pool {
                staking: staking@,
                reputation_token,
                reputation_last_update: reputation_last_update@,
            }),
    {
        proof {
            staking.balances.lemma_finite();
            staking.rewards.lemma_finite();
            staking.user_reward_per_token_paid.lemma_finite();
        }
        if staking.period_start > staking.period_finish {
            return None;
        }
        match checked_total(&staking.balances) {
            Some(total) => {
                if total != staking.total_staked {
                    return None;
                }
            },
            None => {
                return None;
            },
        }
        if !all_at_most(&staking.user_reward_per_token_paid, staking.reward_per_token_stored) {
            proof {
                let paid = staking@.user_reward_per_token_paid;
                let account = choose|account: AccountId| #[trigger]
                    paid.contains_key(account) && paid[account]
                        > staking.reward_per_token_stored;
                assert(paid.contains_key(account));
            }
            return None;
        }
        Some(StakingContract { staking, reputation_token, reputation_last_update })
    }

    /// Takes the pool apart: its ledger, the token that records reputation, and the times of
    /// the last grants of reputation.
    pub fn into_parts(self) -> (parts: (Data, AccountId, Mapping<Timestamp>))
        ensures
            parts.0@ == self@.staking,
            parts.0@.inv(),
            parts.1 == self@.reputation_token,
            parts.2@ == self@.reputation_last_update,
    {
        proof {
            use_type_invariant(&self);
        }
        (self.staking, self.reputation_token, self.reputation_last_update)
    }

    /// The time up to which reward has accrued at `now`: `now`, but not later than the end
    /// of the epoch.
    pub fn last_time_reward_applicable(&self, now: Timestamp) -> (applicable: Timestamp)
        ensures
            applicable == self@.staking.last_time_reward_applicable(now),
            applicable == if now < self@.staking.period_finish {
                now
            } else {
                self@.staking.period_finish
            },
    {
        last_time_reward_applicable(now, self.staking.period_finish)
    }

    /// The accumulator as it stands at `now`. Changes nothing.
    ///
    /// For an empty pool this is the stored value. Fails with `OverflowError`, and only then,
    /// where the value cannot be worked out within the range of `Balance`.
    pub fn reward_per_token(&self, now: Timestamp) -> (per_token: Result<Balance, StakingError>)
        ensures
            per_token is Ok <==> self@.staking.reward_per_token_defined(now),
            per_token matches Ok(value) ==> value == self@.staking.reward_per_token(now),
            per_token matches Err(e) ==> e == StakingError::OverflowError,
            self@.staking.total_staked == 0 ==> per_token == Ok::<Balance, StakingError>(
                self@.staking.reward_per_token_stored,
            ),
    {
        reward_per_token(
            self.staking.reward_per_token_stored,
            self.staking.reward_rate,
            self.staking.last_update_time,
            self.last_time_reward_applicable(now),
            self.staking.total_staked,
        )
    }

    /// What `account` is entitled to at `now`: its share of the reward accrued since it last
    /// settled, plus what it had earned by then and has not claimed. Changes nothing.
    ///
    /// Fails with `OverflowError`, and only then, where the value cannot be worked out
    /// within the range of `Balance`.
    pub fn earned(&self, account: AccountId, now: Timestamp) -> (entitlement: Result<
        Balance,
        StakingError,
    >)
        ensures
            entitlement is Ok <==> self@.staking.earned_defined(account, now),
            entitlement matches Ok(value) ==> {
                &&& value == self@.staking.earned(account, now)
                &&& value >= self@.staking.rewards_of(account)
            },
            entitlement matches Err(e) ==> e == StakingError::OverflowError,
    {
        let per_token = match self.reward_per_token(now) {
            Ok(per_token) => per_token,
            Err(e) => {
                return Err(e);
            },
        };
        let balance = amount_in(&self.staking.balances, &account);
        let paid = amount_in(&self.staking.user_reward_per_token_paid, &account);
        let rewards = amount_in(&self.staking.rewards, &account);
        proof {
            if paid <= per_token {
                crate::rewards::lemma_earned_at_least_rewards(
                    balance,
                    per_token as int,
                    paid,
                    rewards,
                );
            }
        }
        earned(balance, per_token, paid, rewards)
    }

    /// The amount that `account` has staked; zero for an account that never staked.
    pub fn balance_of(&self, account: AccountId) -> (balance: Balance)
        ensures
            balance == self@.staking.balance_of(account),
    {
        amount_in(&self.staking.balances, &account)
    }

    /// The sum of all staked amounts.
    pub fn total_supply(&self) -> (total: Balance)
        ensures
            total == self@.staking.total_staked,
            total == sum_of(self@.staking.balances),
    {
        proof {
            use_type_invariant(self);
        }
        self.staking.total_staked
    }
}

impl StakingContract {
    /// Works out the epoch that `now` falls into and sets the end of the epoch and the reward
    /// rate accordingly. Nothing else changes.
    ///
    /// Fails with `OverflowError`, and only then, where `now` lies before the start of the
    /// pool or the end of the epoch lies beyond the last time the host can express.
    pub fn update_reward_rate(&mut self, now: Timestamp) -> (outcome: Result<(), StakingError>)
        ensures
            final(self)@.inv(),
            outcome is Err ==> *final(self) == *old(self),
            match old(self)@.staking.update_reward_rate(now) {
                Ok(ledger) => outcome is Ok && final(self)@ == old(self)@.with_ledger(ledger),
                Err(e) => outcome == Err::<(), StakingError>(e) && *final(self) == *old(self),
            },
            final(self)@ == old(self)@.after(Call::UpdateRewardRate { now }),
    {
        proof {
            use_type_invariant(&*self);
        }
        let (period_finish, reward_rate) = match epoch_schedule(self.staking.period_start, now) {
            Ok(schedule) => schedule,
            Err(e) => {
                return Err(e);
            },
        };
        proof {
            crate::schedule::lemma_epoch_end_after_now(self.staking.period_start, now);
        }
        let mut staking = self.take_ledger();
        staking.period_finish = period_finish;
        staking.reward_rate = reward_rate;
        self.put_ledger(staking);
        Ok(())
    }

    /// Works out what a refresh for `account` at `now` is going to write.
    fn plan_refresh(&self, account: AccountId, now: Timestamp) -> (plan: Result<
        Refresh,
        StakingError,
    >)
        ensures
            plan is Ok <==> self@.staking.refresh_defined(account, now),
            plan matches Ok(refresh) ==> refresh.written(self@.staking, account)
                == self@.staking.refreshed(account, now) && refresh.earned
                == self@.staking.refreshed(account, now).rewards_of(account),
            plan matches Err(e) ==> e == StakingError::OverflowError,
    {
        let (period_finish, reward_rate) = match epoch_schedule(self.staking.period_start, now) {
            Ok(schedule) => schedule,
            Err(e) => {
                return Err(e);
            },
        };
        let applicable = last_time_reward_applicable(now, period_finish);
        let per_token = match reward_per_token(
            self.staking.reward_per_token_stored,
            reward_rate,
            self.staking.last_update_time,
            applicable,
            self.staking.total_staked,
        ) {
            Ok(per_token) => per_token,
            Err(e) => {
                return Err(e);
            },
        };
        let balance = amount_in(&self.staking.balances, &account);
        let paid = amount_in(&self.staking.user_reward_per_token_paid, &account);
        let rewards = amount_in(&self.staking.rewards, &account);
        proof {
            crate::schedule::lemma_epoch_end_after_now(self.staking.period_start, now);
            crate::rewards::lemma_reward_per_token_at_rest(
                per_token,
                reward_rate,
                applicable,
                self.staking.total_staked,
            );
        }
        let entitlement = match earned(balance, per_token, paid, rewards) {
            Ok(entitlement) => entitlement,
            Err(e) => {
                return Err(e);
            },
        };
        let refresh = Refresh {
            period_finish,
            reward_rate,
            reward_per_token_stored: per_token,
            last_update_time: applicable,
            earned: entitlement,
        };
        proof {
            assert(refresh.written(self@.staking, account) =~= self@.staking.refreshed(
                account,
                now,
            ));
        }
        Ok(refresh)
    }

    /// Takes the ledger out of the pool, to be changed and put back with
    /// [`StakingContract::put_ledger`]. An empty ledger stands in for it meanwhile.
    fn take_ledger(&mut self) -> (staking: Data)
        ensures
            staking@ == old(self)@.staking,
            final(self)@.reputation_token == old(self)@.reputation_token,
            final(self)@.reputation_last_update == old(self)@.reputation_last_update,
    {
        let mut staking = Data::default();
        std::mem::swap(&mut self.staking, &mut staking);
        staking
    }

    /// Puts a ledger into the pool.
    fn put_ledger(&mut self, staking: Data)
        requires
            staking@.inv(),
        ensures
            final(self)@ == old(self)@.with_ledger(staking@),
    {
        self.staking = staking;
    }

    /// Brings the ledger up to date for `account` at `now`: works out the epoch and the rate,
    /// rolls the accumulator forward, writes down what the account is entitled to as earned,
    /// and marks the account as having seen the new value of the accumulator.
    ///
    /// Fails with `OverflowError`, and only then, where one of these steps leaves the range of
    /// its type; the pool is then as it was.
    pub fn update_reward(&mut self, account: AccountId, now: Timestamp) -> (outcome: Result<
        (),
        StakingError,
    >)
        ensures
            final(self)@.inv(),
            outcome is Err ==> *final(self) == *old(self),
            final(self)@.staking.reward_per_token_stored
                >= old(self)@.staking.reward_per_token_stored,
            match old(self)@.staking.update_reward(account, now) {
                Ok(ledger) => outcome is Ok && final(self)@ == old(self)@.with_ledger(ledger),
                Err(e) => outcome == Err::<(), StakingError>(e) && *final(self) == *old(self),
            },
            final(self)@ == old(self)@.after(Call::UpdateReward { account, now }),
    {
        proof {
            use_type_invariant(&*self);
        }
        let refresh = match self.plan_refresh(account, now) {
            Ok(refresh) => refresh,
            Err(e) => {
                return Err(e);
            },
        };
        proof {
            self@.staking.lemma_refreshed(account, now);
        }
        let mut staking = self.take_ledger();
        write_refresh(&mut staking, account, refresh);
        self.put_ledger(staking);
        Ok(())
    }

    /// Stakes `amount` for `staker`, who has allowed the pool to take `allowance` of the
    /// staked asset and owns `token_balance` of it.
    ///
    /// On success the ledger is refreshed for the staker, the stake and the total have grown
    /// by `amount`, and the result is the deposit that the token has to carry out. Fails, and
    /// leaves the pool as it was, with the first of these that applies: `ZeroAmount` for no
    /// amount, `InsufficientAllowance`, `InsufficientBalance`, `OverflowError` where the
    /// refresh or the new total leaves the range of its type.
    pub fn stake(
        &mut self,
        staker: AccountId,
        now: Timestamp,
        amount: Balance,
        allowance: Balance,
        token_balance: Balance,
    ) -> (outcome: Result<Deposit, StakingError>)
        ensures
            final(self)@.inv(),
            outcome is Err ==> *final(self) == *old(self),
            final(self)@.staking.reward_per_token_stored
                >= old(self)@.staking.reward_per_token_stored,
            amount == 0 ==> outcome == Err::<Deposit, StakingError>(StakingError::ZeroAmount),
            match old(self)@.staking.stake(staker, now, amount, allowance, token_balance) {
                Ok((ledger, deposit)) => outcome == Ok::<Deposit, StakingError>(deposit)
                    && final(self)@ == old(self)@.with_ledger(ledger),
                Err(e) => outcome == Err::<Deposit, StakingError>(e) && *final(self) == *old(self),
            },
            final(self)@ == old(self)@.after(
                Call::Stake { staker, now, amount, allowance, token_balance },
            ),
    {
        proof {
            use_type_invariant(&*self);
        }
        if amount == 0 {
            return Err(StakingError::ZeroAmount);
        }
        if allowance < amount {
            return Err(StakingError::InsufficientAllowance);
        }
        if token_balance < amount {
            return Err(StakingError::InsufficientBalance);
        }
        let refresh = match self.plan_refresh(staker, now) {
            Ok(refresh) => refresh,
            Err(e) => {
                return Err(e);
            },
        };
        proof {
            self@.staking.lemma_refreshed(staker, now);
            if self@.staking.total_staked + amount <= Balance::MAX {
                self@.staking.refreshed(staker, now).lemma_credited(staker, amount);
            }
        }
        let new_total = match self.staking.total_staked.checked_add(amount) {
            Some(new_total) => new_total,
            None => {
                return Err(StakingError::OverflowError);
            },
        };
        let new_amount = match amount_in(&self.staking.balances, &staker).checked_add(amount) {
            Some(new_amount) => new_amount,
            None => {
                return Err(StakingError::OverflowError);
            },
        };
        let deposit = Deposit { token: self.staking.staking_token, from: staker, amount };
        let mut staking = self.take_ledger();
        write_refresh(&mut staking, staker, refresh);
        staking.balances.insert(staker, new_amount);
        staking.total_staked = new_total;
        self.put_ledger(staking);
        Ok(deposit)
    }

    /// Withdraws `amount` of what `staker` has staked.
    ///
    /// On success the ledger is refreshed for the staker, the stake and the total have shrunk
    /// by `amount`, and the result is the payout that the token has to carry out. Fails, and
    /// leaves the pool as it was, with the first of these that applies: `ZeroAmount` for no
    /// amount, `InsufficientBalance` for more than the staker has staked, `OverflowError`
    /// where the refresh leaves the range of its type.
    pub fn withdraw(&mut self, staker: AccountId, now: Timestamp, amount: Balance) -> (outcome:
        Result<Payout, StakingError>)
        ensures
            final(self)@.inv(),
            outcome is Err ==> *final(self) == *old(self),
            final(self)@.staking.reward_per_token_stored
                >= old(self)@.staking.reward_per_token_stored,
            amount > old(self)@.staking.balance_of(staker) ==> outcome == Err::<
                Payout,
                StakingError,
            >(StakingError::InsufficientBalance),
            match old(self)@.staking.withdraw(staker, now, amount) {
                Ok((ledger, payout)) => outcome == Ok::<Payout, StakingError>(payout)
                    && final(self)@ == old(self)@.with_ledger(ledger),
                Err(e) => outcome == Err::<Payout, StakingError>(e) && *final(self) == *old(self),
            },
            final(self)@ == old(self)@.after(Call::Withdraw { staker, now, amount }),
    {
        proof {
            use_type_invariant(&*self);
        }
        if amount == 0 {
            return Err(StakingError::ZeroAmount);
        }
        let staked_amount = amount_in(&self.staking.balances, &staker);
        if staked_amount < amount {
            return Err(StakingError::InsufficientBalance);
        }
        let refresh = match self.plan_refresh(staker, now) {
            Ok(refresh) => refresh,
            Err(e) => {
                return Err(e);
            },
        };
        proof {
            self@.staking.lemma_refreshed(staker, now);
            self@.staking.refreshed(staker, now).lemma_debited(staker, amount);
        }
        let new_amount = match staked_amount.checked_sub(amount) {
            Some(new_amount) => new_amount,
            None => {
                return Err(StakingError::OverflowError);
            },
        };
        let new_total = match self.staking.total_staked.checked_sub(amount) {
            Some(new_total) => new_total,
            None => {
                return Err(StakingError::OverflowError);
            },
        };
        let payout = Payout { token: self.staking.staking_token, to: staker, amount };
        let mut staking = self.take_ledger();
        write_refresh(&mut staking, staker, refresh);
        staking.balances.insert(staker, new_amount);
        staking.total_staked = new_total;
        self.put_ledger(staking);
        Ok(payout)
    }

    /// Claims what `staker` has earned.
    ///
    /// On success the ledger is refreshed for the staker, nothing is left for it to claim,
    /// and the result is the payout of what it had earned, which is more than nothing. Fails,
    /// and leaves the pool as it was, with `OverflowError` where the refresh leaves the range
    /// of its type, else with `NoStakingRewards` where the staker has earned nothing.
    pub fn get_reward(&mut self, staker: AccountId, now: Timestamp) -> (outcome: Result<
        Payout,
        StakingError,
    >)
        ensures
            final(self)@.inv(),
            outcome is Err ==> *final(self) == *old(self),
            final(self)@.staking.reward_per_token_stored
                >= old(self)@.staking.reward_per_token_stored,
            outcome matches Ok(payout) ==> payout.amount > 0,
            match old(self)@.staking.get_reward(staker, now) {
                Ok((ledger, payout)) => outcome == Ok::<Payout, StakingError>(payout)
                    && final(self)@ == old(self)@.with_ledger(ledger),
                Err(e) => outcome == Err::<Payout, StakingError>(e) && *final(self) == *old(self),
            },
            final(self)@ == old(self)@.after(Call::GetReward { staker, now }),
    {
        proof {
            use_type_invariant(&*self);
        }
        let refresh = match self.plan_refresh(staker, now) {
            Ok(refresh) => refresh,
            Err(e) => {
                return Err(e);
            },
        };
        proof {
            self@.staking.lemma_refreshed(staker, now);
        }
        let rewards = refresh.earned;
        if rewards == 0 {
            return Err(StakingError::NoStakingRewards);
        }
        let payout = Payout { token: self.staking.staking_token, to: staker, amount: rewards };
        let mut staking = self.take_ledger();
        write_refresh(&mut staking, staker, refresh);
        staking.rewards.insert(staker, 0);
        self.put_ledger(staking);
        Ok(payout)
    }
}

impl StakingContract {
    /// Leaves the pool: withdraws all that `staker` has staked, then claims what it has
    /// earned, and leaves the account with neither stake nor unclaimed reward.
    ///
    /// On success the result is the payout of the stake and the payout of the reward, which
    /// the token has to carry out in this order. Fails, and leaves the pool as it was, with
    /// what the withdrawal fails with (`ZeroAmount` where nothing is staked, `OverflowError`
    /// where the refresh leaves the range of its type), else with what the claim fails with
    /// (`NoStakingRewards` where nothing was earned).
    pub fn exit(&mut self, staker: AccountId, now: Timestamp) -> (outcome: Result<
        (Payout, Payout),
        StakingError,
    >)
        ensures
            final(self)@.inv(),
            outcome is Err ==> *final(self) == *old(self),
            final(self)@.staking.reward_per_token_stored
                >= old(self)@.staking.reward_per_token_stored,
            outcome is Ok ==> final(self)@.staking.balance_of(staker) == 0 && final(self)@.staking.rewards_of(staker) == 0,
            match old(self)@.staking.exit(staker, now) {
                Ok((ledger, principal, reward)) => outcome == Ok::<
                    (Payout, Payout),
                    StakingError,
                >((principal, reward)) && final(self)@ == old(self)@.with_ledger(ledger),
                Err(e) => outcome == Err::<(Payout, Payout), StakingError>(e) && *final(self)
                    == *old(self),
            },
            final(self)@ == old(self)@.after(Call::Exit { staker, now }),
    {
        proof {
            use_type_invariant(&*self);
        }
        let staked_amount = amount_in(&self.staking.balances, &staker);
        if staked_amount == 0 {
            return Err(StakingError::ZeroAmount);
        }
        let refresh = match self.plan_refresh(staker, now) {
            Ok(refresh) => refresh,
            Err(e) => {
                return Err(e);
            },
        };
        let ghost withdrawn = self@.staking.refreshed(staker, now).debited(staker, staked_amount);
        proof {
            self@.staking.lemma_refreshed(staker, now);
            self@.staking.refreshed(staker, now).lemma_debited(staker, staked_amount);
            withdrawn.lemma_refresh_at_rest(staker, now);
        }
        let rewards = refresh.earned;
        if rewards == 0 {
            return Err(StakingError::NoStakingRewards);
        }
        let new_total = match self.staking.total_staked.checked_sub(staked_amount) {
            Some(new_total) => new_total,
            None => {
                return Err(StakingError::OverflowError);
            },
        };
        let principal = Payout {
            token: self.staking.staking_token,
            to: staker,
            amount: staked_amount,
        };
        let reward = Payout { token: self.staking.staking_token, to: staker, amount: rewards };
        let mut staking = self.take_ledger();
        write_refresh(&mut staking, staker, refresh);
        staking.balances.insert(staker, 0);
        staking.total_staked = new_total;
        staking.rewards.insert(staker, 0);
        proof {
            let left = withdrawn.claimed(staker).cleared(staker);
            assert(staking@.balances =~= left.balances);
            assert(staking@.rewards =~= left.rewards);
            assert(staking@ =~= left);
        }
        self.put_ledger(staking);
        Ok((principal, reward))
    }

    /// Grants `staker` the reputation it has gained since the last grant: for every whole
    /// reputation period gone by, its stake divided by `PRECISION`.
    ///
    /// On success the clock of the account restarts at `now`, and the result is the grant
    /// that the reputation token has to carry out, be it of nothing. The ledger of stakes and
    /// rewards is not touched. Fails with `OverflowError`, and only then, where `now` lies
    /// before the last grant or the gain leaves the range of its type; the pool is then as
    /// it was.
    pub fn update_reputation(&mut self, staker: AccountId, now: Timestamp) -> (outcome: Result<
        ReputationGrant,
        StakingError,
    >)
        ensures
            final(self)@.inv(),
            outcome is Err ==> *final(self) == *old(self),
            final(self)@.staking == old(self)@.staking,
            match old(self)@.update_reputation(staker, now) {
                Ok((pool, grant)) => outcome == Ok::<ReputationGrant, StakingError>(grant)
                    && final(self)@ == pool,
                Err(e) => outcome == Err::<ReputationGrant, StakingError>(e) && *final(self)
                    == *old(self),
            },
            final(self)@ == old(self)@.after(Call::ClaimReputation { caller: staker, now }),
    {
        proof {
            use_type_invariant(&*self);
        }
        let last_time_update = match self.reputation_last_update.get(&staker) {
            Some(last_time_update) => last_time_update,
            None => 0,
        };
        let balance = amount_in(&self.staking.balances, &staker);
        let amount = match new_reputation(balance, last_time_update, now) {
            Ok(amount) => amount,
            Err(e) => {
                return Err(e);
            },
        };
        let mut updates: Mapping<Timestamp> = Mapping::new();
        std::mem::swap(&mut self.reputation_last_update, &mut updates);
        updates.insert(staker, now);
        self.reputation_last_update = updates;
        Ok(ReputationGrant { token: self.reputation_token, to: staker, amount })
    }

    /// Grants the caller the reputation it has gained since the last grant; see
    /// [`StakingContract::update_reputation`].
    pub fn claim_reputation(&mut self, caller: AccountId, now: Timestamp) -> (outcome: Result<
        ReputationGrant,
        StakingError,
    >)
        ensures
            final(self)@.inv(),
            outcome is Err ==> *final(self) == *old(self),
            final(self)@.staking == old(self)@.staking,
            match old(self)@.update_reputation(caller, now) {
                Ok((pool, grant)) => outcome == Ok::<ReputationGrant, StakingError>(grant)
                    && final(self)@ == pool,
                Err(e) => outcome == Err::<ReputationGrant, StakingError>(e) && *final(self)
                    == *old(self),
            },
            final(self)@ == old(self)@.after(Call::ClaimReputation { caller, now }),
    {
        self.update_reputation(caller, now)
    }

    /// A copy of the pool, to go back to should the token fail to do what an operation has
    /// handed back; see [`StakingContract::settle`].
    pub fn snapshot(&self) -> (copy: StakingContract)
        ensures
            copy@ == self@,
    {
        proof {
            use_type_invariant(self);
        }
        StakingContract {
            staking: self.staking.snapshot(),
            reputation_token: self.reputation_token,
            reputation_last_update: self.reputation_last_update.snapshot(),
        }
    }

    /// Closes an operation once the token has answered. `before` is the pool as it was
    /// before the operation, `outcome` what came of the deposit, payout or grant that the
    /// operation handed back.
    ///
    /// Where the token has done it, the pool stays as the operation left it. Where the token
    /// has failed, the pool goes back to `before`, and the failure of the token is the failure
    /// of the operation: an operation changes the pool entirely or not at all.
    pub fn settle(&mut self, before: StakingContract, outcome: Result<(), StakingError>) -> (result:
        Result<(), StakingError>)
        ensures
            result == outcome,
            outcome is Ok ==> *final(self) == *old(self),
            outcome is Err ==> *final(self) == before,
    {
        if outcome.is_err() {
            *self = before;
        }
        outcome
    }

    /// The ledger of stakes and rewards.
    pub fn staking(&self) -> (data: &Data)
        ensures
            data@ == self@.staking,
            data@.inv(),
    {
        proof {
            use_type_invariant(self);
        }
        &self.staking
    }

    /// The token that records reputation.
    pub fn reputation_token(&self) -> (token: AccountId)
        ensures
            token == self@.reputation_token,
    {
        self.reputation_token
    }

    /// When reputation was last granted to `account`; zero where it never was.
    pub fn reputation_last_update(&self, account: AccountId) -> (at: Timestamp)
        ensures
            at == self@.reputation_updated_at(account),
    {
        match self.reputation_last_update.get(&account) {
            Some(at) => at,
            None => 0,
        }
    }
}

} // verus!
