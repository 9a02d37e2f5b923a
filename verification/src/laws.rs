//! What holds of the pool whatever is done with it.

use crate::errors::StakingError;
use crate::ledger::{Ledger, Payout};
use crate::pool::{Call, Pool};
use crate::rewards::lemma_sole_share;
use crate::schedule::release_percent;
use crate::totals::{lemma_amount_at_most_sum, lemma_sum_of_empty, sum_of};
use crate::types::{
    AccountId, Balance, Timestamp, INITIAL_REWARD_RATE, PRECISION, SECONDS_PER_YEAR,
};
use vstd::arithmetic::div_mod::lemma_div_denominator;
use vstd::arithmetic::power2::{lemma_pow2_pos, lemma_pow2_unfold, pow2};
use vstd::prelude::*;

verus! {

/// One call keeps the invariant of the pool and does not lower the accumulator.
pub proof fn lemma_after(pool: Pool, call: Call)
    requires
        pool.inv(),
    ensures
        pool.after(call).inv(),
        pool.after(call).staking.reward_per_token_stored >= pool.staking.reward_per_token_stored,
{
    let ledger = pool.staking;
    match call {
        Call::UpdateRewardRate { now } => {
            if ledger.update_reward_rate(now) is Ok {
                crate::schedule::lemma_epoch_end_after_now(ledger.period_start, now);
            }
        },
        Call::UpdateReward { account, now } => {
            if ledger.refresh_defined(account, now) {
                ledger.lemma_refreshed(account, now);
            }
        },
        Call::Stake { staker, now, amount, allowance, token_balance } => {
            if ledger.stake(staker, now, amount, allowance, token_balance) is Ok {
                ledger.lemma_refreshed(staker, now);
                ledger.refreshed(staker, now).lemma_credited(staker, amount);
            }
        },
        Call::Withdraw { staker, now, amount } => {
            if ledger.withdraw(staker, now, amount) is Ok {
                ledger.lemma_refreshed(staker, now);
                ledger.refreshed(staker, now).lemma_debited(staker, amount);
            }
        },
        Call::GetReward { staker, now } => {
            if ledger.get_reward(staker, now) is Ok {
                ledger.lemma_refreshed(staker, now);
            }
        },
        Call::Exit { staker, now } => {
            ledger.lemma_exit(staker, now);
        },
        Call::ClaimReputation { caller, now } => {},
    }
}

/// In every state that a pool can reach, the total staked is the sum of the balances of all
/// accounts: it is so when the pool is created, and no sequence of calls changes it.
pub proof fn law_total_staked_is_sum_of_balances(
    staking_token: AccountId,
    reputation_token: AccountId,
    created: Timestamp,
    calls: Seq<Call>,
)
    requires
        created + SECONDS_PER_YEAR <= Timestamp::MAX,
    ensures
        ({
            let reached = Pool::genesis(staking_token, reputation_token, created).after_all(
                calls,
            );
            reached.staking.total_staked == sum_of(reached.staking.balances)
        }),
{
    lemma_sum_of_empty();
    law_invariant_is_kept(Pool::genesis(staking_token, reputation_token, created), calls);
}

/// No sequence of calls breaks the invariant of the pool.
pub proof fn law_invariant_is_kept(pool: Pool, calls: Seq<Call>)
    requires
        pool.inv(),
    ensures
        pool.after_all(calls).inv(),
    decreases calls.len(),
{
    if calls.len() > 0 {
        law_invariant_is_kept(pool, calls.drop_last());
        lemma_after(pool.after_all(calls.drop_last()), calls.last());
    }
}

/// The accumulator never decreases: after any sequence of calls it is at least what it was
/// before.
pub proof fn law_accumulator_never_decreases(pool: Pool, calls: Seq<Call>)
    requires
        pool.inv(),
    ensures
        pool.after_all(calls).staking.reward_per_token_stored
            >= pool.staking.reward_per_token_stored,
    decreases calls.len(),
{
    if calls.len() > 0 {
        law_accumulator_never_decreases(pool, calls.drop_last());
        law_invariant_is_kept(pool, calls.drop_last());
        lemma_after(pool.after_all(calls.drop_last()), calls.last());
    }
}

/// Claiming twice in a row, with no time gone by and nothing staked in between: where the
/// first claim succeeds it pays out more than nothing, and the second fails with
/// `NoStakingRewards`.
pub proof fn law_second_claim_finds_nothing(ledger: Ledger, staker: AccountId, now: Timestamp)
    requires
        ledger.inv(),
        ledger.get_reward(staker, now) is Ok,
    ensures
        ledger.get_reward(staker, now)->Ok_0.1.amount > 0,
        ledger.get_reward(staker, now)->Ok_0.0.get_reward(staker, now) == Err::<
            (Ledger, Payout),
            StakingError,
        >(StakingError::NoStakingRewards),
{
    ledger.lemma_refreshed(staker, now);
    let claimed = ledger.refreshed(staker, now).claimed(staker);
    claimed.lemma_refresh_at_rest(staker, now);
}

/// What the only staker of a pool earns. Let an account with nothing to claim stake `amount`
/// into an empty pool at time `at`. Asked at `at`, it has earned nothing. Asked `elapsed`
/// later, and not after the end of the epoch, it has earned the reward emitted in between,
/// the emission rate times `elapsed`, but for what is lost in rounding: less than one unit
/// for every `PRECISION` staked, and one more. While nothing is emitted, nothing is earned.
pub proof fn law_sole_staker_earns_the_emission(
    before: Ledger,
    staker: AccountId,
    at: Timestamp,
    amount: Balance,
    allowance: Balance,
    token_balance: Balance,
    elapsed: Timestamp,
)
    requires
        before.inv(),
        before.total_staked == 0,
        before.rewards_of(staker) == 0,
        before.stake(staker, at, amount, allowance, token_balance) is Ok,
        at + elapsed <= before.stake(
            staker,
            at,
            amount,
            allowance,
            token_balance,
        )->Ok_0.0.period_finish,
    ensures
        ({
            let staked = before.stake(staker, at, amount, allowance, token_balance)->Ok_0.0;
            let later = (at + elapsed) as Timestamp;
            let emitted = elapsed * staked.reward_rate;
            &&& staked.total_staked == amount
            &&& staked.balance_of(staker) == amount
            &&& staked.earned(staker, at) == 0
            &&& staked.earned(staker, later) == amount * (emitted * PRECISION / (amount as int))
                / (PRECISION as int)
            &&& emitted - amount / PRECISION - 1 <= staked.earned(staker, later) <= emitted
            &&& emitted == 0 ==> staked.earned(staker, later) == 0
        }),
{
    before.lemma_refreshed(staker, at);
    lemma_amount_at_most_sum(before.balances, staker);
    let refreshed = before.refreshed(staker, at);
    refreshed.lemma_credited(staker, amount);
    let staked = refreshed.credited(staker, amount);
    let stored = staked.reward_per_token_stored;
    assert(refreshed.rewards_of(staker) == 0) by {
        let gain = before.balance_of(staker) * (stored - before.paid_of(staker));
        assert(gain == 0) by (nonlinear_arith)
            requires
                gain == before.balance_of(staker) * (stored - before.paid_of(staker)),
                before.balance_of(staker) == 0,
        ;
    }
    crate::rewards::lemma_reward_per_token_at_rest(stored, staked.reward_rate, at, amount);
    crate::rewards::lemma_earned_at_rest(amount, stored, 0);
    let emitted = elapsed * staked.reward_rate;
    assert(0 <= emitted) by (nonlinear_arith)
        requires
            emitted == elapsed * staked.reward_rate,
    ;
    lemma_sole_share(amount as int, emitted);
}

/// At any time at which reward has not stopped accruing before the last update, an account
/// is entitled to at least what it had earned when it last settled.
pub proof fn law_earned_at_least_rewards(ledger: Ledger, account: AccountId, now: Timestamp)
    requires
        ledger.inv(),
        ledger.total_staked == 0 || ledger.last_update_time
            <= ledger.last_time_reward_applicable(now),
    ensures
        ledger.earned(account, now) >= ledger.rewards_of(account),
{
    crate::rewards::lemma_reward_per_token_grows(
        ledger.reward_per_token_stored,
        ledger.reward_rate,
        ledger.last_update_time,
        ledger.last_time_reward_applicable(now),
        ledger.total_staked,
    );
    crate::rewards::lemma_earned_at_least_rewards(
        ledger.balance_of(account),
        ledger.reward_per_token(now),
        ledger.paid_of(account),
        ledger.rewards_of(account),
    );
}

/// The emission halves once per year: with every year gone by, the percentage of the staking
/// allocation that is released is half of what it was the year before, rounded down.
pub proof fn law_release_percent_halves(years: nat)
    ensures
        release_percent(years + 1) == release_percent(years) / 2,
{
    lemma_pow2_pos(years);
    lemma_pow2_unfold(years + 1);
    lemma_div_denominator(INITIAL_REWARD_RATE as int, pow2(years) as int, 2);
}

/// A call for one account does not reset the accounting of another: what the other account
/// has staked, what it had earned when it last settled and where it last settled stay as they
/// were. And unless the call is the first of a new epoch, the other account is entitled, at
/// the time of the call, to exactly what it was entitled to before.
pub proof fn law_other_accounts_keep_their_accounting(pool: Pool, call: Call, other: AccountId)
    requires
        pool.inv(),
        call.account() != Some(other),
    ensures
        pool.after(call).staking.balance_of(other) == pool.staking.balance_of(other),
        pool.after(call).staking.rewards_of(other) == pool.staking.rewards_of(other),
        pool.after(call).staking.paid_of(other) == pool.staking.paid_of(other),
        pool.staking.rescheduled(call.time()) == pool.staking ==> pool.after(
            call,
        ).staking.earned(other, call.time()) == pool.staking.earned(other, call.time()),
{
    let ledger = pool.staking;
    let next = pool.after(call).staking;
    let now = call.time();
    if next != ledger {
        match call {
            Call::UpdateRewardRate { .. } => {},
            Call::ClaimReputation { .. } => {},
            Call::Exit { staker, .. } => {
                ledger.lemma_exit(staker, now);
                ledger.lemma_refreshed(staker, now);
            },
            _ => {
                ledger.lemma_refreshed(call.account()->Some_0, now);
            },
        }
        if ledger.rescheduled(now) == ledger && call.account() is Some {
            crate::rewards::lemma_reward_per_token_at_rest(
                next.reward_per_token_stored,
                next.reward_rate,
                now,
                next.total_staked,
            );
        }
    }
}

/// The pool stays solvent: over any sequence of calls, the reward that is paid out, together
/// with what the pool then owes, is covered by what the pool owed before and the reward that
/// was emitted meanwhile. The debt is reckoned scaled by `PRECISION` and before rounding.
pub proof fn law_debt_is_covered_by_emission(pool: Pool, calls: Seq<Call>)
    requires
        pool.inv(),
    ensures
        pool.after_all(calls).staking.debt_scaled() + PRECISION * pool.reward_paid_all(calls)
            <= pool.staking.debt_scaled() + PRECISION * pool.emitted_all(calls),
    decreases calls.len(),
{
    if calls.len() > 0 {
        let earlier = calls.drop_last();
        law_debt_is_covered_by_emission(pool, earlier);
        law_invariant_is_kept(pool, earlier);
        pool.after_all(earlier).lemma_call_is_covered(calls.last());
    }
}

/// A pool never pays out more reward than it has emitted: whatever is done with a pool from
/// its creation on, all claims together come to no more than the emission of all the time
/// that went by with something staked.
pub proof fn law_rewards_paid_never_exceed_emission(
    staking_token: AccountId,
    reputation_token: AccountId,
    created: Timestamp,
    calls: Seq<Call>,
)
    requires
        created + SECONDS_PER_YEAR <= Timestamp::MAX,
    ensures
        Pool::genesis(staking_token, reputation_token, created).reward_paid_all(calls)
            <= Pool::genesis(staking_token, reputation_token, created).emitted_all(calls),
{
    let pool = Pool::genesis(staking_token, reputation_token, created);
    lemma_sum_of_empty();
    law_debt_is_covered_by_emission(pool, calls);
    law_invariant_is_kept(pool, calls);
    pool.after_all(calls).staking.lemma_debt_not_negative();
    assert(pool.staking.accounts() =~= Set::empty());
    assert(pool.staking.debt_scaled() == 0);
}

} // verus!
