//! The reward-rate decay schedule: how much reward is emitted per second, and until when.
//!
//! Time is cut into epochs of one year, counted from the start of the pool. During the first
//! epoch a fixed percentage of the staking allocation is released, spread evenly over the
//! seconds of the year; with every further epoch that percentage is halved.

use crate::errors::StakingError;
use crate::types::{
    Balance, Timestamp, INITIAL_REWARD_RATE, INITIAL_SUPPLY, SECONDS_PER_YEAR, STAKING_ALLOCATION,
};
use vstd::arithmetic::div_mod::{
    lemma_basic_div, lemma_div_denominator, lemma_div_is_ordered,
    lemma_div_is_ordered_by_denominator, lemma_fundamental_div_mod,
};
use vstd::arithmetic::power2::{lemma2_to64, lemma_pow2_pos, lemma_pow2_strictly_increases, pow2};
use vstd::bits::lemma_u128_shr_is_div;
use vstd::prelude::*;

verus! {

/// Whole years that lie between the start of the pool and `now`.
pub open spec fn years_elapsed(period_start: Timestamp, now: Timestamp) -> int {
    (now - period_start) / (SECONDS_PER_YEAR as int)
}

/// End of the epoch that `now` falls into.
pub open spec fn epoch_end(period_start: Timestamp, now: Timestamp) -> int {
    period_start + (years_elapsed(period_start, now) + 1) * SECONDS_PER_YEAR
}

/// Percentage of the staking allocation released in the epoch with the given number: the
/// initial percentage, halved once for every year gone by, and so nothing at all from the
/// seventh year on, however many years have gone by.
pub open spec fn release_percent(years: nat) -> nat {
    INITIAL_REWARD_RATE as nat / pow2(years)
}

/// Reward emitted per second in the epoch with the given number.
pub open spec fn yearly_reward_rate(years: nat) -> nat {
    INITIAL_SUPPLY as nat * STAKING_ALLOCATION as nat * release_percent(years) / (100 * 100
        * SECONDS_PER_YEAR as nat)
}

/// Whether the schedule can be worked out at `now`: time has not run backwards past the start
/// of the pool, and the end of the current epoch is a time the host can express.
pub open spec fn schedule_defined(period_start: Timestamp, now: Timestamp) -> bool {
    period_start <= now && epoch_end(period_start, now) <= Timestamp::MAX
}

/// The current epoch ends after `now` and not before the pool started.
pub proof fn lemma_epoch_end_after_now(period_start: Timestamp, now: Timestamp)
    requires
        period_start <= now,
    ensures
        now < epoch_end(period_start, now),
        epoch_end(period_start, now) <= now + SECONDS_PER_YEAR,
        0 <= years_elapsed(period_start, now),
{
    let elapsed = now - period_start;
    lemma_fundamental_div_mod(elapsed, SECONDS_PER_YEAR as int);
}

/// From the seventh epoch on nothing is released any more; before, between 1 and 50 percent.
pub proof fn lemma_release_percent_bounds(years: nat)
    ensures
        release_percent(years) <= INITIAL_REWARD_RATE,
        years >= 6 ==> release_percent(years) == 0,
        years < 6 ==> release_percent(years) >= 1,
{
    lemma2_to64();
    lemma_pow2_pos(years);
    if years >= 6 {
        if years > 6 {
            lemma_pow2_strictly_increases(6, years);
        }
        lemma_basic_div(INITIAL_REWARD_RATE as int, pow2(years) as int);
    } else {
        if years < 5 {
            lemma_pow2_strictly_increases(years, 5);
        }
        lemma_div_is_ordered_by_denominator(INITIAL_REWARD_RATE as int, pow2(years) as int, 32);
    }
    lemma_div_is_ordered_by_denominator(INITIAL_REWARD_RATE as int, 1, pow2(years) as int);
}

/// The rate never exceeds that of the first epoch.
pub proof fn lemma_yearly_reward_rate_bound(years: nat)
    ensures
        yearly_reward_rate(years) <= 11_098_427_194_317_605_276,
        years >= 6 ==> yearly_reward_rate(years) == 0,
{
    lemma_release_percent_bounds(years);
    let p = release_percent(years);
    let base = INITIAL_SUPPLY as nat * STAKING_ALLOCATION as nat;
    assert(base * p <= base * 50) by (nonlinear_arith)
        requires
            p <= 50,
    ;
    lemma_div_is_ordered((base * p) as int, (base * 50) as int, 100 * 100 * SECONDS_PER_YEAR as int);
    assert(base * 50 / 315_360_000_000 == 11_098_427_194_317_605_276);
    if years >= 6 {
        assert(base * p == 0) by (nonlinear_arith)
            requires
                p == 0,
        ;
    }
}

/// Percentage released in the epoch with the given number.
pub fn release_percent_for(years_elapsed: u64) -> (percent: u128)
    ensures
        percent == release_percent(years_elapsed as nat),
{
    proof {
        lemma_release_percent_bounds(years_elapsed as nat);
    }
    if years_elapsed >= 128 {
        0
    } else {
        proof {
            lemma_u128_shr_is_div(INITIAL_REWARD_RATE, years_elapsed as u128);
        }
        INITIAL_REWARD_RATE >> (years_elapsed as u128)
    }
}

/// Reward emitted per second in the epoch with the given number.
pub fn reward_rate_for(years_elapsed: u64) -> (rate: Balance)
    ensures
        rate == yearly_reward_rate(years_elapsed as nat),
{
    let percent = release_percent_for(years_elapsed);
    proof {
        lemma_release_percent_bounds(years_elapsed as nat);
    }
    let allocation: u128 = INITIAL_SUPPLY * STAKING_ALLOCATION;
    assert(allocation * percent <= allocation * 50) by (nonlinear_arith)
        requires
            percent <= 50,
    ;
    let released: u128 = allocation * percent;
    proof {
        lemma_div_denominator(released as int, 100, 100);
        lemma_div_denominator(released as int, 10_000, SECONDS_PER_YEAR as int);
    }
    released / 100 / 100 / (SECONDS_PER_YEAR as u128)
}

/// Works out the epoch that `now` falls into: when it ends, and the reward emitted per second
/// while it lasts.
///
/// Fails with `OverflowError`, and only then, where `now` lies before the start of the pool
/// or the end of the epoch lies beyond the last time the host can express.
pub fn epoch_schedule(period_start: Timestamp, now: Timestamp) -> (schedule: Result<
    (Timestamp, Balance),
    StakingError,
>)
    ensures
        schedule is Ok <==> schedule_defined(period_start, now),
        schedule matches Ok((period_finish, reward_rate)) ==> {
            &&& period_finish == epoch_end(period_start, now)
            &&& reward_rate == yearly_reward_rate(years_elapsed(period_start, now) as nat)
        },
        schedule matches Err(e) ==> e == StakingError::OverflowError,
{
    let elapsed = match now.checked_sub(period_start) {
        Some(elapsed) => elapsed,
        None => {
            return Err(StakingError::OverflowError);
        },
    };
    let years: u64 = elapsed / SECONDS_PER_YEAR;
    proof {
        lemma_epoch_end_after_now(period_start, now);
    }
    let epochs: u64 = years + 1;
    let seconds = match epochs.checked_mul(SECONDS_PER_YEAR) {
        Some(seconds) => seconds,
        None => {
            return Err(StakingError::OverflowError);
        },
    };
    let period_finish = match period_start.checked_add(seconds) {
        Some(period_finish) => period_finish,
        None => {
            return Err(StakingError::OverflowError);
        },
    };
    Ok((period_finish, reward_rate_for(years)))
}

} // verus!
