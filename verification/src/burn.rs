//! Burn rate and projection for the active block.
//!
//! All rates are integer and truncating: whole minutes elapsed, whole tokens
//! per minute, cost in the caller's minor unit. The projection extrapolates
//! the current rate linearly to the end of the five-hour window; too little
//! elapsed time, or a zero rate, makes the optional parts absent rather than
//! erroneous.

use vstd::prelude::*;

use crate::models::BurnRate;
use crate::models::SessionBlock;
use crate::models::TimeUntilLimit;
use crate::timeline::MINUTE_MS;
use crate::timeline::WINDOW_MINUTES;

verus! {

/// Whole minutes between the block's start and `now`, truncated.
pub open spec fn spec_elapsed_minutes(start: int, now: int) -> int {
    (now - start) / (MINUTE_MS as int)
}

/// Tokens consumed per elapsed minute, truncated.
pub open spec fn spec_tokens_per_minute(total_tokens: int, elapsed: int) -> int
    recommends
        elapsed > 0,
{
    total_tokens / elapsed
}

/// Cost consumed per hour at the observed rate, truncated.
pub open spec fn spec_cost_per_hour(total_cost: int, elapsed: int) -> int
    recommends
        elapsed > 0,
{
    (total_cost * 60) / elapsed
}

/// Tokens consumed by the end of the window if the rate holds; once the
/// window has nominally closed, the actuals themselves.
pub open spec fn spec_projected_tokens(total_tokens: int, elapsed: int) -> int
    recommends
        elapsed > 0,
{
    if elapsed < WINDOW_MINUTES {
        total_tokens + spec_tokens_per_minute(total_tokens, elapsed) * (WINDOW_MINUTES - elapsed)
    } else {
        total_tokens
    }
}

/// Cost by the end of the window if the rate holds; once the window has
/// nominally closed, the actuals themselves.
pub open spec fn spec_projected_cost(total_cost: int, elapsed: int) -> int
    recommends
        elapsed > 0,
{
    if elapsed < WINDOW_MINUTES {
        total_cost + (spec_cost_per_hour(total_cost, elapsed) * (WINDOW_MINUTES - elapsed)) / 60
    } else {
        total_cost
    }
}

/// Tokens left under the budget, saturating at zero when the budget is
/// already spent.
pub open spec fn spec_tokens_remaining(total_tokens: int, budget: int) -> int {
    if budget > total_tokens {
        budget - total_tokens
    } else {
        0
    }
}

/// Whole minutes until the budget runs out at the current rate.
pub open spec fn spec_minutes_until_limit(total_tokens: int, elapsed: int, budget: int) -> int
    recommends
        elapsed > 0,
        spec_tokens_per_minute(total_tokens, elapsed) > 0,
{
    spec_tokens_remaining(total_tokens, budget) / spec_tokens_per_minute(total_tokens, elapsed)
}

/// `br` is exactly the burn rate of a block with the given totals after
/// `elapsed` whole minutes, against `budget`: every field pinned, and the
/// time-until-limit present exactly when the token rate is positive.
pub open spec fn burn_rate_matches(
    br: BurnRate,
    total_tokens: int,
    total_cost: int,
    elapsed: int,
    budget: int,
) -> bool {
    &&& br.elapsed_minutes == elapsed
    &&& br.tokens_per_minute == spec_tokens_per_minute(total_tokens, elapsed)
    &&& br.cost_per_hour == spec_cost_per_hour(total_cost, elapsed)
    &&& br.projected_tokens == spec_projected_tokens(total_tokens, elapsed)
    &&& br.projected_cost == spec_projected_cost(total_cost, elapsed)
    &&& (spec_tokens_per_minute(total_tokens, elapsed) > 0 ==> (br.time_until_limit matches Some(t)
        && t.minutes == spec_minutes_until_limit(total_tokens, elapsed, budget)))
    &&& (spec_tokens_per_minute(total_tokens, elapsed) <= 0 ==> br.time_until_limit is None)
}

/// Computes the burn rate of the active block at instant `now` against
/// `token_budget`, or nothing when no more than one whole minute has
/// elapsed. The totals must leave the headroom that a worst-case linear
/// projection needs to stay inside a `u64`.
pub fn project(block: &SessionBlock, now: u64, token_budget: u64) -> (r: Option<BurnRate>)
    requires
        block.start_time <= now,
        block.total_tokens <= u64::MAX / 150,
        block.total_cost <= u64::MAX / 150,
    ensures
        r is Some <==> spec_elapsed_minutes(block.start_time as int, now as int) > 1,
        r matches Some(br) ==> burn_rate_matches(
            br,
            block.total_tokens as int,
            block.total_cost as int,
            spec_elapsed_minutes(block.start_time as int, now as int),
            token_budget as int,
        ),
{
    let elapsed: u64 = (now - block.start_time) / MINUTE_MS;
    if elapsed <= 1 {
        return None;
    }
    let total_tokens = block.total_tokens;
    let total_cost = block.total_cost;
    let ghost te = total_tokens as int;
    let ghost ce = total_cost as int;
    let ghost el = elapsed as int;

    proof {
        // Dividing by at least two minutes halves the totals; 298 remaining
        // minutes at most then keep every projection under 150 times the
        // totals, which the headroom admits.
        vstd::arithmetic::div_mod::lemma_div_is_ordered_by_denominator(te, 2, el);
        vstd::arithmetic::div_mod::lemma_fundamental_div_mod(te, 2);
        vstd::arithmetic::div_mod::lemma_mod_pos_bound(te, 2);
        vstd::arithmetic::div_mod::lemma_div_pos_is_pos(te, el);
        assert((u64::MAX / 150) as int * 150 <= u64::MAX as int) by {
            vstd::arithmetic::div_mod::lemma_fundamental_div_mod(u64::MAX as int, 150);
            vstd::arithmetic::div_mod::lemma_mod_pos_bound(u64::MAX as int, 150);
            vstd::arithmetic::mul::lemma_mul_is_commutative((u64::MAX / 150) as int, 150);
        }
        vstd::arithmetic::mul::lemma_mul_inequality(te, (u64::MAX / 150) as int, 150);
        assert(te * 150 <= u64::MAX);
        vstd::arithmetic::mul::lemma_mul_inequality(ce, (u64::MAX / 150) as int, 150);
        assert(ce * 150 <= u64::MAX);
    }

    let tokens_per_minute: u64 = total_tokens / elapsed;
    proof {
        assert(tokens_per_minute <= te / 2);
    }

    let cost_per_hour: u64 = {
        proof {
            assert(ce * 60 <= ce * 150) by {
                vstd::arithmetic::mul::lemma_mul_inequality(60, 150, ce);
                vstd::arithmetic::mul::lemma_mul_is_commutative(ce, 60);
                vstd::arithmetic::mul::lemma_mul_is_commutative(ce, 150);
            }
            vstd::arithmetic::div_mod::lemma_div_is_ordered_by_denominator(ce * 60, 2, el);
            vstd::arithmetic::div_mod::lemma_div_pos_is_pos(ce * 60, el);
            vstd::arithmetic::mul::lemma_mul_nonnegative(ce, 60);
        }
        (total_cost * 60) / elapsed
    };
    proof {
        assert(cost_per_hour <= (ce * 60) / 2);
        vstd::arithmetic::div_mod::lemma_breakdown(ce, 60, 2);
        assert((ce * 60) / 2 == ce * 30) by {
            vstd::arithmetic::div_mod::lemma_div_multiples_vanish(ce * 30, 2);
            vstd::arithmetic::mul::lemma_mul_is_associative(ce, 30, 2);
        }
    }

    let projected_tokens: u64 = if elapsed < WINDOW_MINUTES {
        let remaining = WINDOW_MINUTES - elapsed;
        proof {
            vstd::arithmetic::mul::lemma_mul_upper_bound(
                tokens_per_minute as int,
                te / 2,
                remaining as int,
                298,
            );
            assert((te / 2) * 298 <= te * 149) by {
                assert((te / 2) * 2 <= te);
                vstd::arithmetic::mul::lemma_mul_inequality((te / 2) * 2, te, 149);
                vstd::arithmetic::mul::lemma_mul_is_associative(te / 2, 2, 149);
            }
            vstd::arithmetic::mul::lemma_mul_nonnegative(tokens_per_minute as int, remaining as int);
        }
        total_tokens + tokens_per_minute * remaining
    } else {
        total_tokens
    };

    let projected_cost: u64 = if elapsed < WINDOW_MINUTES {
        let remaining = WINDOW_MINUTES - elapsed;
        proof {
            vstd::arithmetic::mul::lemma_mul_upper_bound(
                cost_per_hour as int,
                ce * 30,
                remaining as int,
                298,
            );
            assert(ce * 30 * 298 == ce * 8940) by {
                vstd::arithmetic::mul::lemma_mul_is_associative(ce, 30, 298);
            }
            vstd::arithmetic::div_mod::lemma_div_is_ordered(
                cost_per_hour as int * remaining as int,
                ce * 8940,
                60,
            );
            assert(ce * 8940 / 60 == ce * 149) by {
                vstd::arithmetic::mul::lemma_mul_is_associative(ce, 149, 60);
                vstd::arithmetic::div_mod::lemma_div_multiples_vanish(ce * 149, 60);
            }
            vstd::arithmetic::mul::lemma_mul_nonnegative(cost_per_hour as int, remaining as int);
            vstd::arithmetic::div_mod::lemma_div_pos_is_pos(
                cost_per_hour as int * remaining as int,
                60,
            );
            vstd::arithmetic::mul::lemma_mul_inequality(ce, (u64::MAX / 150) as int, 8940);
            assert((u64::MAX / 150) as int * 8940 <= u128::MAX as int) by {
                vstd::arithmetic::div_mod::lemma_fundamental_div_mod(u64::MAX as int, 150);
                vstd::arithmetic::div_mod::lemma_mod_pos_bound(u64::MAX as int, 150);
            };
        }
        let extra_wide: u128 = (cost_per_hour as u128 * remaining as u128) / 60;
        let extra: u64 = extra_wide as u64;
        total_cost + extra
    } else {
        total_cost
    };

    let time_until_limit: Option<TimeUntilLimit> = if tokens_per_minute > 0 {
        let tokens_remaining = if token_budget > total_tokens {
            token_budget - total_tokens
        } else {
            0
        };
        let minutes = tokens_remaining / tokens_per_minute;
        Some(TimeUntilLimit { minutes })
    } else {
        None
    };

    Some(BurnRate {
        elapsed_minutes: elapsed,
        tokens_per_minute,
        cost_per_hour,
        projected_tokens,
        projected_cost,
        time_until_limit,
    })
}

/// Saturation law: once the totals have reached the budget, no tokens
/// remain, and the time until the limit is zero minutes.
pub proof fn lemma_budget_saturation(total_tokens: int, elapsed: int, budget: int)
    requires
        elapsed > 1,
        spec_tokens_per_minute(total_tokens, elapsed) > 0,
        total_tokens >= budget,
    ensures
        spec_tokens_remaining(total_tokens, budget) == 0,
        spec_minutes_until_limit(total_tokens, elapsed, budget) == 0,
{
    vstd::arithmetic::div_mod::lemma_div_of0(spec_tokens_per_minute(total_tokens, elapsed));
}

/// Saturation law at the value level: a burn rate computed for totals at or
/// over the budget reports zero minutes until the limit.
pub proof fn lemma_project_saturation(
    br: BurnRate,
    total_tokens: int,
    total_cost: int,
    elapsed: int,
    budget: int,
)
    requires
        elapsed > 1,
        burn_rate_matches(br, total_tokens, total_cost, elapsed, budget),
        spec_tokens_per_minute(total_tokens, elapsed) > 0,
        total_tokens >= budget,
    ensures
        br.time_until_limit matches Some(t) && t.minutes == 0,
{
    lemma_budget_saturation(total_tokens, elapsed, budget);
}

} // verus!
