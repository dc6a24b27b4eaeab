//! Instants and the hour-anchoring rule.
//!
//! An instant is a `u64`: milliseconds since the Unix epoch, UTC. Because the
//! epoch falls on an hour boundary and UTC days are a whole number of hours,
//! flooring an instant to the top of its hour is plain modular arithmetic.

use vstd::prelude::*;

verus! {

/// Length of one billing window, in hours.
pub const SESSION_DURATION_HOURS: u64 = 5;

/// Milliseconds in one hour.
pub const HOUR_MS: u64 = 3_600_000;

/// Milliseconds in one minute.
pub const MINUTE_MS: u64 = 60_000;

/// Length of one billing window, in milliseconds.
pub const WINDOW_MS: u64 = SESSION_DURATION_HOURS * HOUR_MS;

/// Length of one billing window, in whole minutes.
pub const WINDOW_MINUTES: u64 = 300;

/// Largest instant a record may carry: one window past it must still fit in
/// a `u64`.
pub const MAX_TIMESTAMP_MS: u64 = u64::MAX - WINDOW_MS;

/// The top of the hour containing instant `t`: minutes, seconds and
/// sub-second parts zeroed, date and hour kept.
pub open spec fn spec_floor_to_hour(t: int) -> int {
    t - t % (HOUR_MS as int)
}

/// Floors an instant to the top of its hour.
pub fn floor_to_hour(timestamp: u64) -> (r: u64)
    ensures
        r == spec_floor_to_hour(timestamp as int),
        r % HOUR_MS == 0,
        r <= timestamp,
        timestamp - r < HOUR_MS,
{
    proof {
        lemma_floor_to_hour_bounds(timestamp as int);
    }
    timestamp - timestamp % HOUR_MS
}

/// The floored instant is hour-aligned and sits at most one hour below `t`.
pub proof fn lemma_floor_to_hour_bounds(t: int)
    requires
        t >= 0,
    ensures
        spec_floor_to_hour(t) % (HOUR_MS as int) == 0,
        0 <= spec_floor_to_hour(t) <= t,
        t - spec_floor_to_hour(t) < HOUR_MS,
{
    let h = HOUR_MS as int;
    vstd::arithmetic::div_mod::lemma_fundamental_div_mod(t, h);
    vstd::arithmetic::div_mod::lemma_mod_pos_bound(t, h);
    assert(spec_floor_to_hour(t) == (t / h) * h);
    vstd::arithmetic::div_mod::lemma_div_pos_is_pos(t, h);
    vstd::arithmetic::mul::lemma_mul_nonnegative(t / h, h);
    vstd::arithmetic::div_mod::lemma_mod_multiples_basic(t / h, h);
    assert(((t / h) * h) % h == 0);
}

/// Flooring is monotone.
pub proof fn lemma_floor_to_hour_monotone(a: int, b: int)
    requires
        0 <= a <= b,
    ensures
        spec_floor_to_hour(a) <= spec_floor_to_hour(b),
{
    let h = HOUR_MS as int;
    vstd::arithmetic::div_mod::lemma_fundamental_div_mod(a, h);
    vstd::arithmetic::div_mod::lemma_fundamental_div_mod(b, h);
    vstd::arithmetic::div_mod::lemma_div_is_ordered(a, b, h);
    vstd::arithmetic::mul::lemma_mul_inequality(a / h, b / h, h);
}

/// An hour-aligned instant is its own floor.
pub proof fn lemma_floor_to_hour_aligned(a: int)
    requires
        a >= 0,
        a % (HOUR_MS as int) == 0,
    ensures
        spec_floor_to_hour(a) == a,
{
}

/// Anything at or past an hour-aligned instant floors to at least it.
pub proof fn lemma_floor_to_hour_at_least(a: int, b: int)
    requires
        0 <= a <= b,
        a % (HOUR_MS as int) == 0,
    ensures
        a <= spec_floor_to_hour(b),
{
    lemma_floor_to_hour_aligned(a);
    lemma_floor_to_hour_monotone(a, b);
}

} // verus!
