//! The quota policy: when does a giver's daily allowance reset?
//!
//! A giver's two quota counters (one per polarity) expire at the first
//! midnight (UTC) after the calendar day of the giver's last successful
//! direct grant.  Expiration is a strict comparison: at the midnight
//! instant itself the quota is still in force.

use vstd::prelude::*;

verus! {

/// Grants of the Up polarity available to a giver each day.
pub const DEFAULT_UP: i64 = 6;

/// Grants of the Down polarity available to a giver each day.
pub const DEFAULT_DOWN: i64 = 2;

/// Most history samples retained per receiver.
pub const GRAPH_MAX_SIZE: usize = 100;

/// Seconds in a calendar day (UTC, no leap seconds).
pub const DAY_SECONDS: i64 = 86400;

/// The Unix timestamp of the midnight that follows the calendar day
/// containing `t`.
pub open spec fn midnight_after(t: int) -> int {
    (t / 86400 + 1) * 86400
}

/// Whether the daily allowance of a giver whose last grant happened at
/// `last` has expired by wall-clock instant `now`.  Strict: at the midnight
/// boundary itself the quota has not yet expired.
pub open spec fn quota_expired_at(last: int, now: int) -> bool {
    now > midnight_after(last)
}

/// Decides quota expiration for a given wall-clock instant.
///
/// Total over all of `i64`: the day index is computed with Euclidean
/// division, so timestamps before 1970 are handled like any others.
pub fn is_assignable_karma_expired_at(last: i64, now: i64) -> (r: bool)
    ensures
        r == quota_expired_at(last as int, now as int),
{
    let last_day: i64 = match last.checked_div_euclid(DAY_SECONDS) {
        Some(q) => q,
        None => 0,  // unreachable: the divisor is a positive constant
    };
    let now_day: i64 = match now.checked_div_euclid(DAY_SECONDS) {
        Some(q) => q,
        None => 0,  // unreachable: the divisor is a positive constant
    };
    let now_rem: i64 = match now.checked_rem_euclid(DAY_SECONDS) {
        Some(m) => m,
        None => 0,  // unreachable: the divisor is a positive constant
    };
    proof {
        vstd::arithmetic::div_mod::lemma_fundamental_div_mod(now as int, 86400);
        vstd::arithmetic::div_mod::lemma_mod_bound(now as int, 86400);
    }
    now_day > last_day + 1 || (now_day == last_day + 1 && now_rem > 0)
}

/// Relies on chrono::Utc::now and DateTime::timestamp: the wall clock,
/// read as non-leap seconds since the Unix epoch.  Nothing is assumed of
/// the value it returns.
#[verifier::external_body]
pub fn current_timestamp() -> (r: i64)
{
    chrono::Utc::now().timestamp()
}

/// Decides quota expiration against the wall clock.  What it returns
/// depends on the instant the clock reports; the relation between that
/// instant and the result is pinned down by
/// `is_assignable_karma_expired_at`, which this calls.
pub fn is_assignable_karma_expired(timestamp: i64) -> bool {
    let now: i64 = current_timestamp();
    is_assignable_karma_expired_at(timestamp, now)
}

} // verus!
