//! Lockup durations and the power that locked funds carry.
use vstd::prelude::*;

verus! {

/// One month-equivalent tier, in nanoseconds.
pub const ONE_MONTH_IN_NANOS: u64 = 2629746000000000;

pub const THREE_MONTHS_IN_NANOS: u64 = ONE_MONTH_IN_NANOS * 3;

pub const SIX_MONTHS_IN_NANOS: u64 = ONE_MONTH_IN_NANOS * 6;

pub const TWELVE_MONTHS_IN_NANOS: u64 = ONE_MONTH_IN_NANOS * 12;

/// The lock durations that may be chosen: one, three, six or twelve tiers.
pub open spec fn is_valid_lock_duration(d: u64) -> bool {
    d == ONE_MONTH_IN_NANOS || d == THREE_MONTHS_IN_NANOS || d == SIX_MONTHS_IN_NANOS
        || d == TWELVE_MONTHS_IN_NANOS
}

/// Power of `raw` locked funds that stay locked for `remaining` more
/// nanoseconds: x1 up to one tier, x1.5 up to three, x2 up to six, x4 beyond.
/// Funds that are no longer locked carry no power.
pub open spec fn scaled_power(remaining: int, raw: int) -> int {
    if remaining <= 0 {
        0
    } else if remaining > SIX_MONTHS_IN_NANOS {
        raw * 4
    } else if remaining > THREE_MONTHS_IN_NANOS {
        raw * 2
    } else if remaining > ONE_MONTH_IN_NANOS {
        raw + raw / 2
    } else {
        raw
    }
}

/// Whether `d` is one of the accepted lock durations.
pub fn valid_lock_duration(d: u64) -> (r: bool)
    ensures
        r == is_valid_lock_duration(d),
{
    d == ONE_MONTH_IN_NANOS || d == THREE_MONTHS_IN_NANOS || d == SIX_MONTHS_IN_NANOS
        || d == TWELVE_MONTHS_IN_NANOS
}

/// Scales `raw_power` by the tier that `lockup_time` (the time still locked,
/// positive) falls in; `None` where the result does not fit in a `u128`.
pub fn scale_lockup_power(lockup_time: u64, raw_power: u128) -> (r: Option<u128>)
    requires
        lockup_time > 0,
    ensures
        r == (if scaled_power(lockup_time as int, raw_power as int) <= u128::MAX {
            Some(scaled_power(lockup_time as int, raw_power as int) as u128)
        } else {
            None
        }),
{
    if lockup_time > SIX_MONTHS_IN_NANOS {
        raw_power.checked_mul(4)
    } else if lockup_time > THREE_MONTHS_IN_NANOS {
        raw_power.checked_mul(2)
    } else if lockup_time > ONE_MONTH_IN_NANOS {
        raw_power.checked_add(raw_power / 2)
    } else {
        Some(raw_power)
    }
}

} // verus!
