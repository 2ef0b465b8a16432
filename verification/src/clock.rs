//! Points in time and generations of index entries.
use vstd::prelude::*;

verus! {

/// The time from 1601, from which the operating system counts, to 1970 in steps of 100 ns.
pub const WINDOWS_TO_UNIX_EPOCH_100NS: i128 = 116_444_736_000_000_000;

/// Division that rounds towards zero.
pub open spec fn truncated_quotient(dividend: int, divisor: int) -> int {
    if dividend >= 0 {
        dividend / divisor
    } else {
        -((-dividend) / divisor)
    }
}

/// The milliseconds since 1970 as they are stored, where they fit.
pub fn system_time_to_ms(since_epoch_ms: u128) -> (result: Option<i64>)
    ensures
        result == if since_epoch_ms <= i64::MAX {
            Some(since_epoch_ms as i64)
        } else {
            None
        },
{
    if since_epoch_ms <= i64::MAX as u128 {
        Some(since_epoch_ms as i64)
    } else {
        None
    }
}

/// The present in milliseconds since 1970; zero where the clock stands before 1970 or beyond what
/// can be stored.
pub fn current_unix_ms(since_epoch_ms: Option<u128>) -> (now: i64)
    ensures
        now == match since_epoch_ms {
            Some(ms) if ms <= i64::MAX => ms as i64,
            _ => 0,
        },
{
    match since_epoch_ms {
        Some(ms) => match system_time_to_ms(ms) {
            Some(now) => now,
            None => 0,
        },
        None => 0,
    }
}

/// The milliseconds since 1970 of a file time, which counts steps of 100 ns since 1601.
pub open spec fn unix_ms_of_filetime(filetime: i64) -> i64 {
    truncated_quotient(filetime - 116_444_736_000_000_000, 10_000) as i64
}

/// The milliseconds since 1970 of a file time. Every file time has some.
pub fn filetime_to_unix_ms(filetime: i64) -> (result: Option<i64>)
    ensures
        result == Some(unix_ms_of_filetime(filetime)),
{
    let offset: i128 = filetime as i128 - WINDOWS_TO_UNIX_EPOCH_100NS;
    if offset >= 0 {
        Some((offset / 10_000) as i64)
    } else {
        let back: i128 = -offset;
        Some(-((back / 10_000) as i64))
    }
}

/// The generation after `last`: the present, or the next number where the present is not later.
pub open spec fn following_generation(last: i64, now: i64) -> i64 {
    let next = if last < i64::MAX {
        (last + 1) as i64
    } else {
        last
    };
    if now >= next {
        now
    } else {
        next
    }
}

/// The generation after `last`.
pub fn next_generation(last: i64, now: i64) -> (generation: i64)
    ensures
        generation == following_generation(last, now),
{
    let next: i64 = if last < i64::MAX {
        last + 1
    } else {
        last
    };
    if now >= next {
        now
    } else {
        next
    }
}

/// A generation is later than the one before it, as long as there is a later number.
pub proof fn law_generations_grow(last: i64, now: i64)
    requires
        last < i64::MAX,
    ensures
        following_generation(last, now) > last,
        following_generation(last, now) >= now,
{
}

/// File times count from 1601 in steps of 100 ns: 1970 is at zero, ten thousand steps are one
/// millisecond, and a later file time is not before an earlier one.
pub proof fn law_file_times_are_counted_in_steps(filetime: i64, later: i64)
    ensures
        unix_ms_of_filetime(116_444_736_000_000_000) == 0,
        filetime >= 116_444_736_000_000_000 && filetime <= i64::MAX - 10_000 ==> unix_ms_of_filetime(
            (filetime + 10_000) as i64,
        ) == unix_ms_of_filetime(filetime) + 1,
        filetime < 116_444_736_000_000_000 && filetime >= i64::MIN + 10_000 ==> unix_ms_of_filetime(
            (filetime - 10_000) as i64,
        ) == unix_ms_of_filetime(filetime) - 1,
        filetime <= later ==> unix_ms_of_filetime(filetime) <= unix_ms_of_filetime(later),
        filetime >= 116_444_736_000_000_000 ==> 0 <= filetime - 116_444_736_000_000_000
            - unix_ms_of_filetime(filetime) * 10_000 < 10_000,
        filetime < 116_444_736_000_000_000 ==> -10_000 < filetime - 116_444_736_000_000_000
            - unix_ms_of_filetime(filetime) * 10_000 <= 0,
{
}

/// The next generation is the present where that is later than the last one, and else the one
/// after the last.
pub proof fn law_next_generation_is_the_present_or_the_next(last: i64, now: i64)
    ensures
        now > last ==> following_generation(last, now) == now,
        now <= last && last < i64::MAX ==> following_generation(last, now) == last + 1,
{
}

} // verus!
