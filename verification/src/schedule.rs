//! When the daily price collection runs: once a day at a set local time,
//! and at start-up when the day's prices are not in yet.
use vstd::prelude::*;
use crate::text::{decimal, push_decimal, string_of};
use chrono::Timelike;

verus! {

/// Seconds in a day.
pub const DAY_SECS: u64 = 86400;

/// `chrono::Local::now` read through `Timelike::hour`, `minute` and
/// `second`: the local time of day. Only the ranges that chrono documents
/// for each (0 to 23, 0 to 59, 0 to 59) are stated.
#[verifier::external_body]
fn local_time_of_day() -> (hms: (u32, u32, u32))
    ensures
        hms.0 < 24,
        hms.1 < 60,
        hms.2 < 60,
{
    let now = chrono::Local::now();
    (now.hour(), now.minute(), now.second())
}

/// The second of the day of the target time `hour:minute`, or of 11:00
/// where that is not a time of day.
pub open spec fn target_second(hour: u32, minute: u32) -> int {
    if hour < 24 && minute < 60 {
        hour * 3600 + minute * 60
    } else {
        (11 * 3600) as int
    }
}

/// The wait from second `now` of the day until the next target time: later
/// today where it is still ahead, else at that time tomorrow.
pub open spec fn wait_secs(now: int, target: int) -> int {
    if now < target {
        target - now
    } else {
        DAY_SECS - now + target
    }
}

/// The wait, in seconds, from second `now` of the day until the next
/// `hour:minute`.
pub fn seconds_until_target(now: u32, hour: u32, minute: u32) -> (w: u64)
    requires
        now < DAY_SECS,
    ensures
        w == wait_secs(now as int, target_second(hour, minute)),
{
    let target: u64 = if hour < 24 && minute < 60 {
        hour as u64 * 3600 + minute as u64 * 60
    } else {
        11 * 3600
    };
    let now = now as u64;
    if now < target {
        target - now
    } else {
        DAY_SECS - now + target
    }
}

/// The second of the day of the clock reading `h:m:s`.
pub open spec fn clock_second(h: int, m: int, s: int) -> int {
    h * 3600 + m * 60 + s
}

/// The wait, in seconds, from the clock reading `h:m:s` until the next
/// `hour:minute`.
pub fn wait_from_clock(h: u32, m: u32, s: u32, hour: u32, minute: u32) -> (w: u64)
    requires
        h < 24,
        m < 60,
        s < 60,
    ensures
        w == wait_secs(clock_second(h as int, m as int, s as int), target_second(hour, minute)),
{
    let now = h * 3600 + m * 60 + s;
    seconds_until_target(now, hour, minute)
}

/// The wait, in seconds, until the next `hour:minute` on the local clock.
pub fn duration_until_next_target(hour: u32, minute: u32) -> (w: u64)
    ensures
        exists|now: int| 0 <= now < DAY_SECS && w == wait_secs(now, target_second(hour, minute)),
        exists|h: int, m: int, s: int|
            0 <= h < 24 && 0 <= m < 60 && 0 <= s < 60 && w == wait_secs(
                clock_second(h, m, s),
                target_second(hour, minute),
            ),
{
    let (h, m, s) = local_time_of_day();
    wait_from_clock(h, m, s, hour, minute)
}

/// From the clock reading `h:m:s` the wait lands on `hour:minute`: the
/// reading plus the wait is that time of day, a day being 86400 seconds of
/// which an hour has 3600 and a minute 60; the wait is within one day; and
/// where the target is still ahead today the wait is the time left to it.
pub proof fn law_clock_wait_lands(h: int, m: int, s: int, hour: u32, minute: u32)
    requires
        0 <= h < 24,
        0 <= m < 60,
        0 <= s < 60,
        hour < 24,
        minute < 60,
    ensures
        0 < wait_secs(clock_second(h, m, s), target_second(hour, minute)) <= 86400,
        (h * 3600 + m * 60 + s + wait_secs(clock_second(h, m, s), target_second(hour, minute))) % 86400
            == hour * 3600 + minute * 60,
        h * 3600 + m * 60 + s < hour * 3600 + minute * 60 ==> wait_secs(
            clock_second(h, m, s),
            target_second(hour, minute),
        ) == (hour * 3600 + minute * 60) - (h * 3600 + m * 60 + s),
{
    assert(0 <= clock_second(h, m, s) < DAY_SECS) by (nonlinear_arith)
        requires
            0 <= h < 24,
            0 <= m < 60,
            0 <= s < 60,
    {
    }
    law_wait_lands_on_target(clock_second(h, m, s), hour, minute);
}

/// The next collection comes after at least one second and at most a day,
/// and lands exactly on the target time of day.
pub proof fn law_wait_lands_on_target(now: int, hour: u32, minute: u32)
    requires
        0 <= now < DAY_SECS,
    ensures
        0 < wait_secs(now, target_second(hour, minute)) <= DAY_SECS,
        (now + wait_secs(now, target_second(hour, minute))) % (DAY_SECS as int) == target_second(hour, minute),
{
    let t = target_second(hour, minute);
    assert(0 <= t < DAY_SECS);
    if now < t {
        vstd::arithmetic::div_mod::lemma_small_mod(t as nat, DAY_SECS as nat);
    } else {
        vstd::arithmetic::div_mod::lemma_mod_add_multiples_vanish(t, DAY_SECS as int);
        vstd::arithmetic::div_mod::lemma_small_mod(t as nat, DAY_SECS as nat);
    }
}

/// `"{hours}h{minutes}m"` for a wait of `secs` seconds, the minutes being
/// those left over after the whole hours.
pub fn format_duration(secs: u64) -> (s: String)
    ensures
        s@ == decimal((secs / 3600) as nat) + seq!['h'] + decimal(((secs % 3600) / 60) as nat) + seq!['m'],
{
    let mut v: Vec<char> = Vec::new();
    push_decimal(&mut v, secs / 3600);
    v.push('h');
    push_decimal(&mut v, (secs % 3600) / 60);
    v.push('m');
    assert(v@ =~= decimal((secs / 3600) as nat) + seq!['h'] + decimal(((secs % 3600) / 60) as nat) + seq!['m']);
    string_of(v.as_slice())
}

} // verus!
