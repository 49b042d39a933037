//! The time of day, and how a moment is written down.

use std::time::{SystemTime, UNIX_EPOCH};

use vstd::prelude::*;

use crate::numbers::{push_zero_padded, zero_padded};

verus! {

/// How many nanoseconds a second has.
pub const NANOS_PER_SEC: u128 = 1_000_000_000;

/// How many seconds a day has.
pub const SECS_PER_DAY: u64 = 86_400;

/// `SystemTime::now`, as nanoseconds: `Ok` for those since the Unix epoch, `Err`
/// for those left until it where the clock stands before the epoch. The distance is
/// a `Duration`, so its whole seconds fit in a `u64`. Which moment it is,
/// nothing says.
#[verifier::external_body]
pub(crate) fn unix_nanos() -> (r: Result<u128, u128>)
    ensures
        r is Ok ==> r->Ok_0 < (u64::MAX + 1) * NANOS_PER_SEC,
        r is Err ==> r->Err_0 < (u64::MAX + 1) * NANOS_PER_SEC,
{
    match SystemTime::now().duration_since(UNIX_EPOCH) {
        Ok(since) => Ok(since.as_nanos()),
        Err(before) => Err(before.duration().as_nanos()),
    }
}

/// The whole seconds since the Unix epoch, and none before it.
pub open spec fn whole_secs(now: Result<u128, u128>) -> int {
    match now {
        Ok(nanos) => nanos as int / NANOS_PER_SEC as int,
        Err(_) => 0,
    }
}

/// The whole seconds of a reading of the clock.
pub(crate) fn secs_of(now: Result<u128, u128>) -> (r: u64)
    requires
        now is Ok ==> now->Ok_0 < (u64::MAX + 1) * NANOS_PER_SEC,
    ensures
        r == whole_secs(now),
{
    match now {
        Ok(nanos) => (nanos / NANOS_PER_SEC) as u64,
        Err(_) => 0,
    }
}

// ---------------------------------------------------------------------------
// The calendar
// ---------------------------------------------------------------------------

/// Whether a year of the proleptic Gregorian calendar has a 29th of February.
pub open spec fn is_leap(year: int) -> bool {
    year % 4 == 0 && (year % 100 != 0 || year % 400 == 0)
}

/// How many days a month has.
pub open spec fn days_in_month(year: int, month: int) -> int {
    if month == 2 {
        if is_leap(year) {
            29
        } else {
            28
        }
    } else if month == 4 || month == 6 || month == 9 || month == 11 {
        30
    } else {
        31
    }
}

/// How many days of a year come before a month of it.
pub open spec fn days_before_month(year: int, month: int) -> int
    decreases month,
{
    if month <= 1 {
        0
    } else {
        days_before_month(year, month - 1) + days_in_month(year, month - 1)
    }
}

/// How many days lie between the first day of year 1 and that of another year.
pub open spec fn days_before_year(year: int) -> int {
    365 * (year - 1) + (year - 1) / 4 - (year - 1) / 100 + (year - 1) / 400
}

/// How many days lie between the first day of year 1 and the Unix epoch.
pub const EPOCH_DAYS: i64 = 719_162;

/// Whether a year, a month and a day of the month are a date.
pub open spec fn is_date(year: int, month: int, day: int) -> bool {
    1 <= month <= 12 && 1 <= day <= days_in_month(year, month)
}

/// How many days lie between the Unix epoch and a date.
pub open spec fn day_number(year: int, month: int, day: int) -> int {
    days_before_year(year) + days_before_month(year, month) + day - 1 - EPOCH_DAYS
}

/// The years follow on one another: each is as long as its months are together.
pub proof fn law_years_follow(year: int)
    ensures
        days_before_year(year + 1) - days_before_year(year) == days_before_month(year, 12)
            + days_in_month(year, 12),
{
    reveal_with_fuel(days_before_month, 13);
}

/// A date is the only one of its day: two dates of one day are the same.
pub proof fn law_day_has_one_date(y1: int, m1: int, d1: int, y2: int, m2: int, d2: int)
    requires
        is_date(y1, m1, d1),
        is_date(y2, m2, d2),
        day_number(y1, m1, d1) == day_number(y2, m2, d2),
    ensures
        y1 == y2 && m1 == m2 && d1 == d2,
{
    lemma_in_year(y1, m1, d1);
    lemma_in_year(y2, m2, d2);
    if y1 < y2 {
        lemma_years_grow(y1 + 1, y2);
    } else if y2 < y1 {
        lemma_years_grow(y2 + 1, y1);
    } else {
        reveal_with_fuel(days_before_month, 13);
    }
}

/// A date lies within its year.
proof fn lemma_in_year(year: int, month: int, day: int)
    requires
        is_date(year, month, day),
    ensures
        0 <= day_number(year, month, day) + EPOCH_DAYS - days_before_year(year),
        day_number(year, month, day) + EPOCH_DAYS < days_before_year(year + 1),
{
    law_years_follow(year);
    reveal_with_fuel(days_before_month, 13);
}

/// Later years begin later.
proof fn lemma_years_grow(from: int, to: int)
    requires
        from <= to,
    ensures
        days_before_year(from) <= days_before_year(to),
    decreases to - from,
{
    if from < to {
        lemma_years_grow(from + 1, to);
    }
}

/// The year of a 400-year era, and the day of that year, both counted from the
/// first of March.
proof fn lemma_year_of_era(doe: int, yoe: int, doy: int)
    requires
        0 <= doe <= 146_096,
        yoe == (doe - doe / 1460 + doe / 36_524 - doe / 146_096) / 365,
        doy == doe - (365 * yoe + yoe / 4 - yoe / 100),
    ensures
        0 <= yoe <= 399,
        0 <= doy <= 365,
        doy == 365 ==> is_leap(yoe + 1),
{
}

/// The month and the day of the month, by the day of a year that begins in March.
proof fn lemma_month_of_year(yoe: int, doy: int, mp: int, m: int, d: int)
    requires
        0 <= doy <= 365,
        doy == 365 ==> is_leap(yoe + 1),
        mp == (5 * doy + 2) / 153,
        d == doy - (153 * mp + 2) / 5 + 1,
        m == if mp < 10 {
            mp + 3
        } else {
            mp - 9
        },
    ensures
        1 <= m <= 12,
        m <= 2 ==> is_date(yoe + 1, m, d),
        m <= 2 ==> days_before_month(yoe + 1, m) + d - 1 == doy - 306,
        m > 2 ==> is_date(yoe, m, d),
        m > 2 ==> days_before_month(yoe, m) + d - 1 == doy + 59 + if is_leap(yoe) {
            1int
        } else {
            0int
        },
{
    reveal_with_fuel(days_before_month, 13);
    assert(0 <= mp <= 11);
}

/// How long a year is.
proof fn lemma_year_length(year: int)
    ensures
        days_before_year(year + 1) - days_before_year(year) == 365 + if is_leap(year) {
            1int
        } else {
            0int
        },
{
    law_years_follow(year);
    assert(days_before_month(year, 12) == if is_leap(year) {
        335int
    } else {
        334int
    }) by {
        reveal_with_fuel(days_before_month, 13);
    }
}

/// A calendar year recurs after an era of 400 years.
proof fn lemma_era(era: int, x: int)
    ensures
        is_leap(era * 400 + x) == is_leap(x),
        days_before_year(era * 400 + x) == era * 146_097 + days_before_year(x),
{
    let year = era * 400 + x;
    assert(year % 4 == x % 4);
    assert(year % 100 == x % 100);
    assert(year % 400 == x % 400);
    assert((year - 1) / 4 == era * 100 + (x - 1) / 4);
    assert((year - 1) / 100 == era * 4 + (x - 1) / 100);
    assert((year - 1) / 400 == era + (x - 1) / 400);
}

/// Convert days since the Unix epoch to (year, month, day) in the proleptic
/// Gregorian calendar (Howard Hinnant's civil-from-days algorithm).
pub fn civil_from_days(z: i64) -> (r: (i64, i64, i64))
    requires
        z <= i64::MAX - 719_468,
    ensures
        is_date(r.0 as int, r.1 as int, r.2 as int),
        day_number(r.0 as int, r.1 as int, r.2 as int) == z,
{
    let z: i64 = z + 719_468;
    let era: i64 = if z >= 0 {
        z / 146_097
    } else {
        -((146_096 - z) / 146_097)
    };
    assert(era == z as int / 146_097);
    let doe: i64 = z - era * 146_097;  // [0, 146096]
    let yoe: i64 = (doe - doe / 1460 + doe / 36_524 - doe / 146_096) / 365;  // [0, 399]
    proof {
        lemma_year_of_era(
            doe as int,
            yoe as int,
            doe - (365 * yoe + yoe as int / 4 - yoe as int / 100),
        );
    }
    let y: i64 = yoe + era * 400;
    let doy: i64 = doe - (365 * yoe + yoe / 4 - yoe / 100);  // [0, 365]
    let mp: i64 = (5 * doy + 2) / 153;  // [0, 11]
    let d: i64 = doy - (153 * mp + 2) / 5 + 1;  // [1, 31]
    let m: i64 = if mp < 10 {
        mp + 3
    } else {
        mp - 9
    };  // [1, 12]
    proof {
        lemma_month_of_year(yoe as int, doy as int, mp as int, m as int, d as int);
        lemma_era(era as int, yoe as int);
        lemma_era(era as int, yoe + 1);
        lemma_year_length(yoe as int);
        lemma_same_months(yoe as int, y as int, m as int);
        lemma_same_months(yoe + 1, y + 1, m as int);
        assert(days_before_year(yoe + 1) == 365 * yoe + yoe as int / 4 - yoe as int / 100);
    }
    let year: i64 = if m <= 2 {
        y + 1
    } else {
        y
    };
    (year, m, d)
}

/// Years that agree on the leap day have the same months.
proof fn lemma_same_months(a: int, b: int, month: int)
    requires
        is_leap(a) == is_leap(b),
    ensures
        days_before_month(a, month) == days_before_month(b, month),
        days_in_month(a, month) == days_in_month(b, month),
    decreases month,
{
    if month > 1 {
        lemma_same_months(a, b, month - 1);
    }
}

/// A moment as it is written, e.g. 2026-08-19T23:00:00.
pub open spec fn timestamp(year: nat, month: nat, day: nat, sec: nat) -> Seq<char> {
    zero_padded(year, 4) + seq!['-'] + zero_padded(month, 2) + seq!['-'] + zero_padded(day, 2)
        + seq!['T'] + zero_padded(sec / 3600, 2) + seq![':'] + zero_padded((sec % 3600) / 60, 2)
        + seq![':'] + zero_padded(sec % 60, 2)
}

/// UTC timestamp of a moment given in seconds since the Unix epoch.
pub fn format_timestamp(secs: u64) -> (r: String)
    ensures
        exists|year: nat, month: nat, day: nat|
            #![trigger timestamp(year, month, day, (secs % SECS_PER_DAY) as nat)]
            {
                &&& is_date(year as int, month as int, day as int)
                &&& day_number(year as int, month as int, day as int) == secs / SECS_PER_DAY
                &&& r@ == timestamp(year, month, day, (secs % SECS_PER_DAY) as nat)
            },
{
    let days: i64 = (secs / SECS_PER_DAY) as i64;
    let (y, mo, d): (i64, i64, i64) = civil_from_days(days);
    let rem: u64 = secs % SECS_PER_DAY;
    proof {
        lemma_in_year(y as int, mo as int, d as int);
        if y < 1970 {
            lemma_years_grow(y + 1, 1970);
        }
    }
    let mut r = String::new();
    push_zero_padded(&mut r, y as u64, 4);
    r.push('-');
    push_zero_padded(&mut r, mo as u64, 2);
    r.push('-');
    push_zero_padded(&mut r, d as u64, 2);
    r.push('T');
    push_zero_padded(&mut r, rem / 3600, 2);
    r.push(':');
    push_zero_padded(&mut r, (rem % 3600) / 60, 2);
    r.push(':');
    push_zero_padded(&mut r, rem % 60, 2);
    assert(r@ =~= timestamp(y as nat, mo as nat, d as nat, (secs % SECS_PER_DAY) as nat));
    r
}

/// UTC timestamp for the run log, e.g. 2026-08-19T23:00:00.
pub fn chrono_like_timestamp() -> (r: String)
    ensures
        exists|year: nat, month: nat, day: nat, sec: nat|
            #![trigger timestamp(year, month, day, sec)]
            {
                &&& is_date(year as int, month as int, day as int)
                &&& day_number(year as int, month as int, day as int) >= 0
                &&& sec < SECS_PER_DAY
                &&& r@ == timestamp(year, month, day, sec)
            },
{
    let secs: u64 = secs_of(unix_nanos());
    format_timestamp(secs)
}

// ---------------------------------------------------------------------------
// Laws of the calendar
// ---------------------------------------------------------------------------

/// The epoch is the first of January 1970.
pub proof fn law_epoch_is_day_zero(day: int)
    ensures
        day_number(1970, 1, 1) == 0,
        day_number(1970, 1, day) == day - 1,
{
    reveal_with_fuel(days_before_month, 2);
}

/// Days follow on one another: within a month the next day has the next number, the first
/// of a month comes after the last of the month before, and New Year's Day after the
/// thirty-first of December.
pub proof fn law_days_follow(year: int, month: int, day: int)
    requires
        1 <= month <= 12,
    ensures
        day_number(year, month, day + 1) == day_number(year, month, day) + 1,
        month < 12 ==> day_number(year, month + 1, 1) == day_number(
            year,
            month,
            days_in_month(year, month),
        ) + 1,
        day_number(year + 1, 1, 1) == day_number(year, 12, 31) + 1,
{
    law_years_follow(year);
    reveal_with_fuel(days_before_month, 2);
}

/// Thirty days have April, June, September and November, February has twenty-eight and in
/// leap years twenty-nine, and all others have thirty-one. Every fourth year is a leap
/// year, but of the full centuries only every fourth.
pub proof fn law_lengths_of_months(year: int, month: int, day: int)
    ensures
        is_date(year, month, day) ==> 1 <= month <= 12 && 1 <= day <= 31,
        is_date(year, month, 31) <==> month == 1 || month == 3 || month == 5 || month == 7 || month
            == 8 || month == 10 || month == 12,
        is_date(year, month, 30) <==> 1 <= month <= 12 && month != 2,
        is_date(year, month, 29) <==> 1 <= month <= 12 && (month == 2 ==> year % 400 == 0 || (year
            % 4 == 0 && year % 100 != 0)),
        1 <= day <= 28 ==> (is_date(year, month, day) <==> 1 <= month <= 12),
{
}

/// A moment is written as year, month, day, hour, minute and second, each with zeros in
/// front, and with the signs of the usual notation between them.
pub proof fn law_timestamp_tells_time(
    year: nat,
    month: nat,
    day: nat,
    hour: nat,
    minute: nat,
    second: nat,
)
    requires
        minute < 60,
        second < 60,
    ensures
        timestamp(year, month, day, hour * 3600 + minute * 60 + second) == zero_padded(year, 4)
            + "-"@ + zero_padded(month, 2) + "-"@ + zero_padded(day, 2) + "T"@ + zero_padded(
            hour,
            2,
        ) + ":"@ + zero_padded(minute, 2) + ":"@ + zero_padded(second, 2),
{
    reveal_strlit("-");
    reveal_strlit("T");
    reveal_strlit(":");
    assert("-"@ =~= seq!['-']);
    assert("T"@ =~= seq!['T']);
    assert(":"@ =~= seq![':']);
    let sec = hour * 3600 + minute * 60 + second;
    assert(sec / 3600 == hour);
    assert(sec % 3600 == minute * 60 + second);
    assert((minute * 60 + second) / 60 == minute);
    assert(sec % 60 == second);
}

/// Day after day, the calendar goes on: to the next day of the month, after the last one
/// to the first of the next month, and after December to January of the next year. It
/// starts with the first of January 1970.
pub proof fn law_calendar_goes_on(
    z: i64,
    zero: (i64, i64, i64),
    today: (i64, i64, i64),
    tomorrow: (i64, i64, i64),
)
    requires
        z < i64::MAX - 719_468,
        call_ensures(civil_from_days, (0i64,), zero),
        call_ensures(civil_from_days, (z,), today),
        call_ensures(civil_from_days, ((z + 1) as i64,), tomorrow),
    ensures
        zero == (1970i64, 1i64, 1i64),
        1 <= today.1 <= 12 && 1 <= today.2 <= 31,
        tomorrow.2 == 1 || (tomorrow.0 == today.0 && tomorrow.1 == today.1 && tomorrow.2 == today.2
            + 1),
        tomorrow.2 == 1 && today.1 < 12 ==> tomorrow.0 == today.0 && tomorrow.1 == today.1 + 1,
        tomorrow.2 == 1 && today.1 == 12 ==> tomorrow.0 == today.0 + 1 && tomorrow.1 == 1,
        tomorrow.2 == 1 <==> today.2 == if today.1 == 2 {
            if today.0 as int % 400 == 0 || (today.0 as int % 4 == 0 && today.0 as int % 100 != 0) {
                29int
            } else {
                28int
            }
        } else if today.1 == 4 || today.1 == 6 || today.1 == 9 || today.1 == 11 {
            30int
        } else {
            31int
        },
{
    let (y, m, d) = (today.0 as int, today.1 as int, today.2 as int);
    let (ty, tm, td) = (tomorrow.0 as int, tomorrow.1 as int, tomorrow.2 as int);
    law_epoch_is_day_zero(1);
    law_day_has_one_date(zero.0 as int, zero.1 as int, zero.2 as int, 1970, 1, 1);
    law_days_follow(y, m, d);
    if d < days_in_month(y, m) {
        law_day_has_one_date(ty, tm, td, y, m, d + 1);
    } else if m < 12 {
        law_day_has_one_date(ty, tm, td, y, m + 1, 1);
    } else {
        law_day_has_one_date(ty, tm, td, y + 1, 1, 1);
    }
}

/// A moment is written with the date of its day and the time since midnight.
pub proof fn law_moment_is_written(secs: u64, year: nat, month: nat, day: nat, r: String)
    requires
        call_ensures(format_timestamp, (secs,), r),
        is_date(year as int, month as int, day as int),
        day_number(year as int, month as int, day as int) == secs / 86_400,
    ensures
        r@ == timestamp(year, month, day, (secs % 86_400) as nat),
{
    let (y, m, d) = choose|y: nat, m: nat, d: nat|
        #![trigger timestamp(y, m, d, (secs % SECS_PER_DAY) as nat)]
        {
            &&& is_date(y as int, m as int, d as int)
            &&& day_number(y as int, m as int, d as int) == secs / SECS_PER_DAY
            &&& r@ == timestamp(y, m, d, (secs % SECS_PER_DAY) as nat)
        };
    law_day_has_one_date(
        y as int,
        m as int,
        d as int,
        year as int,
        month as int,
        day as int,
    );
}

/// A reading of the clock counts in whole seconds, and as none before the epoch.
pub proof fn law_seconds_are_whole(nanos: u128)
    ensures
        whole_secs(Ok(nanos)) * 1_000_000_000 <= nanos < (whole_secs(Ok(nanos)) + 1)
            * 1_000_000_000,
        whole_secs(Err(nanos)) == 0,
{
}

} // verus!
