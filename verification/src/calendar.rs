//! Dates and times in UTC, from the seconds since the beginning of 1970.

use crate::text::{append_decimal, decimal};
use vstd::prelude::*;
use vstd::string::*;

verus! {

/// Every fourth year is a leap year, but of the hundreds only every fourth.
pub open spec fn is_leap(year: int) -> bool {
    year % 4 == 0 && (year % 100 != 0 || year % 400 == 0)
}

/// The days of a year.
pub open spec fn year_length(year: int) -> int {
    if is_leap(year) {
        366
    } else {
        365
    }
}

/// The days of a month, which is a number from 1 to 12.
pub open spec fn month_length(year: int, month: int) -> int {
    if month == 2 {
        if is_leap(year) {
            29
        } else {
            28
        }
    } else if month == 4 || month == 6 || month == 9 || month == 11 {
        30
    } else {
        31
    }
}

/// The year in which a day lies, and its number in that year from 0, where the day is `days` after
/// the first of January of `year`.
pub open spec fn year_after(year: int, days: int) -> (int, int)
    decreases days,
{
    if days < year_length(year) {
        (year, days)
    } else {
        year_after(year + 1, days - year_length(year))
    }
}

/// The month in which a day lies, and its number in that month from 1, where the day is `days`
/// after the first of a month. The last month ends with the year.
pub open spec fn month_after(year: int, month: int, days: int) -> (int, int)
    decreases 12 - month,
{
    if month >= 12 || days < month_length(year, month) {
        (month, days + 1)
    } else {
        month_after(year, month + 1, days - month_length(year, month))
    }
}

/// The date, as year, month and day, that is `days` after the first of January 1970.
pub open spec fn date_of(days: int) -> (int, int, int) {
    let (year, rest) = year_after(1970, days);
    let (month, day) = month_after(year, 1, rest);
    (year, month, day)
}

/// A number with at least two digits.
pub open spec fn two_digits(n: int) -> Seq<char> {
    if n < 10 {
        "0"@ + decimal(n)
    } else {
        decimal(n)
    }
}

/// A date and time of day in UTC, such as `2026-04-06T12-34-56`, from the seconds since the
/// beginning of 1970. The year has four digits, or more where it needs them.
pub open spec fn utc_stamp(secs: int) -> Seq<char> {
    let (year, month, day) = date_of(secs / 86400);
    let rest = secs % 86400;
    decimal(year) + "-"@ + two_digits(month) + "-"@ + two_digits(day) + "T"@ + two_digits(
        rest / 3600,
    ) + "-"@ + two_digits(rest / 60 % 60) + "-"@ + two_digits(rest % 60)
}

/// The leap years from the year 1 up to, and without, a year.
pub open spec fn leap_years_before(year: int) -> int {
    (year - 1) / 4 - (year - 1) / 100 + (year - 1) / 400
}

/// The days from the first of January of one year to that of another.
pub open spec fn days_between(from: int, to: int) -> int {
    365 * (to - from) + leap_years_before(to) - leap_years_before(from)
}

/// The days of a year before a month of it.
pub open spec fn days_before_month(year: int, month: int) -> int {
    let common = if month <= 1 {
        0int
    } else if month == 2 {
        31
    } else if month == 3 {
        59
    } else if month == 4 {
        90
    } else if month == 5 {
        120
    } else if month == 6 {
        151
    } else if month == 7 {
        181
    } else if month == 8 {
        212
    } else if month == 9 {
        243
    } else if month == 10 {
        273
    } else if month == 11 {
        304
    } else {
        334
    };
    if month > 2 && is_leap(year) {
        common + 1
    } else {
        common
    }
}

/// A date from 1970 on: the month is one of twelve, and the day one of the month's.
pub open spec fn is_date(year: int, month: int, day: int) -> bool {
    1970 <= year && 1 <= month <= 12 && 1 <= day <= month_length(year, month)
}

/// The days from the first of January 1970 to a date.
pub open spec fn days_to(year: int, month: int, day: int) -> int {
    days_between(1970, year) + days_before_month(year, month) + day - 1
}

proof fn lemma_one_year(year: int)
    ensures
        days_between(year, year + 1) == year_length(year),
{
}

/// The year that begins within `days` can be counted from instead.
proof fn lemma_years_pass(from: int, to: int, days: int)
    requires
        from <= to,
        days >= days_between(from, to),
    ensures
        year_after(from, days) == year_after(to, days - days_between(from, to)),
    decreases to - from,
{
    if from < to {
        lemma_one_year(from);
        lemma_days_grow(from + 1, to);
        lemma_years_pass(from + 1, to, days - year_length(from));
    }
}

proof fn lemma_days_grow(from: int, to: int)
    requires
        from <= to,
    ensures
        days_between(from, to) >= 0,
    decreases to - from,
{
    if from < to {
        lemma_one_year(from);
        lemma_days_grow(from + 1, to);
    }
}

/// Counting from the first of January reaches a day of a month by way of that month.
proof fn lemma_months_pass(year: int, from: int, month: int, day: int)
    requires
        is_date(year, month, day),
        1 <= from <= month,
    ensures
        month_after(
            year,
            from,
            days_before_month(year, month) - days_before_month(year, from) + day - 1,
        ) == (month, day),
    decreases month - from,
{
    lemma_month_lengths(year, from);
    if from < month {
        lemma_months_grow(year, from + 1, month);
        lemma_months_pass(year, from + 1, month, day);
    }
}

proof fn lemma_month_lengths(year: int, month: int)
    requires
        1 <= month <= 12,
    ensures
        month < 12 ==> days_before_month(year, month + 1) == days_before_month(year, month)
            + month_length(year, month),
        month == 12 ==> year_length(year) == days_before_month(year, month) + month_length(
            year,
            month,
        ),
{
}

proof fn lemma_months_grow(year: int, from: int, to: int)
    requires
        1 <= from <= to <= 12,
    ensures
        days_before_month(year, from) <= days_before_month(year, to),
    decreases to - from,
{
    if from < to {
        lemma_month_lengths(year, from);
        lemma_months_grow(year, from + 1, to);
    }
}

/// The date after the days to a date is that date.
pub proof fn dates_read_back(year: int, month: int, day: int)
    requires
        is_date(year, month, day),
    ensures
        days_to(year, month, day) >= 0,
        date_of(days_to(year, month, day)) == (year, month, day),
{
    let rest = days_before_month(year, month) + day - 1;
    lemma_days_grow(1970, year);
    lemma_months_grow(year, 1, month);
    lemma_months_grow(year, month, 12);
    lemma_month_lengths(year, month);
    lemma_month_lengths(year, 12);
    if month < 12 {
        lemma_months_grow(year, month + 1, 12);
    }
    lemma_years_pass(1970, year, days_to(year, month, day));
    assert(rest < year_length(year));
    assert(year_after(year, rest) == (year, rest));
    lemma_months_pass(year, 1, month, day);
}

/// Every number of days leads to a date, and the days to it are that number.
pub proof fn days_read_back(days: int)
    requires
        0 <= days,
    ensures
        ({
            let (year, month, day) = date_of(days);
            is_date(year, month, day) && days_to(year, month, day) == days
        }),
{
    lemma_year_counts(1970, days);
    let (year, rest) = year_after(1970, days);
    lemma_month_counts(year, 1, rest);
}

proof fn lemma_year_counts(from: int, days: int)
    requires
        0 <= days,
    ensures
        ({
            let (year, rest) = year_after(from, days);
            from <= year && 0 <= rest < year_length(year) && days_between(from, year) + rest
                == days
        }),
    decreases days,
{
    if days >= year_length(from) {
        lemma_one_year(from);
        lemma_year_counts(from + 1, days - year_length(from));
    }
}

proof fn lemma_month_counts(year: int, from: int, days: int)
    requires
        1 <= from <= 12,
        0 <= days,
        days_before_month(year, from) + days < year_length(year),
    ensures
        ({
            let (month, day) = month_after(year, from, days);
            &&& from <= month <= 12
            &&& 1 <= day <= month_length(year, month)
            &&& days_before_month(year, month) + day - 1 == days_before_month(year, from) + days
        }),
    decreases 12 - from,
{
    lemma_month_lengths(year, from);
    if from < 12 && days >= month_length(year, from) {
        lemma_month_counts(year, from + 1, days - month_length(year, from));
    }
}

fn leap(year: u64) -> (r: bool)
    ensures
        r == is_leap(year as int),
{
    year % 4 == 0 && (year % 100 != 0 || year % 400 == 0)
}

fn days_of_month(year: u64, month: u64) -> (n: u64)
    ensures
        n == month_length(year as int, month as int),
{
    if month == 2 {
        if leap(year) {
            29
        } else {
            28
        }
    } else if month == 4 || month == 6 || month == 9 || month == 11 {
        30
    } else {
        31
    }
}

/// Any 400 years have the same number of days.
proof fn lemma_centuries_pass(count: int)
    requires
        0 <= count,
    ensures
        days_between(1970, 1970 + 400 * count) == 146097 * count,
{
}

/// The date that is `days` after the first of January 1970.
pub fn utc_date(days: u64) -> (date: (u64, u64, u64))
    ensures
        (date.0 as int, date.1 as int, date.2 as int) == date_of(days as int),
{
    let turns: u64 = days / 146097;
    let mut year: u64 = 1970 + 400 * turns;
    let mut rest: u64 = days % 146097;
    proof {
        lemma_centuries_pass(turns as int);
        lemma_years_pass(1970, year as int, days as int);
        lemma_year_counts(1970, days as int);
    }
    loop
        invariant
            year_after(year as int, rest as int) == year_after(1970, days as int),
            year + rest <= 1970 + 400 * turns + 146097,
            turns <= u64::MAX / 146097,
        ensures
            (year as int, rest as int) == year_after(1970, days as int),
        decreases rest,
    {
        let length: u64 = if leap(year) {
            366
        } else {
            365
        };
        if rest < length {
            break;
        }
        rest = rest - length;
        year = year + 1;
    }
    let mut month: u64 = 1;
    proof {
        assert(rest < year_length(year as int));
    }
    loop
        invariant
            1 <= month <= 12,
            rest < 366,
            month_after(year as int, month as int, rest as int) == month_after(
                year as int,
                1,
                year_after(1970, days as int).1,
            ),
        ensures
            (month as int, rest as int + 1) == month_after(
                year as int,
                1,
                year_after(1970, days as int).1,
            ),
            rest < 366,
        decreases 12 - month,
    {
        let length: u64 = days_of_month(year, month);
        if month == 12 || rest < length {
            break;
        }
        rest = rest - length;
        month = month + 1;
    }
    (year, month, rest + 1)
}

fn append_two_digits(out: &mut String, n: u64)
    ensures
        final(out)@ == old(out)@ + two_digits(n as int),
{
    if n < 10 {
        out.append("0");
    }
    append_decimal(out, n);
    assert(out@ =~= old(out)@ + two_digits(n as int));
}

/// Appends a date and time of day in UTC.
pub fn append_utc_stamp(out: &mut String, secs: u64)
    ensures
        final(out)@ == old(out)@ + utc_stamp(secs as int),
{
    let (year, month, day) = utc_date(secs / 86400);
    let rest: u64 = secs % 86400;
    append_decimal(out, year);
    out.append("-");
    append_two_digits(out, month);
    out.append("-");
    append_two_digits(out, day);
    out.append("T");
    append_two_digits(out, rest / 3600);
    out.append("-");
    append_two_digits(out, rest / 60 % 60);
    out.append("-");
    append_two_digits(out, rest % 60);
    assert(out@ =~= old(out)@ + utc_stamp(secs as int));
}

/// Days are counted from the first of January 1970, and the date of the next day is the next date.
/// A month ends with its 31st day, or its 30th in April, June, September and November; February
/// ends with its 29th in every fourth year but for the hundreds that 400 does not divide, and with
/// its 28th otherwise.
pub proof fn days_follow_one_another(days: int)
    requires
        0 <= days,
    ensures
        date_of(0) == (1970int, 1int, 1int),
        ({
            let (year, month, day) = date_of(days);
            let leap_day = year % 4 == 0 && (year % 100 != 0 || year % 400 == 0);
            let is_last = if month == 2 {
                day == if leap_day {
                    29int
                } else {
                    28
                }
            } else if month == 4 || month == 6 || month == 9 || month == 11 {
                day == 30
            } else {
                day == 31
            };
            date_of(days + 1) == if !is_last {
                (year, month, day + 1)
            } else if month < 12 {
                (year, month + 1, 1int)
            } else {
                (year + 1, 1int, 1int)
            }
        }),
{
    dates_read_back(1970, 1, 1);
    assert(days_to(1970, 1, 1) == 0);
    days_read_back(days);
    let (year, month, day) = date_of(days);
    lemma_month_lengths(year, month);
    lemma_one_year(year);
    if day < month_length(year, month) {
        dates_read_back(year, month, day + 1);
    } else if month < 12 {
        dates_read_back(year, month + 1, 1);
    } else {
        dates_read_back(year + 1, 1, 1);
    }
}

/// A stamp gives the date and the hours, minutes and seconds that have passed since midnight.
pub proof fn stamps_give_date_and_time(days: int, hours: int, minutes: int, seconds: int)
    requires
        0 <= days,
        0 <= hours < 24,
        0 <= minutes < 60,
        0 <= seconds < 60,
    ensures
        utc_stamp(86400 * days + 3600 * hours + 60 * minutes + seconds) == decimal(date_of(days).0)
            + "-"@ + two_digits(date_of(days).1) + "-"@ + two_digits(date_of(days).2) + "T"@
            + two_digits(hours) + "-"@ + two_digits(minutes) + "-"@ + two_digits(seconds),
{
    let secs = 86400 * days + 3600 * hours + 60 * minutes + seconds;
    let rest = 3600 * hours + 60 * minutes + seconds;
    assert(secs / 86400 == days && secs % 86400 == rest);
    assert(rest / 3600 == hours);
    assert(rest / 60 == 60 * hours + minutes);
    assert(rest / 60 % 60 == minutes);
    assert(rest % 60 == seconds);
}

/// A number below a hundred takes two digits, the first of which may be a zero.
pub proof fn two_digits_are_two(n: int)
    requires
        0 <= n < 100,
    ensures
        two_digits(n).len() == 2,
        n >= 10 ==> two_digits(n) == decimal(n),
        n < 10 ==> two_digits(n)[0] == '0' && two_digits(n).skip(1) == decimal(n),
{
    reveal_strlit("0");
    reveal_with_fuel(decimal, 3);
    if n < 10 {
        assert(two_digits(n).skip(1) =~= decimal(n));
    }
}

} // verus!
