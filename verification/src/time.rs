//! Dates and time stamps.
use vstd::prelude::*;

use crate::text;

verus! {

/// A day of the Gregorian calendar.
pub ghost struct Date {
    pub year: int,
    pub month: int,
    pub day: int,
}

pub open spec fn is_leap(year: int) -> bool {
    year % 4 == 0 && (year % 100 != 0 || year % 400 == 0)
}

pub open spec fn leap_day(year: int) -> int {
    if is_leap(year) {
        1
    } else {
        0
    }
}

pub open spec fn month_len(year: int, month: int) -> int {
    if month == 2 {
        28 + leap_day(year)
    } else if month == 4 || month == 6 || month == 9 || month == 11 {
        30
    } else {
        31
    }
}

/// The days of a year before a month begins.
pub open spec fn days_before_month(year: int, month: int) -> int
    decreases month,
{
    if month <= 1 {
        0
    } else {
        days_before_month(year, month - 1) + month_len(year, month - 1)
    }
}

/// The leap years from year 1 up to a year, that year among them.
pub open spec fn leap_years(year: int) -> int {
    year / 4 - year / 100 + year / 400
}

/// The days from the first day of 1970 to the first day of a year.
pub open spec fn days_before_year(year: int) -> int {
    365 * (year - 1970) + leap_years(year - 1) - leap_years(1969)
}

/// Whether there is such a day.
pub open spec fn is_date(d: Date) -> bool {
    1 <= d.month <= 12 && 1 <= d.day <= month_len(d.year, d.month)
}

/// The days from the first day of 1970 to a date.
pub open spec fn day_number(d: Date) -> int {
    days_before_year(d.year) + days_before_month(d.year, d.month) + d.day - 1
}

/// The date with a given day number.
pub open spec fn date_of(day: int) -> Date {
    choose|d: Date| is_date(d) && day_number(d) == day
}

proof fn lemma_days_before_month(year: int, month: int)
    requires
        1 <= month <= 13,
    ensures
        days_before_month(year, month) == (if month == 1 {
            0
        } else if month == 2 {
            31
        } else {
            leap_day(year) + (if month == 3 {
                59int
            } else if month == 4 {
                90
            } else if month == 5 {
                120
            } else if month == 6 {
                151
            } else if month == 7 {
                181
            } else if month == 8 {
                212
            } else if month == 9 {
                243
            } else if month == 10 {
                273
            } else if month == 11 {
                304
            } else if month == 12 {
                334
            } else {
                365
            })
        }),
    decreases month,
{
    if month > 1 {
        lemma_days_before_month(year, month - 1);
    }
}

/// Each year has 365 days, and one more in a leap year.
pub proof fn lemma_year_length(year: int)
    ensures
        days_before_year(year + 1) - days_before_year(year) == 365 + leap_day(year),
        leap_years(year) - leap_years(year - 1) == leap_day(year),
{
    lemma_quotient_step(year, 4);
    lemma_quotient_step(year, 100);
    lemma_quotient_step(year, 400);
    assert(year % 100 == 0 ==> year % 4 == 0);
    assert(year % 400 == 0 ==> year % 100 == 0);
}

proof fn lemma_quotient_step(n: int, k: int)
    requires
        k == 4 || k == 100 || k == 400,
    ensures
        n / k - (n - 1) / k == (if n % k == 0 {
            1int
        } else {
            0
        }),
{
}

/// No two dates have the same day number.
pub proof fn lemma_day_number_unique(a: Date, b: Date)
    requires
        is_date(a),
        is_date(b),
        day_number(a) == day_number(b),
    ensures
        a == b,
{
    lemma_days_before_month(a.year, a.month);
    lemma_days_before_month(b.year, b.month);
    lemma_days_before_month(a.year, a.month + 1);
    lemma_days_before_month(b.year, b.month + 1);
    lemma_year_length(a.year);
    lemma_year_length(b.year);
    if a.year < b.year {
        assert(days_before_year(a.year + 1) <= days_before_year(b.year));
    }
    if b.year < a.year {
        assert(days_before_year(b.year + 1) <= days_before_year(a.year));
    }
}

/// The days of an era of 400 years, which begins with March, before one of its
/// years begins.
spec fn days_before_era_year(yoe: int) -> int {
    365 * yoe + yoe / 4 - yoe / 100
}

spec fn era_year(doe: int) -> int {
    (doe - doe / 1460 + doe / 36524 - doe / 146096) / 365
}

proof fn lemma_era_year(doe: int)
    requires
        0 <= doe < 146097,
    ensures
        0 <= era_year(doe) < 400,
        0 <= doe - days_before_era_year(era_year(doe)) <= 365,
        doe - days_before_era_year(era_year(doe)) == 365 ==> is_leap(era_year(doe) + 1),
{
}

/// The date of a day counted from the first of March of a year.
proof fn lemma_from_march(y: int, doy: int, mp: int, d: Date)
    requires
        0 <= doy <= 365,
        doy == 365 ==> is_leap(y + 1),
        mp == (5 * doy + 2) / 153,
        d.day == doy - (153 * mp + 2) / 5 + 1,
        mp < 10 ==> d.month == mp + 3 && d.year == y,
        mp >= 10 ==> d.month == mp - 9 && d.year == y + 1,
    ensures
        is_date(d),
        day_number(d) == days_before_year(y) + 59 + leap_day(y) + doy,
{
    assert(0 <= mp <= 11);
    lemma_days_before_month(d.year, d.month);
    lemma_year_length(y);
    assert(mp == 0 || mp == 1 || mp == 2 || mp == 3 || mp == 4 || mp == 5 || mp == 6 || mp == 7
        || mp == 8 || mp == 9 || mp == 10 || mp == 11);
}

/// The first of March of a year of an era.
proof fn lemma_era_march(era: int, yoe: int)
    requires
        0 <= yoe < 400,
    ensures
        days_before_year(yoe + era * 400) + 59 + leap_day(yoe + era * 400) == era * 146097
            + days_before_era_year(yoe) - 719468,
        is_leap(yoe + 1) == is_leap(yoe + era * 400 + 1),
{
    let y = yoe + era * 400;
    assert(y / 4 == yoe / 4 + era * 100);
    assert(y / 100 == yoe / 100 + era * 4);
    assert(y / 400 == era);
    lemma_year_length(y);
}

/// The date, as year, month and day, of a number of days since the first day of
/// 1970.
pub fn civil_from_days(z: i64) -> (r: (i64, u32, u32))
    requires
        z + 719_468 <= i64::MAX,
    ensures
        is_date(Date { year: r.0 as int, month: r.1 as int, day: r.2 as int }),
        day_number(Date { year: r.0 as int, month: r.1 as int, day: r.2 as int }) == z,
        date_of(z as int) == (Date { year: r.0 as int, month: r.1 as int, day: r.2 as int }),
{
    let days: i64 = z + 719_468;
    let era: i64 = if days >= 0 {
        days / 146_097
    } else {
        let n: i64 = (-(days + 1)) / 146_097;
        -n - 1
    };
    assert(era * 146_097 <= days < era * 146_097 + 146_097);
    let doe: i64 = days - era * 146_097;
    let yoe: i64 = (doe - doe / 1_460 + doe / 36_524 - doe / 146_096) / 365;
    proof {
        lemma_era_year(doe as int);
    }
    let y: i64 = yoe + era * 400;
    let doy: i64 = doe - (365 * yoe + yoe / 4 - yoe / 100);
    let mp: i64 = (5 * doy + 2) / 153;
    let d: i64 = doy - (153 * mp + 2) / 5 + 1;
    let m: i64 = if mp < 10 {
        mp + 3
    } else {
        mp - 9
    };
    let year: i64 = if m <= 2 {
        y + 1
    } else {
        y
    };
    proof {
        let date = Date { year: year as int, month: m as int, day: d as int };
        lemma_era_march(era as int, yoe as int);
        lemma_from_march(y as int, doy as int, mp as int, date);
        lemma_day_number_unique(date, date_of(z as int));
    }
    (year, m as u32, d as u32)
}

/// Two digits, at least.
pub open spec fn two_digits(n: int) -> Seq<char> {
    text::zero_padded(text::dec(n), 2)
}

/// The stamp of a second since the start of 1970, such as
/// `2026-08-11T12:34:56Z`.
pub open spec fn stamp(secs: int) -> Seq<char> {
    let d = date_of(secs / 86_400);
    let rem = secs % 86_400;
    text::zero_padded(text::dec(d.year), 4) + "-"@ + two_digits(d.month) + "-"@ + two_digits(d.day)
        + "T"@ + two_digits(rem / 3_600) + ":"@ + two_digits(rem % 3_600 / 60) + ":"@ + two_digits(
        rem % 60,
    ) + "Z"@
}

fn two(n: u64) -> (r: String)
    ensures
        r@ == two_digits(n as int),
{
    text::padded_of(n, 10, false, 2)
}

/// The stamp of a second since the start of 1970, in UTC.
pub fn ts_from_secs(secs: u64) -> (r: String)
    ensures
        r@ == stamp(secs as int),
{
    let days: u64 = secs / 86_400;
    let rem: u64 = secs % 86_400;
    let (y, mo, d) = civil_from_days(days as i64);
    proof {
        let date = Date { year: y as int, month: mo as int, day: d as int };
        lemma_days_before_month(date.year, date.month);
        if y < 0 {
            lemma_year_length(y as int);
            assert(days_before_year(y + 1) <= days_before_year(1970));
            lemma_days_before_month(date.year, date.month + 1);
        }
    }
    let mut s = text::padded_of(y as u64, 10, false, 4);
    s.append("-");
    s.append(two(mo as u64).as_str());
    s.append("-");
    s.append(two(d as u64).as_str());
    s.append("T");
    s.append(two(rem / 3_600).as_str());
    s.append(":");
    s.append(two(rem % 3_600 / 60).as_str());
    s.append(":");
    s.append(two(rem % 60).as_str());
    s.append("Z");
    s
}

/// Days follow one another: the first of January 1970 is day 0, and each date is one day
/// behind the one before it, within a month, over the end of a month and over the end of
/// a year. February has 29 days in years that 4 divides, of those that 100 divides only
/// where 400 does; April, June, September and November have 30, and the others 31.
pub proof fn lemma_next_day(year: int, month: int, day: int)
    ensures
        day_number(Date { year: 1970, month: 1, day: 1 }) == 0,
        day_number(Date { year, month, day: day + 1 }) == day_number(Date { year, month, day }) + 1,
        1 <= month < 12 ==> day_number(Date { year, month: month + 1, day: 1 }) == day_number(
            Date { year, month, day: 1 },
        ) + (if month == 2 {
            if year % 400 == 0 || year % 4 == 0 && year % 100 != 0 {
                29int
            } else {
                28
            }
        } else if month == 4 || month == 6 || month == 9 || month == 11 {
            30
        } else {
            31
        }),
        day_number(Date { year: year + 1, month: 1, day: 1 }) == day_number(
            Date { year, month: 12, day: 1 },
        ) + 31,
{
    lemma_year_length(year);
    lemma_days_before_month(year, 12);
    lemma_days_before_month(year, 13);
    assert(year % 400 == 0 ==> year % 4 == 0);
    if 1 <= month < 12 {
        lemma_days_before_month(year, month);
        lemma_days_before_month(year, month + 1);
    }
}

/// A date is found again by its number.
pub proof fn lemma_date_found(d: Date)
    requires
        is_date(d),
    ensures
        date_of(day_number(d)) == d,
{
    let e = date_of(day_number(d));
    assert(is_date(d) && day_number(d) == day_number(d));
    lemma_day_number_unique(d, e);
}

proof fn lemma_two_digits(n: int)
    requires
        0 <= n < 100,
    ensures
        two_digits(n).len() == 2,
        text::value_in(two_digits(n), 10) == n,
{
    let s = text::dec(n);
    text::lemma_numeral_reads_back(n, 10, false);
    text::lemma_zero_padded(s, 2, 10);
    if n >= 10 {
        let q = n / 10;
        assert(1 <= q < 10);
        assert(text::numeral(q, 10, false).len() == 1);
        assert(s == text::numeral(q, 10, false).push(text::digit_char(n % 10, false)));
    }
}

proof fn lemma_four_digits(n: int)
    requires
        0 <= n < 10000,
    ensures
        text::zero_padded(text::dec(n), 4).len() == 4,
        text::value_in(text::zero_padded(text::dec(n), 4), 10) == n,
{
    let s = text::dec(n);
    text::lemma_numeral_reads_back(n, 10, false);
    text::lemma_zero_padded(s, 4, 10);
    reveal_with_fuel(text::numeral, 5);
    assert(s.len() <= 4) by {
        let a = n / 10;
        let b = a / 10;
        let c = b / 10;
        assert(c < 10);
        if n >= 10 {
            assert(s == text::numeral(a, 10, false).push(text::digit_char(n % 10, false)));
            if a >= 10 {
                assert(text::numeral(a, 10, false) == text::numeral(b, 10, false).push(
                    text::digit_char(a % 10, false),
                ));
                if b >= 10 {
                    assert(text::numeral(b, 10, false) == text::numeral(c, 10, false).push(
                        text::digit_char(b % 10, false),
                    ));
                    assert(text::numeral(c, 10, false).len() == 1);
                }
            }
        }
    }
}

/// A stamp tells the moment: at the given hour, minute and second of a date up to the year
/// 9999 it has the year, month, day, hour, minute and second in their places, and the
/// marks of the format between them.
pub proof fn lemma_stamp_tells(d: Date, hour: int, minute: int, second: int)
    requires
        is_date(d),
        1970 <= d.year <= 9999,
        0 <= hour < 24,
        0 <= minute < 60,
        0 <= second < 60,
    ensures
        ({
            let s = stamp(86_400 * day_number(d) + 3_600 * hour + 60 * minute + second);
            &&& s.len() == 20
            &&& text::value_in(s.subrange(0, 4), 10) == d.year
            &&& s[4] == '-'
            &&& text::value_in(s.subrange(5, 7), 10) == d.month
            &&& s[7] == '-'
            &&& text::value_in(s.subrange(8, 10), 10) == d.day
            &&& s[10] == 'T'
            &&& text::value_in(s.subrange(11, 13), 10) == hour
            &&& s[13] == ':'
            &&& text::value_in(s.subrange(14, 16), 10) == minute
            &&& s[16] == ':'
            &&& text::value_in(s.subrange(17, 19), 10) == second
            &&& s[19] == 'Z'
        }),
{
    let day = day_number(d);
    let secs = 86_400 * day + 3_600 * hour + 60 * minute + second;
    let rem = 3_600 * hour + 60 * minute + second;
    assert(secs / 86_400 == day && secs % 86_400 == rem);
    assert(rem / 3_600 == hour);
    assert(rem % 3_600 / 60 == minute);
    assert(rem % 60 == second);
    lemma_date_found(d);
    lemma_four_digits(d.year);
    lemma_two_digits(d.month);
    lemma_two_digits(d.day);
    lemma_two_digits(hour);
    lemma_two_digits(minute);
    lemma_two_digits(second);
    reveal_strlit("-");
    reveal_strlit("T");
    reveal_strlit(":");
    reveal_strlit("Z");
    let s = stamp(secs);
    assert(s.subrange(0, 4) =~= text::zero_padded(text::dec(d.year), 4));
    assert(s.subrange(5, 7) =~= two_digits(d.month));
    assert(s.subrange(8, 10) =~= two_digits(d.day));
    assert(s.subrange(11, 13) =~= two_digits(hour));
    assert(s.subrange(14, 16) =~= two_digits(minute));
    assert(s.subrange(17, 19) =~= two_digits(second));
}

} // verus!
