//! Calendar decomposition of a count of seconds since the Unix epoch (UTC,
//! proleptic Gregorian, no leap seconds).
use vstd::prelude::*;

verus! {

pub open spec fn is_leap(y: int) -> bool {
    y % 4 == 0 && (y % 100 != 0 || y % 400 == 0)
}

pub open spec fn year_len(y: int) -> int {
    if is_leap(y) {
        366
    } else {
        365
    }
}

/// Days from 1970-01-01 to the first day of year `y`.
pub open spec fn days_before_year(y: int) -> int
    decreases y - 1970,
{
    if y <= 1970 {
        0
    } else {
        days_before_year(y - 1) + year_len(y - 1)
    }
}

/// Length of month `m` (1 to 12) of year `y`.
pub open spec fn month_len(y: int, m: int) -> int {
    if m == 2 {
        if is_leap(y) {
            29
        } else {
            28
        }
    } else if m == 4 || m == 6 || m == 9 || m == 11 {
        30
    } else {
        31
    }
}

/// Days from the first of January of year `y` to the first day of month `m`.
pub open spec fn days_before_month(y: int, m: int) -> int
    decreases m,
{
    if m <= 1 {
        0
    } else {
        days_before_month(y, m - 1) + month_len(y, m - 1)
    }
}

/// The three-letter English abbreviation of month `m`.
pub open spec fn month_name(m: int) -> &'static str {
    if m == 1 {
        "Jan"
    } else if m == 2 {
        "Feb"
    } else if m == 3 {
        "Mar"
    } else if m == 4 {
        "Apr"
    } else if m == 5 {
        "May"
    } else if m == 6 {
        "Jun"
    } else if m == 7 {
        "Jul"
    } else if m == 8 {
        "Aug"
    } else if m == 9 {
        "Sep"
    } else if m == 10 {
        "Oct"
    } else if m == 11 {
        "Nov"
    } else {
        "Dec"
    }
}

/// A calendar point: `days` is the day of the month (from 1), `month` runs
/// from 1 to 12 and `weekday` from 0 (Sunday) to 6.
#[derive(Clone, Copy, Debug, PartialEq, Eq, Structural)]
pub struct Date {
    pub year: i64,
    pub month: i64,
    pub days: i64,
    pub hours: i64,
    pub minutes: i64,
    pub seconds: i64,
    pub weekday: i64,
}

impl Date {
    /// The date is a valid calendar day from 1970 on, with a valid time of day.
    pub open spec fn wf(self) -> bool {
        &&& self.year >= 1970
        &&& 1 <= self.month <= 12
        &&& 1 <= self.days <= month_len(self.year as int, self.month as int)
        &&& 0 <= self.hours < 24
        &&& 0 <= self.minutes < 60
        &&& 0 <= self.seconds < 60
        &&& 0 <= self.weekday < 7
    }

    /// Days from the epoch to this date.
    pub open spec fn day_number(self) -> int {
        days_before_year(self.year as int) + days_before_month(self.year as int, self.month as int)
            + self.days - 1
    }

    /// This date is the moment `secs` seconds after the epoch; epoch day 0 was a Thursday.
    pub open spec fn is_moment(self, secs: int) -> bool {
        &&& self.wf()
        &&& self.day_number() == secs / 86400
        &&& self.hours == (secs / 3600) % 24
        &&& self.minutes == (secs / 60) % 60
        &&& self.seconds == secs % 60
        &&& self.weekday == (secs / 86400 + 4) % 7
    }
}

/// The year that day `rem` of year `y` (counting from 0) falls in, and the
/// day within that year.
pub open spec fn year_walk(y: int, rem: int) -> (int, int)
    decreases rem,
{
    if rem >= year_len(y) {
        year_walk(y + 1, rem - year_len(y))
    } else {
        (y, rem)
    }
}

/// The month that day `rem` of month `m` of year `y` falls in, and the day
/// within that month (counting from 0).
pub open spec fn month_walk(y: int, m: int, rem: int) -> (int, int)
    decreases 12 - m,
{
    if m < 12 && rem >= month_len(y, m) {
        month_walk(y, m + 1, rem - month_len(y, m))
    } else {
        (m, rem)
    }
}

/// The calendar point `secs` seconds after the epoch.
pub open spec fn date_of(secs: int) -> Date {
    let days = secs / 86400;
    let (year, day_of_year) = year_walk(1970, days);
    let (month, day_of_month) = month_walk(year, 1, day_of_year);
    Date {
        year: year as i64,
        month: month as i64,
        days: (day_of_month + 1) as i64,
        hours: ((secs / 3600) % 24) as i64,
        minutes: ((secs / 60) % 60) as i64,
        seconds: (secs % 60) as i64,
        weekday: ((days + 4) % 7) as i64,
    }
}

fn year_length(y: i64) -> (r: i64)
    ensures
        r == year_len(y as int),
{
    if y % 4 == 0 && (y % 100 != 0 || y % 400 == 0) {
        366
    } else {
        365
    }
}

fn month_length(y: i64, m: i64) -> (r: i64)
    ensures
        r == month_len(y as int, m as int),
{
    if m == 2 {
        if y % 4 == 0 && (y % 100 != 0 || y % 400 == 0) {
            29
        } else {
            28
        }
    } else if m == 4 || m == 6 || m == 9 || m == 11 {
        30
    } else {
        31
    }
}

proof fn lemma_months_fill_year(y: int)
    ensures
        days_before_month(y, 13) == year_len(y),
{
    reveal_with_fuel(days_before_month, 13);
}

impl Date {
    /// Splits `seconds` after the epoch into calendar fields.
    pub fn new(seconds: i64) -> (r: Date)
        requires
            seconds >= 0,
        ensures
            r.is_moment(seconds as int),
            r == date_of(seconds as int),
    {
        let secs = seconds % 60;
        let minutes = (seconds / 60) % 60;
        let hours = (seconds / 3600) % 24;
        let total_days = seconds / 86400;
        let weekday = (total_days + 4) % 7;
        let mut year: i64 = 1970;
        let mut rem: i64 = total_days;
        let mut len = year_length(year);
        while rem >= len
            invariant
                0 <= rem <= total_days,
                total_days < 0x1_0000_0000_0000,
                year >= 1970,
                days_before_year(year as int) + rem == total_days,
                year - 1970 <= days_before_year(year as int),
                len == year_len(year as int),
                year_walk(1970, total_days as int) == year_walk(year as int, rem as int),
            decreases rem,
        {
            rem = rem - len;
            year = year + 1;
            len = year_length(year);
        }
        let mut month: i64 = 1;
        let mut mlen = month_length(year, month);
        proof {
            lemma_months_fill_year(year as int);
        }
        while rem >= mlen
            invariant
                1 <= month <= 12,
                0 <= rem,
                days_before_month(year as int, month as int) + rem < year_len(year as int),
                days_before_month(year as int, 13) == year_len(year as int),
                mlen == month_len(year as int, month as int),
                days_before_year(year as int) + days_before_month(year as int, month as int) + rem
                    == total_days,
                year_walk(1970, total_days as int) == (year as int, days_before_month(year as int, month as int) + rem),
                month_walk(year as int, 1, days_before_month(year as int, month as int) + rem)
                    == month_walk(year as int, month as int, rem as int),
            decreases rem,
        {
            rem = rem - mlen;
            if month == 12 {
                assert(days_before_month(year as int, 13) == days_before_month(year as int, 12)
                    + month_len(year as int, 12));
                assert(false);
            }
            month = month + 1;
            mlen = month_length(year, month);
        }
        Date {
            year,
            month,
            days: rem + 1,
            hours,
            minutes,
            seconds: secs,
            weekday,
        }
    }

    /// The English abbreviation of the month.
    pub fn month_as_str(&self) -> (r: &'static str)
        ensures
            r == month_name(self.month as int),
    {
        if self.month == 1 {
            "Jan"
        } else if self.month == 2 {
            "Feb"
        } else if self.month == 3 {
            "Mar"
        } else if self.month == 4 {
            "Apr"
        } else if self.month == 5 {
            "May"
        } else if self.month == 6 {
            "Jun"
        } else if self.month == 7 {
            "Jul"
        } else if self.month == 8 {
            "Aug"
        } else if self.month == 9 {
            "Sep"
        } else if self.month == 10 {
            "Oct"
        } else if self.month == 11 {
            "Nov"
        } else {
            "Dec"
        }
    }
}

} // verus!
