//! Dates as milliseconds of the OLE Automation calendar.

use vstd::prelude::*;
use chrono::{Datelike, Timelike};

verus! {

/// Number of days between the 1900 and 1904 Excel date systems.
pub const EXCEL_1904_DATE_OFFSET_DAYS: i64 = 1462;

/// Maximum worksheet dimensions supported by the XLSX and XLSB formats.
pub const EXCEL_MAX_COLUMNS: usize = 16_384;

pub const EXCEL_MAX_ROWS: usize = 1_048_576;

/// A date of the proleptic Gregorian calendar and a time of day. Nanoseconds from
/// a thousand million on stand for a leap second.
#[derive(Debug, Clone, Copy, PartialEq, Eq, Structural)]
pub struct DateTimeParts {
    pub year: i32,
    pub month: u32,
    pub day: u32,
    pub hour: u32,
    pub minute: u32,
    pub second: u32,
    pub nanosecond: u32,
}

pub open spec fn is_leap(year: int) -> bool {
    year % 4 == 0 && (year % 100 != 0 || year % 400 == 0)
}

/// The days of a year in front of a month, in a year without a leap day.
pub open spec fn plain_days_before(month: int) -> int {
    if month <= 1 {
        0
    } else if month == 2 {
        31
    } else if month == 3 {
        59
    } else if month == 4 {
        90
    } else if month == 5 {
        120
    } else if month == 6 {
        151
    } else if month == 7 {
        181
    } else if month == 8 {
        212
    } else if month == 9 {
        243
    } else if month == 10 {
        273
    } else if month == 11 {
        304
    } else if month == 12 {
        334
    } else {
        365
    }
}

/// The days of a year in front of a month.
pub open spec fn days_before_month(year: int, month: int) -> int {
    plain_days_before(month) + if month > 2 && is_leap(year) {
        1int
    } else {
        0
    }
}

/// The days in front of a year, counted from the start of the year 1.
pub open spec fn days_before_year(year: int) -> int {
    365 * (year - 1) + (year - 1) / 4 - (year - 1) / 100 + (year - 1) / 400
}

/// The number of a day; the first day of the year 1 has number 1.
pub open spec fn day_number(year: int, month: int, day: int) -> int {
    days_before_year(year) + days_before_month(year, month) + day
}

/// A number divided by another one, rounded towards zero.
pub open spec fn quotient(n: int, d: int) -> int {
    if n >= 0 {
        n / d
    } else {
        -((-n) / d)
    }
}

impl DateTimeParts {
    /// The day exists, lies in the range of years that dates have, and the time of
    /// day exists.
    pub open spec fn is_valid(self) -> bool {
        &&& -262143 <= self.year <= 262142
        &&& 1 <= self.month <= 12
        &&& 1 <= self.day <= days_before_month(self.year as int, self.month + 1)
            - days_before_month(self.year as int, self.month as int)
        &&& self.hour < 24
        &&& self.minute < 60
        &&& self.second < 60
        &&& self.nanosecond < 2_000_000_000
        &&& self.nanosecond >= 1_000_000_000 ==> self.second == 59
    }

    /// The nanoseconds from the start of the day with number zero on.
    pub open spec fn nanoseconds(self) -> int {
        (day_number(self.year as int, self.month as int, self.day as int) * 86_400 + self.hour
            * 3600 + self.minute * 60 + self.second) * 1_000_000_000 + self.nanosecond
    }
}

/// `chrono::NaiveDate::from_ymd_opt`, `and_hms_nano_opt`, and
/// `NaiveDateTime::signed_duration_since` with `num_milliseconds`: the whole
/// milliseconds from one date-time to another, rounded towards zero; nothing where
/// one of them does not exist. The start is in the first second of its day: from a
/// later time of day on, a leap second at an earlier time of another day would be
/// counted in another way.
#[verifier::external_body]
fn milliseconds_between(from: DateTimeParts, to: DateTimeParts) -> (r: Option<i64>)
    requires
        from.hour == 0,
        from.minute == 0,
        from.second == 0,
        from.nanosecond < 1_000_000_000,
    ensures
        match r {
            Some(ms) => from.is_valid() && to.is_valid() && ms == quotient(
                to.nanoseconds() - from.nanoseconds(),
                1_000_000,
            ),
            None => !from.is_valid() || !to.is_valid(),
        },
{
    let a = chrono::NaiveDate::from_ymd_opt(from.year, from.month, from.day)?
        .and_hms_nano_opt(from.hour, from.minute, from.second, from.nanosecond)?;
    let b = chrono::NaiveDate::from_ymd_opt(to.year, to.month, to.day)?
        .and_hms_nano_opt(to.hour, to.minute, to.second, to.nanosecond)?;
    Some(b.signed_duration_since(a).num_milliseconds())
}

/// `chrono::NaiveDateTime::checked_add_signed`: the date-time so many milliseconds
/// behind another one; nothing where the start does not exist, or where no
/// date-time in the range of years lies there. Neither is in a leap second.
#[verifier::external_body]
fn milliseconds_behind(from: DateTimeParts, ms: i64) -> (r: Option<DateTimeParts>)
    requires
        from.nanosecond < 1_000_000_000,
    ensures
        match r {
            Some(to) => from.is_valid() && to.is_valid() && to.nanosecond < 1_000_000_000
                && to.nanoseconds() == from.nanoseconds() + ms * 1_000_000,
            None => !from.is_valid() || forall|to: DateTimeParts|
                #![trigger to.nanoseconds()]
                to.is_valid() && to.nanosecond < 1_000_000_000 ==> to.nanoseconds()
                    != from.nanoseconds() + ms * 1_000_000,
        },
{
    let a = chrono::NaiveDate::from_ymd_opt(from.year, from.month, from.day)?
        .and_hms_nano_opt(from.hour, from.minute, from.second, from.nanosecond)?;
    let b = a.checked_add_signed(chrono::TimeDelta::try_milliseconds(ms)?)?;
    Some(DateTimeParts { year: b.year(), month: b.month(), day: b.day(), hour: b.hour(),
        minute: b.minute(), second: b.second(), nanosecond: b.nanosecond() })
}

/// The start of the OLE Automation calendar, 30 December 1899.
pub open spec fn epoch() -> DateTimeParts {
    DateTimeParts {
        year: 1899,
        month: 12,
        day: 30,
        hour: 0,
        minute: 0,
        second: 0,
        nanosecond: 0,
    }
}

/// The start of the OLE Automation calendar.
pub fn oa_epoch_naive() -> (r: DateTimeParts)
    ensures
        r == epoch(),
        r.is_valid(),
{
    DateTimeParts { year: 1899, month: 12, day: 30, hour: 0, minute: 0, second: 0, nanosecond: 0 }
}

/// The whole milliseconds from the start of the OLE Automation calendar to a
/// date-time.
pub open spec fn oa_milliseconds(at: DateTimeParts) -> int {
    quotient(at.nanoseconds() - epoch().nanoseconds(), 1_000_000)
}

/// The whole milliseconds from the start of the OLE Automation calendar to a
/// date-time, rounded towards zero. `None` where there is no such date-time.
pub fn to_oa_milliseconds(at: DateTimeParts) -> (r: Option<i64>)
    ensures
        match r {
            Some(ms) => at.is_valid() && ms == oa_milliseconds(at),
            None => !at.is_valid(),
        },
{
    milliseconds_between(oa_epoch_naive(), at)
}

/// The date-time so many milliseconds behind the start of the OLE Automation
/// calendar. `None` where it is outside the range of years that dates have.
pub fn from_oa_milliseconds(ms: i64) -> (r: Option<DateTimeParts>)
    ensures
        match r {
            Some(at) => {
                &&& at.is_valid()
                &&& at.nanosecond < 1_000_000_000
                &&& at.nanoseconds() == epoch().nanoseconds() + ms * 1_000_000
            },
            None => forall|at: DateTimeParts|
                #![trigger at.nanoseconds()]
                at.is_valid() && at.nanosecond < 1_000_000_000 ==> at.nanoseconds()
                    != epoch().nanoseconds() + ms * 1_000_000,
        },
{
    milliseconds_behind(oa_epoch_naive(), ms)
}

/// The 1904 date system starts as many days behind the start of the OLE Automation
/// calendar as the offset between the date systems says.
pub proof fn law_date_systems_differ_by_the_offset()
    ensures
        day_number(1904, 1, 1) - day_number(1899, 12, 30) == EXCEL_1904_DATE_OFFSET_DAYS,
{
}

proof fn lemma_year_length(year: int)
    ensures
        days_before_year(year + 1) == days_before_year(year) + if is_leap(year) {
            366int
        } else {
            365
        },
{
}

proof fn lemma_years_apart(a: int, b: int)
    requires
        a < b,
    ensures
        days_before_year(a + 1) <= days_before_year(b),
    decreases b - a,
{
    lemma_year_length(b - 1);
    if a + 1 < b {
        lemma_years_apart(a, b - 1);
    }
}

/// No two days have the same number.
proof fn lemma_day_number_unique(p: DateTimeParts, q: DateTimeParts)
    requires
        p.is_valid(),
        q.is_valid(),
        day_number(p.year as int, p.month as int, p.day as int) == day_number(
            q.year as int,
            q.month as int,
            q.day as int,
        ),
    ensures
        p.year == q.year,
        p.month == q.month,
        p.day == q.day,
{
    lemma_year_length(p.year as int);
    lemma_year_length(q.year as int);
    assert(days_before_month(p.year as int, p.month as int) + p.day <= if is_leap(p.year as int) {
        366int
    } else {
        365
    });
    assert(days_before_month(q.year as int, q.month as int) + q.day <= if is_leap(q.year as int) {
        366int
    } else {
        365
    });
    assert(days_before_month(p.year as int, p.month as int) + p.day >= 1);
    assert(days_before_month(q.year as int, q.month as int) + q.day >= 1);
    if p.year < q.year {
        lemma_years_apart(p.year as int, q.year as int);
    } else if q.year < p.year {
        lemma_years_apart(q.year as int, p.year as int);
    }
    assert(p.year == q.year);
}

/// A date-time with whole milliseconds that lies in no leap second is the only one
/// that many milliseconds behind the start of the calendar: what its milliseconds
/// lead back to is the date-time itself.
pub proof fn law_milliseconds_round_trip(at: DateTimeParts, back: DateTimeParts)
    requires
        at.is_valid(),
        at.nanosecond < 1_000_000_000,
        at.nanosecond % 1_000_000 == 0,
        back.is_valid(),
        back.nanosecond < 1_000_000_000,
        back.nanoseconds() == epoch().nanoseconds() + oa_milliseconds(at) * 1_000_000,
    ensures
        back == at,
{
    let m = day_number(at.year as int, at.month as int, at.day as int);
    let n = day_number(back.year as int, back.month as int, back.day as int);
    let e = day_number(1899, 12, 30);
    let s = at.hour * 3600 + at.minute * 60 + at.second;
    let t = back.hour * 3600 + back.minute * 60 + back.second;
    lemma_same_instant(m, s, at.nanosecond as int, n, t, back.nanosecond as int, e);
    lemma_day_number_unique(at, back);
}

/// The nanoseconds of a day, a second of it and a fraction of the second.
spec fn instant(day: int, second: int, nanosecond: int) -> int {
    (day * 86_400 + second) * 1_000_000_000 + nanosecond
}

proof fn lemma_same_instant(m: int, s: int, x: int, n: int, t: int, y: int, e: int)
    requires
        0 <= s < 86_400,
        0 <= t < 86_400,
        0 <= x < 1_000_000_000,
        0 <= y < 1_000_000_000,
        x % 1_000_000 == 0,
        instant(n, t, y) == instant(e, 0, 0) + quotient(
            instant(m, s, x) - instant(e, 0, 0),
            1_000_000,
        ) * 1_000_000,
    ensures
        m == n,
        s == t,
        x == y,
{
    let k = x / 1_000_000;
    assert(x == k * 1_000_000);
    let d = (m * 86_400 + s - e * 86_400) * 1000 + k;
    assert(instant(m, s, x) - instant(e, 0, 0) == d * 1_000_000);
    assert(quotient(d * 1_000_000, 1_000_000) == d);
    assert(instant(n, t, y) == instant(m, s, x));
}

} // verus!
