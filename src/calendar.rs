use vstd::prelude::*;
use crate::composite::{Composite, CompositeUnit, ScaleError, Sign};
use crate::conversion::{Conversion, default_format, default_format_composite};
use crate::unit::Unit;

verus! {

/// Milliseconds in a day.
pub const MS_PER_DAY: u64 = 86_400_000;

pub open spec fn is_leap(y: int) -> bool {
    y % 4 == 0 && (y % 100 != 0 || y % 400 == 0)
}

pub open spec fn year_days(y: int) -> int {
    if is_leap(y) {
        366
    } else {
        365
    }
}

pub open spec fn month_days(y: int, m: int) -> int {
    if m == 2 {
        if is_leap(y) {
            29
        } else {
            28
        }
    } else if m == 4 || m == 6 || m == 9 || m == 11 {
        30
    } else {
        31
    }
}

/// Days of year `y` in the months before month `m`.
pub open spec fn days_before_month(y: int, m: int) -> int
    decreases m,
{
    if m <= 1 {
        0
    } else {
        days_before_month(y, m - 1) + month_days(y, m - 1)
    }
}

/// Leap years among years 1 to `y`.
pub open spec fn leaps_through(y: int) -> int {
    y / 4 - y / 100 + y / 400
}

/// Days from 1970-01-01 to the first day of year `y`.
pub open spec fn days_before_year(y: int) -> int {
    365 * (y - 1970) + leaps_through(y - 1) - leaps_through(1969)
}

/// Year, month, day, hour, minute, second and millisecond of an actual
/// instant from 1970 on.
pub open spec fn valid_date(v: Seq<u64>) -> bool {
    &&& v.len() == 7
    &&& v[0] >= 1970
    &&& 1 <= v[1] <= 12
    &&& 1 <= v[2] <= month_days(v[0] as int, v[1] as int)
    &&& v[3] < 24
    &&& v[4] < 60
    &&& v[5] < 60
    &&& v[6] < 1000
}

/// Milliseconds from 1970-01-01 00:00 to the instant `v` names.
pub open spec fn date_ms(v: Seq<u64>) -> int {
    let days = days_before_year(v[0] as int) + days_before_month(v[0] as int, v[1] as int) + v[2]
        - 1;
    days * 86_400_000 + v[3] * 3_600_000 + v[4] * 60_000 + v[5] * 1000 + v[6]
}

/// Calendar composite value to milliseconds: `OutOfBounds` for a composite
/// value that names no instant (day 30 of February, month 13, ...).
pub open spec fn calendar_from(c: Composite) -> Result<u64, ScaleError> {
    if !valid_date(c.values) {
        Err(ScaleError::OutOfBounds)
    } else if date_ms(c.values) < 0 || date_ms(c.values) > u64::MAX {
        Err(ScaleError::Overflow)
    } else {
        Ok(date_ms(c.values) as u64)
    }
}

/// Year reached, and days left into it, walking `days` days forward from
/// January 1 of year `y`.
pub open spec fn year_walk(days: nat, y: nat) -> (nat, nat)
    decreases days,
{
    if days < year_days(y as int) {
        (y, days)
    } else {
        year_walk((days - year_days(y as int)) as nat, y + 1)
    }
}

/// Month reached, and days left into it, walking `days` days forward from the
/// first day of month `m` of year `y` (December takes what is left).
pub open spec fn month_walk(y: int, days: nat, m: nat) -> (nat, nat)
    decreases 12 - m,
{
    if m >= 12 || days < month_days(y, m as int) {
        (m, days)
    } else {
        month_walk(y, (days - month_days(y, m as int)) as nat, m + 1)
    }
}

/// Milliseconds to year, month, day, hour, minute, second, millisecond.
pub open spec fn calendar_to(value: u64) -> Composite {
    let (y, dy) = year_walk((value / MS_PER_DAY) as nat, 1970);
    let (m, dm) = month_walk(y as int, dy, 1);
    let rem = value % MS_PER_DAY;
    Composite {
        values: seq![
            y as u64,
            m as u64,
            (dm + 1) as u64,
            (rem / 3_600_000) as u64,
            (rem % 3_600_000 / 60_000) as u64,
            (rem % 60_000 / 1000) as u64,
            (rem % 1000) as u64,
        ],
        sign: Sign::Positive,
    }
}

fn leap(y: u64) -> (r: bool)
    ensures
        r == is_leap(y as int),
{
    y % 4 == 0 && (y % 100 != 0 || y % 400 == 0)
}

fn year_length(y: u64) -> (r: u64)
    ensures
        r == year_days(y as int),
{
    if leap(y) {
        366
    } else {
        365
    }
}

fn days_in_month(y: u64, m: u64) -> (r: u64)
    ensures
        r == month_days(y as int, m as int),
        28 <= r <= 31,
{
    if m == 2 {
        if leap(y) {
            29
        } else {
            28
        }
    } else if m == 4 || m == 6 || m == 9 || m == 11 {
        30
    } else {
        31
    }
}

/// The Gregorian calendar, counting milliseconds from 1970-01-01 00:00 UTC.
/// Its scale has seven units, smallest first: millisecond, second, minute,
/// hour, day, month, year; composite values read year, month, day, hour,
/// minute, second, millisecond. Months and years have irregular lengths, so
/// both conversions are its own; text is the default.
#[derive(Clone, Copy, Debug)]
pub struct Gregorian;

impl Conversion for Gregorian {
    open spec fn accepts(&self, units: Seq<Unit>) -> bool {
        units.len() == 7
    }

    open spec fn to_spec(&self, units: Seq<Unit>, value: u64) -> Composite {
        calendar_to(value)
    }

    open spec fn from_spec(&self, units: Seq<Unit>, c: Composite) -> Result<u64, ScaleError> {
        calendar_from(c)
    }

    open spec fn format_spec(&self, units: Seq<Unit>, c: Composite) -> Seq<char> {
        default_format(units, c)
    }

    fn to_composite(&self, units: &Vec<Unit>, value: u64) -> (r: CompositeUnit) {
        let d0 = value / MS_PER_DAY;
        let mut days: u64 = d0;
        let mut year: u64 = 1970;
        while days >= year_length(year)
            invariant
                year_walk(days as nat, year as nat) == year_walk(d0 as nat, 1970),
                year + days <= 1970 + d0,
                year >= 1970,
                d0 <= u64::MAX / 1000,
            decreases days,
        {
            days = days - year_length(year);
            year = year + 1;
        }
        let mut month: u64 = 1;
        while month < 12 && days >= days_in_month(year, month)
            invariant
                1 <= month <= 12,
                month_walk(year as int, days as nat, month as nat) == month_walk(
                    year_walk(d0 as nat, 1970).0 as int,
                    year_walk(d0 as nat, 1970).1,
                    1,
                ),
                year_walk(d0 as nat, 1970).0 == year,
                days <= d0,
                d0 <= u64::MAX / 1000,
            decreases 12 - month,
        {
            days = days - days_in_month(year, month);
            month = month + 1;
        }
        let rem = value % MS_PER_DAY;
        let mut values: Vec<u64> = Vec::new();
        values.push(year);
        values.push(month);
        values.push(days + 1);
        values.push(rem / 3_600_000);
        values.push(rem % 3_600_000 / 60_000);
        values.push(rem % 60_000 / 1000);
        values.push(rem % 1000);
        let r = CompositeUnit { values, sign: Sign::Positive };
        assert(r@.values =~= calendar_to(value).values);
        r
    }

    fn from_composite(&self, units: &Vec<Unit>, c: &CompositeUnit) -> (r: Result<u64, ScaleError>) {
        if c.values.len() != 7 {
            return Err(ScaleError::OutOfBounds);
        }
        let year = c.values[0];
        let month = c.values[1];
        let day = c.values[2];
        let hour = c.values[3];
        let minute = c.values[4];
        let second = c.values[5];
        let ms = c.values[6];
        if year < 1970 || month < 1 || month > 12 {
            return Err(ScaleError::OutOfBounds);
        }
        if day < 1 || day > days_in_month(year, month) {
            return Err(ScaleError::OutOfBounds);
        }
        if hour >= 24 || minute >= 60 || second >= 60 || ms >= 1000 {
            return Err(ScaleError::OutOfBounds);
        }
        let mut before_month: u64 = 0;
        let mut k: u64 = 1;
        while k < month
            invariant
                1 <= k <= month <= 12,
                before_month == days_before_month(year as int, k as int),
                before_month <= 31 * (k - 1),
            decreases month - k,
        {
            before_month = before_month + days_in_month(year, k);
            k = k + 1;
        }
        let p = year - 1;
        proof {
            assert(leaps_through(1969) == 477);
        }
        let days: i128 = 365 * (year as i128 - 1970) + (p / 4) as i128 - (p / 100) as i128 + (p
            / 400) as i128 - 477 + before_month as i128 + day as i128 - 1;
        let total: i128 = days * 86_400_000 + hour as i128 * 3_600_000 + minute as i128 * 60_000
            + second as i128 * 1000 + ms as i128;
        proof {
            assert(days == days_before_year(year as int) + days_before_month(year as int, month as int)
                + day - 1);
            assert(total == date_ms(c.values@));
        }
        if total < 0 || total > u64::MAX as i128 {
            return Err(ScaleError::Overflow);
        }
        Ok(total as u64)
    }

    fn format(&self, units: &Vec<Unit>, c: &CompositeUnit) -> (r: String) {
        default_format_composite(units, c)
    }
}

} // verus!
