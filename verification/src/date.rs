//! Calendar dates as plain year/month/day integers, with the proleptic
//! Gregorian validity rules, a total order, and exact rendering.

use vstd::prelude::*;
use crate::numfmt::{dec_str, u64_to_string};
use crate::DbError;

verus! {

/// A calendar date.  `MIN_YEAR-01-01` and `MAX_YEAR-12-31` double as the
/// "minus infinity" and "plus infinity" ends of open ranges.
#[derive(Debug, Clone, Copy, PartialEq, Eq, Structural)]
pub struct Date {
    pub year: i32,
    pub month: u8,
    pub day: u8,
}

pub const MIN_YEAR: i32 = -9999;
pub const MAX_YEAR: i32 = 9999;

/// Whether `y` is a leap year under the Gregorian rule.
pub open spec fn spec_is_leap_year(y: int) -> bool {
    y % 4 == 0 && (y % 100 != 0 || y % 400 == 0)
}

/// The number of days in month `m` of year `y`.
pub open spec fn spec_days_in_month(y: int, m: int) -> int {
    if m == 2 {
        if spec_is_leap_year(y) { 29 } else { 28 }
    } else if m == 4 || m == 6 || m == 9 || m == 11 {
        30
    } else {
        31
    }
}

impl Date {
    /// A well-formed date: the year in range and the day valid for the month.
    pub open spec fn valid(self) -> bool {
        &&& MIN_YEAR <= self.year <= MAX_YEAR
        &&& 1 <= self.month <= 12
        &&& 1 <= self.day <= spec_days_in_month(self.year as int, self.month as int)
    }

    /// The lexicographic order on (year, month, day).
    pub open spec fn spec_le(self, other: Date) -> bool {
        if self.year != other.year {
            self.year < other.year
        } else if self.month != other.month {
            self.month < other.month
        } else {
            self.day <= other.day
        }
    }

    /// `self` comes strictly before `other`.
    pub open spec fn spec_lt(self, other: Date) -> bool {
        self.spec_le(other) && self != other
    }

    /// Comparison, usable from executable code.
    pub fn le(&self, other: &Date) -> (r: bool)
        ensures
            r == self.spec_le(*other),
    {
        if self.year != other.year {
            self.year < other.year
        } else if self.month != other.month {
            self.month < other.month
        } else {
            self.day <= other.day
        }
    }

    /// Strict comparison, usable from executable code.
    pub fn lt(&self, other: &Date) -> (r: bool)
        ensures
            r == self.spec_lt(*other),
    {
        if self.year != other.year {
            self.year < other.year
        } else if self.month != other.month {
            self.month < other.month
        } else {
            self.day < other.day
        }
    }

    /// The earliest representable date; stands for an open lower bound.
    pub fn min_date() -> (d: Date)
        ensures
            d == (Date { year: MIN_YEAR, month: 1, day: 1 }),
            d.valid(),
    {
        Date { year: MIN_YEAR, month: 1, day: 1 }
    }

    /// The latest representable date; stands for an open upper bound.
    pub fn max_date() -> (d: Date)
        ensures
            d == (Date { year: MAX_YEAR, month: 12, day: 31 }),
            d.valid(),
    {
        Date { year: MAX_YEAR, month: 12, day: 31 }
    }
}

/// Whether `y` is a leap year.
pub fn is_leap_year(y: i32) -> (r: bool)
    ensures
        r == spec_is_leap_year(y as int),
{
    y % 4 == 0 && (y % 100 != 0 || y % 400 == 0)
}

/// The number of days in month `m` of year `y`.
pub fn days_in_month(y: i32, m: u8) -> (r: u8)
    requires
        1 <= m <= 12,
    ensures
        r == spec_days_in_month(y as int, m as int),
{
    if m == 2 {
        if is_leap_year(y) { 29 } else { 28 }
    } else if m == 4 || m == 6 || m == 9 || m == 11 {
        30
    } else {
        31
    }
}

/// Builds a date, if the components form a valid one.
pub fn from_ymd(year: i32, month: u8, day: u8) -> (r: Option<Date>)
    ensures
        ({
            let d = Date { year, month, day };
            if d.valid() {
                r == Some(d)
            } else {
                r is None
            }
        }),
{
    if year < MIN_YEAR || year > MAX_YEAR || month < 1 || month > 12 {
        return None;
    }
    if day < 1 || day > days_in_month(year, month) {
        return None;
    }
    Some(Date { year, month, day })
}

/// The first day of the given month.
pub fn first_day_of_month(year: i32, month: u8) -> (r: Result<Date, DbError>)
    ensures
        ({
            let d = Date { year, month, day: 1 };
            if d.valid() {
                r == Ok::<Date, DbError>(d)
            } else {
                r == Err::<Date, DbError>(DbError::InvalidDate)
            }
        }),
{
    match from_ymd(year, month, 1) {
        Some(d) => Ok(d),
        None => Err(DbError::InvalidDate),
    }
}

/// The last day of the given month.
pub fn last_day_of_month(year: i32, month: u8) -> (r: Result<Date, DbError>)
    ensures
        ({
            if MIN_YEAR <= year <= MAX_YEAR && 1 <= month <= 12 {
                r == Ok::<Date, DbError>(Date {
                    year,
                    month,
                    day: spec_days_in_month(year as int, month as int) as u8,
                })
            } else {
                r == Err::<Date, DbError>(DbError::InvalidDate)
            }
        }),
{
    if year < MIN_YEAR || year > MAX_YEAR || month < 1 || month > 12 {
        return Err(DbError::InvalidDate);
    }
    Ok(Date { year, month, day: days_in_month(year, month) })
}

/// `n` rendered in decimal and left-padded with zeros to at least `w`
/// characters.
pub open spec fn padded_dec_str(n: nat, w: nat) -> Seq<char> {
    let base = dec_str(n);
    if base.len() >= w {
        base
    } else {
        Seq::new((w - base.len()) as nat, |i: int| '0') + base
    }
}

proof fn dec_str_len_bounds(n: nat)
    ensures
        dec_str(n).len() >= 1,
        n < 10 ==> dec_str(n).len() == 1,
        10 <= n < 100 ==> dec_str(n).len() == 2,
        100 <= n < 1000 ==> dec_str(n).len() == 3,
        1000 <= n < 10000 ==> dec_str(n).len() == 4,
        n >= 10 ==> dec_str(n).len() >= 2,
        n >= 100 ==> dec_str(n).len() >= 3,
        n >= 1000 ==> dec_str(n).len() >= 4,
    decreases n,
{
    if n >= 10 {
        dec_str_len_bounds(n / 10);
    }
}

/// Renders `n` zero-padded to width 2.
pub fn pad2(n: u8) -> (s: String)
    requires
        n < 100,
    ensures
        s@ == padded_dec_str(n as nat, 2),
{
    proof {
        reveal_strlit("0");
        dec_str_len_bounds(n as nat);
    }
    let digits = u64_to_string(n as u64);
    if n < 10 {
        let mut s = String::from_str("0");
        s.append(digits.as_str());
        proof {
            assert(s@ =~= padded_dec_str(n as nat, 2));
        }
        s
    } else {
        proof {
            assert(digits@ =~= padded_dec_str(n as nat, 2));
        }
        digits
    }
}

/// Renders the magnitude of `n` zero-padded to width 4, with a leading
/// `'-'` for negative years.
pub fn pad4_year(n: i32) -> (s: String)
    requires
        -9999 <= n <= 9999,
    ensures
        n >= 0 ==> s@ == padded_dec_str(n as nat, 4),
        n < 0 ==> s@ == seq!['-'] + padded_dec_str((-n) as nat, 4),
{
    proof {
        reveal_strlit("-");
        reveal_strlit("0");
        reveal_strlit("00");
        reveal_strlit("000");
    }
    let mag: u32 = if n < 0 { (-n) as u32 } else { n as u32 };
    proof {
        dec_str_len_bounds(mag as nat);
    }
    let digits = u64_to_string(mag as u64);
    let mut s = String::new();
    if n < 0 {
        s.append("-");
    }
    if mag < 10 {
        s.append("000");
    } else if mag < 100 {
        s.append("00");
    } else if mag < 1000 {
        s.append("0");
    }
    s.append(digits.as_str());
    proof {
        if n >= 0 {
            assert(s@ =~= padded_dec_str(n as nat, 4));
        } else {
            assert(s@ =~= seq!['-'] + padded_dec_str((-n) as nat, 4));
        }
    }
    s
}

/// The rendering of a date with the given separator between the
/// zero-padded year, month and day.
pub open spec fn date_str(d: Date, sep: char) -> Seq<char> {
    let y = if d.year >= 0 {
        padded_dec_str(d.year as nat, 4)
    } else {
        seq!['-'] + padded_dec_str((-d.year) as nat, 4)
    };
    y + seq![sep] + padded_dec_str(d.month as nat, 2) + seq![sep] + padded_dec_str(
        d.day as nat,
        2,
    )
}

/// Renders a date as `YYYY-MM-DD`.
pub fn format_iso(d: &Date) -> (s: String)
    requires
        d.valid(),
    ensures
        s@ == date_str(*d, '-'),
{
    proof {
        reveal_strlit("-");
    }
    let mut s = pad4_year(d.year);
    s.append("-");
    let m = pad2(d.month);
    s.append(m.as_str());
    s.append("-");
    let dd = pad2(d.day);
    s.append(dd.as_str());
    proof {
        assert(seq!['-'] =~= "-"@) by {
            reveal_strlit("-");
        }
        assert(s@ =~= date_str(*d, '-'));
    }
    s
}

/// Renders a date as `YYYY/MM/DD`.
pub fn format_slashed(d: &Date) -> (s: String)
    requires
        d.valid(),
    ensures
        s@ == date_str(*d, '/'),
{
    proof {
        reveal_strlit("/");
    }
    let mut s = pad4_year(d.year);
    s.append("/");
    let m = pad2(d.month);
    s.append(m.as_str());
    s.append("/");
    let dd = pad2(d.day);
    s.append(dd.as_str());
    proof {
        assert(s@ =~= date_str(*d, '/'));
    }
    s
}

} // verus!
