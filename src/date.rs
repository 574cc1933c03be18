//! Calendar dates, as the front matter and the link list give them.

use vstd::prelude::*;

verus! {

/// A calendar date held as year, month and day.
#[derive(Clone, Copy, Debug, PartialEq, Eq, Structural)]
pub struct Date {
    pub year: i16,
    pub month: i8,
    pub day: i8,
}

pub open spec fn is_leap_year(y: int) -> bool {
    (y % 4 == 0 && y % 100 != 0) || y % 400 == 0
}

pub open spec fn days_in_month(y: int, m: int) -> int {
    if m == 2 {
        if is_leap_year(y) { 29 } else { 28 }
    } else if m == 4 || m == 6 || m == 9 || m == 11 {
        30
    } else {
        31
    }
}

impl Date {
    /// A real date of the years -9999 to 9999.
    pub open spec fn wf(self) -> bool {
        &&& -9999 <= self.year <= 9999
        &&& 1 <= self.month <= 12
        &&& 1 <= self.day <= days_in_month(self.year as int, self.month as int)
    }

    /// Makes the date `year`-`month`-`day`, or nothing when there is no such date.
    pub fn new(year: i16, month: i8, day: i8) -> (r: Option<Date>)
        ensures
            r == (if (Date { year, month, day }).wf() {
                Some(Date { year, month, day })
            } else {
                None
            }),
    {
        if year < -9999 || year > 9999 || month < 1 || month > 12 || day < 1 {
            return None;
        }
        let leap = (year % 4 == 0 && year % 100 != 0) || year % 400 == 0;
        let dim: i8 = if month == 2 {
            if leap { 29 } else { 28 }
        } else if month == 4 || month == 6 || month == 9 || month == 11 {
            30
        } else {
            31
        };
        if day > dim {
            None
        } else {
            Some(Date { year, month, day })
        }
    }
}

/// `a` falls on or before `b`.
pub open spec fn date_le(a: Date, b: Date) -> bool {
    a.year < b.year || (a.year == b.year && (a.month < b.month || (a.month == b.month
        && a.day <= b.day)))
}

/// The order of optional dates: no date comes before every date.
pub open spec fn opt_date_le(a: Option<Date>, b: Option<Date>) -> bool {
    match (a, b) {
        (None, _) => true,
        (Some(_), None) => false,
        (Some(x), Some(y)) => date_le(x, y),
    }
}

/// Decides `date_le`.
pub fn date_is_le(a: &Date, b: &Date) -> (r: bool)
    ensures
        r == date_le(*a, *b),
{
    a.year < b.year || (a.year == b.year && (a.month < b.month || (a.month == b.month && a.day
        <= b.day)))
}

/// Decides `opt_date_le`.
pub fn opt_date_is_le(a: &Option<Date>, b: &Option<Date>) -> (r: bool)
    ensures
        r == opt_date_le(*a, *b),
{
    match (a, b) {
        (None, _) => true,
        (Some(_), None) => false,
        (Some(x), Some(y)) => date_is_le(x, y),
    }
}

/// Any two optional dates are ordered one way or the other.
pub proof fn lemma_opt_date_total(a: Option<Date>, b: Option<Date>)
    ensures
        opt_date_le(a, b) || opt_date_le(b, a),
{
}

/// The order of optional dates is transitive.
pub proof fn lemma_opt_date_trans(a: Option<Date>, b: Option<Date>, c: Option<Date>)
    requires
        opt_date_le(a, b),
        opt_date_le(b, c),
    ensures
        opt_date_le(a, c),
{
}

} // verus!
