use vstd::prelude::*;

verus! {

/// A calendar date held as plain year, month and day numbers.
///
/// The feed publishes one table of rates per calendar date; datasets keep
/// their days in strictly ascending date order, and lookups compare dates
/// through the numeric key below.
#[derive(Clone, Copy, Debug, PartialEq, Eq, Structural)]
pub struct Date {
    pub year: u16,
    pub month: u8,
    pub day: u8,
}

pub open spec fn spec_is_leap_year(y: int) -> bool {
    (y % 4 == 0 && y % 100 != 0) || y % 400 == 0
}

pub open spec fn spec_days_in_month(y: int, m: int) -> int {
    if m == 2 {
        if spec_is_leap_year(y) {
            29
        } else {
            28
        }
    } else if m == 4 || m == 6 || m == 9 || m == 11 {
        30
    } else {
        31
    }
}

impl Date {
    /// A date is valid when its month is in range and its day exists in
    /// that month of that year (February 29 only in leap years).
    pub open spec fn wf(self) -> bool {
        &&& 1 <= self.month <= 12
        &&& 1 <= self.day <= spec_days_in_month(self.year as int, self.month as int)
    }

    /// Total order on dates: later dates have larger keys.
    pub open spec fn key(self) -> int {
        self.year * 10000 + self.month * 100 + self.day
    }

    /// True when `self` is strictly before `other`.
    pub fn lt(&self, other: &Date) -> (r: bool)
        ensures
            r == (self.key() < other.key()),
    {
        let a: u32 = (self.year as u32) * 10000 + (self.month as u32) * 100 + (self.day as u32);
        let b: u32 = (other.year as u32) * 10000 + (other.month as u32) * 100 + (other.day as u32);
        a < b
    }

    /// True when `self` is on or before `other`.
    pub fn le(&self, other: &Date) -> (r: bool)
        ensures
            r == (self.key() <= other.key()),
    {
        let a: u32 = (self.year as u32) * 10000 + (self.month as u32) * 100 + (self.day as u32);
        let b: u32 = (other.year as u32) * 10000 + (other.month as u32) * 100 + (other.day as u32);
        a <= b
    }

    /// Checked constructor: `Some` exactly for valid calendar dates.
    pub fn new(year: u16, month: u8, day: u8) -> (r: Option<Date>)
        ensures
            match r {
                Some(d) => d.wf() && d == (Date { year, month, day }),
                None => !(Date { year, month, day }).wf(),
            },
    {
        let limit: u8 = days_in_month(year, month);
        if 1 <= month && month <= 12 && 1 <= day && day <= limit {
            Some(Date { year, month, day })
        } else {
            None
        }
    }
}

/// Number of days in the given month, with the leap-year rule for February.
pub fn days_in_month(year: u16, month: u8) -> (r: u8)
    ensures
        r == spec_days_in_month(year as int, month as int),
{
    if month == 2 {
        if (year % 4 == 0 && year % 100 != 0) || year % 400 == 0 {
            29
        } else {
            28
        }
    } else if month == 4 || month == 6 || month == 9 || month == 11 {
        30
    } else {
        31
    }
}

} // verus!
