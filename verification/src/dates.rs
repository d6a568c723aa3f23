use vstd::prelude::*;

use crate::text::{digit_val, is_digit_char};
use vstd::string::StrSliceExecFns;

verus! {

/// A calendar date as plain year, month and day numbers.
#[derive(Clone, Copy, Debug)]
pub struct Date {
    pub year: u32,
    pub month: u32,
    pub day: u32,
}

pub open spec fn is_leap_year(y: int) -> bool {
    y % 4 == 0 && (y % 100 != 0 || y % 400 == 0)
}

pub open spec fn days_in_month(y: int, m: int) -> int
    recommends
        1 <= m <= 12,
{
    if m == 2 {
        if is_leap_year(y) {
            29
        } else {
            28
        }
    } else if m == 4 || m == 6 || m == 9 || m == 11 {
        30
    } else {
        31
    }
}

impl Date {
    pub open spec fn valid(self) -> bool {
        &&& self.year <= 9999
    &&& 1 <= self.month <= 12
    &&& 1 <= self.day <= days_in_month(self.year as int, self.month as int)
    }

    /// Months elapsed since January of year zero; the index that time
    /// windows advance by.
    pub open spec fn month_index(self) -> int {
        self.year * 12 + self.month - 1
    }
}

/// Ten characters in the exact shape `YYYY-MM-DD`.
pub open spec fn date_str_shape(s: Seq<char>) -> bool {
    &&& s.len() == 10
    &&& is_digit_char(s[0])
    &&& is_digit_char(s[1])
    &&& is_digit_char(s[2])
    &&& is_digit_char(s[3])
    &&& s[4] == '-'
    &&& is_digit_char(s[5])
    &&& is_digit_char(s[6])
    &&& s[7] == '-'
    &&& is_digit_char(s[8])
    &&& is_digit_char(s[9])
}

pub open spec fn year_of(s: Seq<char>) -> int {
    digit_val(s[0]) * 1000 + digit_val(s[1]) * 100 + digit_val(s[2]) * 10 + digit_val(s[3])
}

pub open spec fn month_of(s: Seq<char>) -> int {
    digit_val(s[5]) * 10 + digit_val(s[6])
}

pub open spec fn day_of(s: Seq<char>) -> int {
    digit_val(s[8]) * 10 + digit_val(s[9])
}

/// A well-shaped date string whose month and day denote a real calendar day.
pub open spec fn valid_date_str(s: Seq<char>) -> bool {
    &&& date_str_shape(s)
    &&& 1 <= month_of(s) <= 12
    &&& 1 <= day_of(s) <= days_in_month(year_of(s), month_of(s))
}

/// The digit value of a character, if it is a digit.
pub fn digit_of(c: char) -> (r: Option<u32>)
    ensures
        r is Some <==> is_digit_char(c),
        r matches Some(v) ==> v as int == digit_val(c) && v <= 9,
{
    let u = c as u32;
    if 48 <= u && u <= 57 {
        Some(u - 48)
    } else {
        None
    }
}

/// How many days the given month has.
pub fn month_days(year: u32, month: u32) -> (r: u32)
    requires
        1 <= month <= 12,
    ensures
        r as int == days_in_month(year as int, month as int),
{
    if month == 2 {
        if year % 4 == 0 && (year % 100 != 0 || year % 400 == 0) {
            29
        } else {
            28
        }
    } else if month == 4 || month == 6 || month == 9 || month == 11 {
        30
    } else {
        31
    }
}

/// Parses a date written as `YYYY-MM-DD` and checks that it names a real
/// calendar day; any other input is rejected.
pub fn parse_date(s: &str) -> (r: Option<Date>)
    ensures
        r is Some <==> valid_date_str(s@),
        r matches Some(d) ==> d.year as int == year_of(s@) && d.month as int == month_of(s@)
            && d.day as int == day_of(s@) && d.valid(),
{
    if s.unicode_len() != 10 {
        return None;
    }
    if s.get_char(4) as u32 != 45 || s.get_char(7) as u32 != 45 {
        return None;
    }
    let d0 = match digit_of(s.get_char(0)) {
        Some(v) => v,
        None => { return None; },
    };
    let d1 = match digit_of(s.get_char(1)) {
        Some(v) => v,
        None => { return None; },
    };
    let d2 = match digit_of(s.get_char(2)) {
        Some(v) => v,
        None => { return None; },
    };
    let d3 = match digit_of(s.get_char(3)) {
        Some(v) => v,
        None => { return None; },
    };
    let d5 = match digit_of(s.get_char(5)) {
        Some(v) => v,
        None => { return None; },
    };
    let d6 = match digit_of(s.get_char(6)) {
        Some(v) => v,
        None => { return None; },
    };
    let d8 = match digit_of(s.get_char(8)) {
        Some(v) => v,
        None => { return None; },
    };
    let d9 = match digit_of(s.get_char(9)) {
        Some(v) => v,
        None => { return None; },
    };
    let year = d0 * 1000 + d1 * 100 + d2 * 10 + d3;
    let month = d5 * 10 + d6;
    let day = d8 * 10 + d9;
    if month < 1 || month > 12 {
        return None;
    }
    if day < 1 || day > month_days(year, month) {
        return None;
    }
    Some(Date { year, month, day })
}

} // verus!
