//! Calendar dates as plain year/month/day values: parsing the `YYYY-MM-DD`
//! form and rendering the display and timestamp forms.
use vstd::prelude::*;

verus! {

use crate::chars::char_digit_val;
use crate::chars::char_is_digit;
use crate::chars::digit_val;
use crate::chars::is_digit_char;
use crate::chars::padded2;
use crate::chars::padded4;
use crate::chars::push_lit;
use crate::chars::u64_to_chars_pad2;
use crate::chars::u64_to_chars_pad4;
use crate::chars::push_chars;

/// A calendar date in the proleptic Gregorian calendar, held as plain
/// numbers.
#[derive(Debug, Clone, Copy, PartialEq, Eq, Structural)]
pub struct DateStamp {
    pub year: u32,
    pub month: u32,
    pub day: u32,
}

pub open spec fn is_leap_year(y: nat) -> bool {
    (y % 4 == 0 && y % 100 != 0) || y % 400 == 0
}

pub open spec fn days_in_month(y: nat, m: nat) -> nat {
    if m == 2 {
        if is_leap_year(y) {
            29
        } else {
            28
        }
    } else if m == 4 || m == 6 || m == 9 || m == 11 {
        30
    } else {
        31
    }
}

/// A date whose fields form a real calendar day with a four-digit year.
pub open spec fn valid_date(d: DateStamp) -> bool {
    &&& d.year <= 9999
    &&& 1 <= d.month <= 12
    &&& 1 <= d.day <= days_in_month(d.year as nat, d.month as nat)
}

/// Ten characters in the exact shape `YYYY-MM-DD`.
pub open spec fn is_date_shape(s: Seq<char>) -> bool {
    &&& s.len() == 10
    &&& is_digit_char(s[0])
    &&& is_digit_char(s[1])
    &&& is_digit_char(s[2])
    &&& is_digit_char(s[3])
    &&& s[4] == '-'
    &&& is_digit_char(s[5])
    &&& is_digit_char(s[6])
    &&& s[7] == '-'
    &&& is_digit_char(s[8])
    &&& is_digit_char(s[9])
}

/// The date the characters of a `YYYY-MM-DD` string spell.
pub open spec fn date_of_shape(s: Seq<char>) -> DateStamp {
    DateStamp {
        year: (digit_val(s[0]) * 1000 + digit_val(s[1]) * 100 + digit_val(s[2]) * 10 + digit_val(
            s[3],
        )) as u32,
        month: (digit_val(s[5]) * 10 + digit_val(s[6])) as u32,
        day: (digit_val(s[8]) * 10 + digit_val(s[9])) as u32,
    }
}

/// The parse of a raw date string: a date only when the string has the
/// `YYYY-MM-DD` shape and spells a real calendar day.
pub open spec fn parsed_date(s: Seq<char>) -> Option<DateStamp> {
    if is_date_shape(s) && valid_date(date_of_shape(s)) {
        Some(date_of_shape(s))
    } else {
        None
    }
}

fn days_in_month_exec(y: u32, m: u32) -> (r: u32)
    ensures
        r == days_in_month(y as nat, m as nat),
{
    if m == 2 {
        if (y % 4 == 0 && y % 100 != 0) || y % 400 == 0 {
            29
        } else {
            28
        }
    } else if m == 4 || m == 6 || m == 9 || m == 11 {
        30
    } else {
        31
    }
}

/// Parses a `YYYY-MM-DD` date string; `None` on any other shape or on an
/// impossible calendar day.
pub fn parse_date(v: &Vec<char>) -> (r: Option<DateStamp>)
    ensures
        r == parsed_date(v@),
{
    if v.len() != 10 {
        return None;
    }
    if !(char_is_digit(v[0]) && char_is_digit(v[1]) && char_is_digit(v[2]) && char_is_digit(v[3])
        && v[4] == '-' && char_is_digit(v[5]) && char_is_digit(v[6]) && v[7] == '-'
        && char_is_digit(v[8]) && char_is_digit(v[9])) {
        return None;
    }
    let year = char_digit_val(v[0]) * 1000 + char_digit_val(v[1]) * 100 + char_digit_val(v[2]) * 10
        + char_digit_val(v[3]);
    let month = char_digit_val(v[5]) * 10 + char_digit_val(v[6]);
    let day = char_digit_val(v[8]) * 10 + char_digit_val(v[9]);
    let d = DateStamp { year, month, day };
    if 1 <= month && month <= 12 && 1 <= day && day <= days_in_month_exec(year, month) {
        Some(d)
    } else {
        None
    }
}

/// The name of a calendar month; empty for a value outside `1..=12`.
pub open spec fn month_name(m: nat) -> Seq<char> {
    if m == 1 {
        "January"@
    } else if m == 2 {
        "February"@
    } else if m == 3 {
        "March"@
    } else if m == 4 {
        "April"@
    } else if m == 5 {
        "May"@
    } else if m == 6 {
        "June"@
    } else if m == 7 {
        "July"@
    } else if m == 8 {
        "August"@
    } else if m == 9 {
        "September"@
    } else if m == 10 {
        "October"@
    } else if m == 11 {
        "November"@
    } else if m == 12 {
        "December"@
    } else {
        ""@
    }
}

fn month_name_exec(m: u32) -> (r: &'static str)
    ensures
        r@ == month_name(m as nat),
{
    match m {
        1 => "January",
        2 => "February",
        3 => "March",
        4 => "April",
        5 => "May",
        6 => "June",
        7 => "July",
        8 => "August",
        9 => "September",
        10 => "October",
        11 => "November",
        12 => "December",
        _ => "",
    }
}

/// The timestamp form of a date: midnight UTC in RFC 3339 notation.
pub open spec fn iso_date_str(d: DateStamp) -> Seq<char> {
    padded4(d.year as nat) + "-"@ + padded2(d.month as nat) + "-"@ + padded2(d.day as nat)
        + "T00:00:00+00:00"@
}

/// The display form of a date: month name, zero-padded day, and year.
pub open spec fn formatted_date_str(d: DateStamp) -> Seq<char> {
    month_name(d.month as nat) + " "@ + padded2(d.day as nat) + ", "@ + padded4(d.year as nat)
}

pub fn iso_date_chars(d: &DateStamp) -> (r: Vec<char>)
    ensures
        r@ == iso_date_str(*d),
{
    let mut v: Vec<char> = Vec::new();
    let y = u64_to_chars_pad4(d.year as u64);
    push_chars(&mut v, &y);
    push_lit(&mut v, "-");
    let m = u64_to_chars_pad2(d.month as u64);
    push_chars(&mut v, &m);
    push_lit(&mut v, "-");
    let dd = u64_to_chars_pad2(d.day as u64);
    push_chars(&mut v, &dd);
    push_lit(&mut v, "T00:00:00+00:00");
    proof {
        assert(v@ =~= iso_date_str(*d));
    }
    v
}

pub fn formatted_date_chars(d: &DateStamp) -> (r: Vec<char>)
    ensures
        r@ == formatted_date_str(*d),
{
    let mut v: Vec<char> = Vec::new();
    push_lit(&mut v, month_name_exec(d.month));
    push_lit(&mut v, " ");
    let dd = u64_to_chars_pad2(d.day as u64);
    push_chars(&mut v, &dd);
    push_lit(&mut v, ", ");
    let y = u64_to_chars_pad4(d.year as u64);
    push_chars(&mut v, &y);
    proof {
        assert(v@ =~= formatted_date_str(*d));
    }
    v
}

/// A single number comparing dates chronologically.
pub open spec fn date_key(d: DateStamp) -> int {
    d.year * 10000 + d.month * 100 + d.day
}

pub fn date_key_exec(d: &DateStamp) -> (r: u64)
    requires
        valid_date(*d),
    ensures
        r == date_key(*d),
{
    (d.year as u64) * 10000 + (d.month as u64) * 100 + (d.day as u64)
}

} // verus!
