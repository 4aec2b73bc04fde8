//! The maintenance command's date input: parsing and calendar arithmetic.
//!
//! The bulk-update command takes a human-entered local date and time in the
//! zero-padded form of its example, `11/14/2024 16:59` (month/day/year
//! hour:minute). It is parsed and validated here, and turned into seconds
//! since the epoch of a timezone-less calendar; the caller applies the local
//! utc offset before writing the store. A string in any other shape is
//! rejected before anything is mutated, with a message that shows the
//! expected form.

use vstd::prelude::*;

verus! {

/// The five fields of a parsed date and time, not yet tied to any timezone.
#[derive(Clone, Copy, PartialEq, Eq, Structural)]
pub struct DateTimeParts {
    pub year: i64,
    pub month: i64,
    pub day: i64,
    pub hour: i64,
    pub minute: i64,
}

pub open spec fn is_digit(c: char) -> bool {
    48 <= c as u32 <= 57
}

pub open spec fn digit_val(c: char) -> int {
    c as u32 - 48
}

pub open spec fn two_digit_val(s: Seq<char>, i: int) -> int {
    digit_val(s[i]) * 10 + digit_val(s[i + 1])
}

pub open spec fn four_digit_val(s: Seq<char>, i: int) -> int {
    digit_val(s[i]) * 1000 + digit_val(s[i + 1]) * 100 + digit_val(s[i + 2]) * 10 + digit_val(
        s[i + 3],
    )
}

/// The input has exactly the shape `MM/DD/YYYY HH:MM`.
pub open spec fn wellformed_datetime(s: Seq<char>) -> bool {
    &&& s.len() == 16
    &&& s[2] == '/'
    &&& s[5] == '/'
    &&& s[10] == ' '
    &&& s[13] == ':'
    &&& is_digit(s[0]) && is_digit(s[1])
    &&& is_digit(s[3]) && is_digit(s[4])
    &&& is_digit(s[6]) && is_digit(s[7]) && is_digit(s[8]) && is_digit(s[9])
    &&& is_digit(s[11]) && is_digit(s[12])
    &&& is_digit(s[14]) && is_digit(s[15])
}

/// The five fields read off a well-formed input.
pub open spec fn parts_of(s: Seq<char>) -> DateTimeParts {
    DateTimeParts {
        year: four_digit_val(s, 6) as i64,
        month: two_digit_val(s, 0) as i64,
        day: two_digit_val(s, 3) as i64,
        hour: two_digit_val(s, 11) as i64,
        minute: two_digit_val(s, 14) as i64,
    }
}

pub open spec fn is_leap_year(y: int) -> bool {
    y % 4 == 0 && (y % 100 != 0 || y % 400 == 0)
}

pub open spec fn days_in_month(y: int, m: int) -> int {
    if m == 2 {
        if is_leap_year(y) {
            29
        } else {
            28
        }
    } else if m == 4 || m == 6 || m == 9 || m == 11 {
        30
    } else {
        31
    }
}

/// The fields name a real calendar date and time of day.
pub open spec fn valid_parts(p: DateTimeParts) -> bool {
    &&& 0 <= p.year <= 9999
    &&& 1 <= p.month <= 12
    &&& 1 <= p.day <= days_in_month(p.year as int, p.month as int)
    &&& 0 <= p.hour <= 23
    &&& 0 <= p.minute <= 59
}

/// What [`parse_datetime`] accepts and returns: the fields, exactly when the
/// input is well-formed and names a real date.
pub open spec fn parse_spec(s: Seq<char>) -> Option<DateTimeParts> {
    if wellformed_datetime(s) && valid_parts(parts_of(s)) {
        Some(parts_of(s))
    } else {
        None
    }
}

fn digit_value(c: char) -> (r: Option<i64>)
    ensures
        match r {
            Some(v) => is_digit(c) && v == digit_val(c),
            None => !is_digit(c),
        },
{
    let v = c as u32;
    if 48 <= v && v <= 57 {
        Some((v - 48) as i64)
    } else {
        None
    }
}

/// Parse a `MM/DD/YYYY HH:MM` string; anything else, a nonexistent date
/// included, is `None`.
pub fn parse_datetime(s: &str) -> (r: Option<DateTimeParts>)
    ensures
        r == parse_spec(s@),
{
    if s.unicode_len() != 16 {
        return None;
    }
    if s.get_char(2) != '/' || s.get_char(5) != '/' || s.get_char(10) != ' ' || s.get_char(13)
        != ':' {
        return None;
    }
    let m1 = digit_value(s.get_char(0));
    let m2 = digit_value(s.get_char(1));
    let d1 = digit_value(s.get_char(3));
    let d2 = digit_value(s.get_char(4));
    let y1 = digit_value(s.get_char(6));
    let y2 = digit_value(s.get_char(7));
    let y3 = digit_value(s.get_char(8));
    let y4 = digit_value(s.get_char(9));
    let h1 = digit_value(s.get_char(11));
    let h2 = digit_value(s.get_char(12));
    let n1 = digit_value(s.get_char(14));
    let n2 = digit_value(s.get_char(15));
    match (m1, m2, d1, d2, y1, y2, y3, y4, h1, h2, n1, n2) {
        (
            Some(m1),
            Some(m2),
            Some(d1),
            Some(d2),
            Some(y1),
            Some(y2),
            Some(y3),
            Some(y4),
            Some(h1),
            Some(h2),
            Some(n1),
            Some(n2),
        ) => {
            let p = DateTimeParts {
                year: y1 * 1000 + y2 * 100 + y3 * 10 + y4,
                month: m1 * 10 + m2,
                day: d1 * 10 + d2,
                hour: h1 * 10 + h2,
                minute: n1 * 10 + n2,
            };
            assert(p == parts_of(s@));
            if p.month < 1 || p.month > 12 {
                return None;
            }
            if p.hour > 23 || p.minute > 59 {
                return None;
            }
            let dim = days_in_month_exec(p.year, p.month);
            if p.day < 1 || p.day > dim {
                return None;
            }
            Some(p)
        },
        _ => None,
    }
}

fn is_leap_exec(y: i64) -> (r: bool)
    requires
        0 <= y,
    ensures
        r == is_leap_year(y as int),
{
    y % 4 == 0 && (y % 100 != 0 || y % 400 == 0)
}

fn days_in_month_exec(y: i64, m: i64) -> (r: i64)
    requires
        0 <= y,
        1 <= m <= 12,
    ensures
        r == days_in_month(y as int, m as int),
{
    if m == 2 {
        if is_leap_exec(y) {
            29
        } else {
            28
        }
    } else if m == 4 || m == 6 || m == 9 || m == 11 {
        30
    } else {
        31
    }
}

pub open spec fn days_in_year(y: int) -> int {
    if is_leap_year(y) {
        366
    } else {
        365
    }
}

fn days_in_year_exec(y: i64) -> (r: i64)
    requires
        0 <= y,
    ensures
        r == days_in_year(y as int),
{
    if is_leap_exec(y) {
        366
    } else {
        365
    }
}

/// Days from the epoch to the first day of year `y` — negative for years
/// before 1970.
pub open spec fn days_before_year(y: int) -> int
    decreases
            if y >= 1970 {
                y - 1970
            } else {
                1970 - y
            },
{
    if y == 1970 {
        0
    } else if y > 1970 {
        days_before_year(y - 1) + days_in_year(y - 1)
    } else {
        days_before_year(y + 1) - days_in_year(y)
    }
}

/// Days from the first of January to the first day of month `m` of year `y`.
pub open spec fn days_before_month(y: int, m: int) -> int
    decreases m,
{
    if m <= 1 {
        0
    } else {
        days_before_month(y, m - 1) + days_in_month(y, m - 1)
    }
}

/// Days from the epoch to the given calendar day.
pub open spec fn civil_days(y: int, m: int, d: int) -> int {
    days_before_year(y) + days_before_month(y, m) + d - 1
}

/// Seconds from the epoch of a timezone-less calendar to the given moment.
pub open spec fn timestamp_spec(p: DateTimeParts) -> int {
    civil_days(p.year as int, p.month as int, p.day as int) * 86400 + p.hour * 3600 + p.minute * 60
}

/// Seconds since the epoch of the timezone-less calendar at this moment; the
/// caller subtracts the local utc offset to place it on the real timeline.
pub fn naive_timestamp(p: &DateTimeParts) -> (t: i64)
    requires
        valid_parts(*p),
    ensures
        t == timestamp_spec(*p),
{
    let y = p.year;
    let mut days: i64 = 0;
    if y >= 1970 {
        let mut yi: i64 = 1970;
        while yi < y
            invariant
                1970 <= yi <= y <= 9999,
                days == days_before_year(yi as int),
                0 <= days <= 366 * (yi - 1970),
            decreases y - yi,
        {
            let dy = days_in_year_exec(yi);
            proof {
                assert(days_before_year(yi as int + 1) == days_before_year(yi as int)
                    + days_in_year(yi as int));
            }
            days = days + dy;
            yi += 1;
        }
    } else {
        let mut yi: i64 = 1970;
        while yi > y
            invariant
                0 <= y <= yi <= 1970,
                days == days_before_year(yi as int),
                -366 * (1970 - yi) <= days <= 0,
            decreases yi - y,
        {
            let dy = days_in_year_exec(yi - 1);
            proof {
                assert(days_before_year(yi as int - 1) == days_before_year(yi as int)
                    - days_in_year(yi as int - 1));
            }
            days = days - dy;
            yi -= 1;
        }
    }
    assert(-721020 <= days <= 2938614);
    let mut mdays: i64 = 0;
    let mut mi: i64 = 1;
    while mi < p.month
        invariant
            1 <= mi <= p.month <= 12,
            0 <= p.year <= 9999,
            mdays == days_before_month(p.year as int, mi as int),
            0 <= mdays <= 31 * (mi - 1),
        decreases p.month - mi,
    {
        let dm = days_in_month_exec(p.year, mi);
        proof {
            assert(days_before_month(p.year as int, mi as int + 1) == days_before_month(
                p.year as int,
                mi as int,
            ) + days_in_month(p.year as int, mi as int));
        }
        mdays = mdays + dm;
        mi += 1;
    }
    let total_days: i64 = days + mdays + p.day - 1;
    total_days * 86400 + p.hour * 3600 + p.minute * 60
}

/// The operator message for a rejected date string, showing the expected form.
pub fn compose_format_error(input: &str) -> (m: String)
    ensures
        m@ == "Date format incorrect for '"@ + input@
            + "', FFXIV format expected\n\nExample: 11/14/2024 16:59"@,
{
    let mut m = String::new();
    m.append("Date format incorrect for '");
    m.append(input);
    m.append("', FFXIV format expected\n\nExample: 11/14/2024 16:59");
    proof {
        assert(m@ =~= "Date format incorrect for '"@ + input@
            + "', FFXIV format expected\n\nExample: 11/14/2024 16:59"@);
    }
    m
}

} // verus!
