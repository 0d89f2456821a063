//! The two boundary-token parsers: the signed `sHHMM` UTC-offset token and the
//! `"YYYY-MM-DD HH:MM"` local timestamp token, both produced upstream by a
//! shell time query. Any deviation from the pattern yields an absence value.

use vstd::prelude::*;
use vstd::string::StrSliceExecFns;
use crate::text::{digit_val, is_digit};
use crate::time::{days_in_month, days_in_month_of, Date, DateTime};

verus! {

/// A digit character's value, or nothing.
fn digit_of(c: char) -> (r: Option<u32>)
    ensures
        r is Some <==> is_digit(c),
        r matches Some(v) ==> v == digit_val(c),
{
    let u: u32 = c as u32;
    if 48 <= u && u <= 57 {
        Some(u - 48)
    } else {
        None
    }
}

/// The meaning of a `sHHMM` offset token: the sign applied to
/// `60 * HH + MM` minutes; any malformed token (wrong length, bad sign,
/// non-digit field) means nothing.
pub open spec fn spec_parse_utc_offset(s: Seq<char>) -> Option<i32> {
    if s.len() == 5 && (s[0] == '+' || s[0] == '-') && is_digit(s[1]) && is_digit(s[2])
        && is_digit(s[3]) && is_digit(s[4]) {
        let hours: int = digit_val(s[1]) * 10 + digit_val(s[2]);
        let minutes: int = digit_val(s[3]) * 10 + digit_val(s[4]);
        let total: int = hours * 60 + minutes;
        if s[0] == '+' {
            Some(total as i32)
        } else {
            Some((-total) as i32)
        }
    } else {
        None
    }
}

/// Parses a UTC-offset token such as "-0500" or "+0530" into signed minutes.
pub fn parse_utc_offset(s: &str) -> (r: Option<i32>)
    ensures
        r == spec_parse_utc_offset(s@),
        r matches Some(v) ==> -6039 <= v <= 6039,
{
    if s.unicode_len() != 5 {
        return None;
    }
    let c0: char = s.get_char(0);
    if !(c0 == '+' || c0 == '-') {
        return None;
    }
    let d1: u32 = match digit_of(s.get_char(1)) {
        Some(v) => v,
        None => {
            return None;
        },
    };
    let d2: u32 = match digit_of(s.get_char(2)) {
        Some(v) => v,
        None => {
            return None;
        },
    };
    let d3: u32 = match digit_of(s.get_char(3)) {
        Some(v) => v,
        None => {
            return None;
        },
    };
    let d4: u32 = match digit_of(s.get_char(4)) {
        Some(v) => v,
        None => {
            return None;
        },
    };
    let total: i32 = ((d1 * 10 + d2) * 60 + (d3 * 10 + d4)) as i32;
    if c0 == '+' {
        Some(total)
    } else {
        Some(-total)
    }
}

/// The meaning of a `"YYYY-MM-DD HH:MM"` timestamp token: a local instant at
/// minute resolution with seconds zero; any deviation from the pattern or an
/// out-of-range calendar value means nothing.
pub open spec fn spec_parse_datetime(s: Seq<char>) -> Option<DateTime> {
    if s.len() == 16 && is_digit(s[0]) && is_digit(s[1]) && is_digit(s[2]) && is_digit(s[3])
        && s[4] == '-' && is_digit(s[5]) && is_digit(s[6]) && s[7] == '-' && is_digit(s[8])
        && is_digit(s[9]) && s[10] == ' ' && is_digit(s[11]) && is_digit(s[12]) && s[13] == ':'
        && is_digit(s[14]) && is_digit(s[15]) {
        let year: int = digit_val(s[0]) * 1000 + digit_val(s[1]) * 100 + digit_val(s[2]) * 10
            + digit_val(s[3]);
        let month: int = digit_val(s[5]) * 10 + digit_val(s[6]);
        let day: int = digit_val(s[8]) * 10 + digit_val(s[9]);
        let hour: int = digit_val(s[11]) * 10 + digit_val(s[12]);
        let minute: int = digit_val(s[14]) * 10 + digit_val(s[15]);
        if 1 <= month <= 12 && 1 <= day <= days_in_month(year, month) && hour <= 23 && minute
            <= 59 {
            Some(
                DateTime {
                    date: Date { year: year as i32, month: month as u8, day: day as u8 },
                    hour: hour as u8,
                    minute: minute as u8,
                    second: 0,
                },
            )
        } else {
            None
        }
    } else {
        None
    }
}

/// Parses a `"YYYY-MM-DD HH:MM"` token into a local instant.
pub fn parse_datetime(dt: &str) -> (r: Option<DateTime>)
    ensures
        r == spec_parse_datetime(dt@),
        r matches Some(t) ==> t.time_valid() && 0 <= t.date.year <= 9999 && 1 <= t.date.month
            <= 12 && 1 <= t.date.day <= 31 && t.second == 0,
{
    if dt.unicode_len() != 16 {
        return None;
    }
    if !(dt.get_char(4) == '-' && dt.get_char(7) == '-' && dt.get_char(10) == ' ' && dt.get_char(
        13,
    ) == ':') {
        return None;
    }
    let y1: u32 = match digit_of(dt.get_char(0)) {
        Some(v) => v,
        None => {
            return None;
        },
    };
    let y2: u32 = match digit_of(dt.get_char(1)) {
        Some(v) => v,
        None => {
            return None;
        },
    };
    let y3: u32 = match digit_of(dt.get_char(2)) {
        Some(v) => v,
        None => {
            return None;
        },
    };
    let y4: u32 = match digit_of(dt.get_char(3)) {
        Some(v) => v,
        None => {
            return None;
        },
    };
    let mo1: u32 = match digit_of(dt.get_char(5)) {
        Some(v) => v,
        None => {
            return None;
        },
    };
    let mo2: u32 = match digit_of(dt.get_char(6)) {
        Some(v) => v,
        None => {
            return None;
        },
    };
    let da1: u32 = match digit_of(dt.get_char(8)) {
        Some(v) => v,
        None => {
            return None;
        },
    };
    let da2: u32 = match digit_of(dt.get_char(9)) {
        Some(v) => v,
        None => {
            return None;
        },
    };
    let h1: u32 = match digit_of(dt.get_char(11)) {
        Some(v) => v,
        None => {
            return None;
        },
    };
    let h2: u32 = match digit_of(dt.get_char(12)) {
        Some(v) => v,
        None => {
            return None;
        },
    };
    let mi1: u32 = match digit_of(dt.get_char(14)) {
        Some(v) => v,
        None => {
            return None;
        },
    };
    let mi2: u32 = match digit_of(dt.get_char(15)) {
        Some(v) => v,
        None => {
            return None;
        },
    };
    let year: u32 = y1 * 1000 + y2 * 100 + y3 * 10 + y4;
    let month: u32 = mo1 * 10 + mo2;
    let day: u32 = da1 * 10 + da2;
    let hour: u32 = h1 * 10 + h2;
    let minute: u32 = mi1 * 10 + mi2;
    if !(1 <= month && month <= 12) {
        return None;
    }
    let dim: u8 = days_in_month_of(year as i32, month as u8);
    if !(1 <= day && day <= dim as u32) {
        return None;
    }
    if !(hour <= 23 && minute <= 59) {
        return None;
    }
    Some(
        DateTime {
            date: Date { year: year as i32, month: month as u8, day: day as u8 },
            hour: hour as u8,
            minute: minute as u8,
            second: 0,
        },
    )
}

/// A well-formed `sHHMM` token always parses, to exactly its sign applied to
/// `60 * HH + MM`; together with the parser's contract (anything else parses
/// to nothing) the token and its value determine each other.
pub proof fn lemma_utc_offset_round_trip(
    s: Seq<char>,
    sign: char,
    h1: char,
    h2: char,
    m1: char,
    m2: char,
)
    requires
        s == seq![sign, h1, h2, m1, m2],
        sign == '+' || sign == '-',
        is_digit(h1),
        is_digit(h2),
        is_digit(m1),
        is_digit(m2),
    ensures
        sign == '+' ==> spec_parse_utc_offset(s) == Some(
            ((digit_val(h1) * 10 + digit_val(h2)) * 60 + (digit_val(m1) * 10 + digit_val(
                m2,
            ))) as i32,
        ),
        sign == '-' ==> spec_parse_utc_offset(s) == Some(
            (-((digit_val(h1) * 10 + digit_val(h2)) * 60 + (digit_val(m1) * 10 + digit_val(
                m2,
            )))) as i32,
        ),
{
    assert(s.len() == 5);
    assert(s[0] == sign && s[1] == h1 && s[2] == h2 && s[3] == m1 && s[4] == m2);
    assert(0 <= digit_val(h1) <= 9 && 0 <= digit_val(h2) <= 9 && 0 <= digit_val(m1) <= 9 && 0
        <= digit_val(m2) <= 9);
}

} // verus!
