//! Calendar dates and local timestamps as plain values, with the arithmetic the
//! rest of the crate builds on: a day-number model of the proleptic Gregorian
//! calendar, second-resolution instants, and minute shifts across day borders.

use vstd::prelude::*;
use vstd::arithmetic::div_mod::{
    lemma_div_nonincreasing, lemma_div_pos_is_pos, lemma_fundamental_div_mod,
    lemma_fundamental_div_mod_converse, lemma_mod_bound,
};

verus! {

/// A calendar date (proleptic Gregorian), held as plain fields.
#[derive(Clone, Copy, PartialEq, Eq, Structural, Debug)]
pub struct Date {
    pub year: i32,
    pub month: u8,
    pub day: u8,
}

/// A local date and time at second resolution, with no zone attached.
#[derive(Clone, Copy, PartialEq, Eq, Structural, Debug)]
pub struct DateTime {
    pub date: Date,
    pub hour: u8,
    pub minute: u8,
    pub second: u8,
}

impl Date {
    /// The fields lie in the range every date handed over from the calendar
    /// decoder or the timestamp parser lies in.
    pub open spec fn in_calendar_range(self) -> bool {
        -300_000 <= self.year <= 300_000 && 1 <= self.month <= 12 && 1 <= self.day <= 31
    }
}

impl DateTime {
    /// The time-of-day fields are in range; dates decoded by this crate and
    /// timestamps parsed by it always satisfy this.
    pub open spec fn time_valid(self) -> bool {
        self.hour < 24 && self.minute < 60 && self.second < 60
    }

    /// All fields lie in the range every decoded or parsed instant lies in.
    pub open spec fn in_calendar_range(self) -> bool {
        self.date.in_calendar_range() && self.time_valid()
    }

    /// Midnight, the normal form of an all-day start.
    pub open spec fn is_midnight(self) -> bool {
        self.hour == 0 && self.minute == 0 && self.second == 0
    }
}

/// Days since 1970-01-01 of a date, as one integer; the order and distance of
/// dates is defined through this number.
pub open spec fn day_number(d: Date) -> int {
    let y: int = if d.month <= 2 { d.year - 1 } else { d.year as int };
    let era: int = y / 400;
    let yoe: int = y - era * 400;
    let mp: int = if d.month > 2 { d.month - 3 } else { d.month + 9 };
    let doy: int = (153 * mp + 2) / 5 + d.day - 1;
    let doe: int = yoe * 365 + yoe / 4 - yoe / 100 + doy;
    era * 146097 + doe - 719468
}

/// Seconds since 1970-01-01 00:00:00 of an instant, as one integer.
pub open spec fn time_sec(t: DateTime) -> int {
    day_number(t.date) * 86400 + t.hour * 3600 + t.minute * 60 + t.second
}

/// Whole minutes from `n` to `e`, truncated toward zero.
pub open spec fn spec_minutes_between(e: DateTime, n: DateTime) -> int {
    let ds: int = time_sec(e) - time_sec(n);
    if ds >= 0 {
        ds / 60
    } else {
        -((-ds) / 60)
    }
}

pub open spec fn is_leap_year(y: int) -> bool {
    y % 4 == 0 && (y % 100 != 0 || y % 400 == 0)
}

pub open spec fn days_in_month(y: int, m: int) -> int {
    if m == 2 {
        if is_leap_year(y) {
            29
        } else {
            28
        }
    } else if m == 4 || m == 6 || m == 9 || m == 11 {
        30
    } else {
        31
    }
}

/// Euclidean division of a nonnegative value by a positive one.
pub(crate) fn div_nn(a: i64, b: i64) -> (r: i64)
    requires
        0 <= a,
        1 <= b,
    ensures
        r == a as int / b as int,
        0 <= r <= a,
{
    proof {
        lemma_div_pos_is_pos(a as int, b as int);
        lemma_div_nonincreasing(a as int, b as int);
    }
    let q: u64 = (a as u64) / (b as u64);
    q as i64
}

/// Euclidean (flooring) division, matching `/` of specification arithmetic.
pub(crate) fn div_floor(a: i64, b: i64) -> (r: i64)
    requires
        1 <= b <= 1_000_000,
        -9_000_000_000_000_000 <= a <= 9_000_000_000_000_000,
    ensures
        r == a as int / b as int,
{
    if a >= 0 {
        div_nn(a, b)
    } else {
        let q: i64 = div_nn(-a + (b - 1), b);
        proof {
            let x: int = -a + b - 1;
            lemma_fundamental_div_mod(x, b as int);
            lemma_mod_bound(x, b as int);
            let s: int = x % (b as int);
            assert(q == x / (b as int));
            assert(x == (b as int) * (q as int) + s);
            assert(0 <= b - 1 - s < b);
            assert(a as int == (-(q as int)) * (b as int) + (b - 1 - s)) by {
                assert((-(q as int)) * (b as int) == -((b as int) * (q as int)))
                    by (nonlinear_arith);
            }
            lemma_fundamental_div_mod_converse(a as int, b as int, -(q as int), b - 1 - s);
        }
        -q
    }
}

/// Euclidean remainder, matching `%` of specification arithmetic.
pub(crate) fn mod_floor(a: i64, b: i64) -> (r: i64)
    requires
        1 <= b <= 1_000_000,
        -9_000_000_000_000_000 <= a <= 9_000_000_000_000_000,
    ensures
        r == a as int % b as int,
{
    let q: i64 = div_floor(a, b);
    proof {
        lemma_fundamental_div_mod(a as int, b as int);
        lemma_mod_bound(a as int, b as int);
    }
    a - q * b
}

/// The day number of every representable date stays well inside machine range.
pub proof fn lemma_day_number_bound(d: Date)
    ensures
        -800_000_000_000 <= day_number(d) <= 800_000_000_000,
{
    let y: int = if d.month <= 2 { d.year - 1 } else { d.year as int };
    lemma_fundamental_div_mod(y, 400);
    lemma_mod_bound(y, 400);
    let mp: int = if d.month > 2 { d.month - 3 } else { d.month + 9 };
    lemma_fundamental_div_mod(153 * mp + 2, 5);
    lemma_mod_bound(153 * mp + 2, 5);
    let yoe: int = y - (y / 400) * 400;
    lemma_fundamental_div_mod(yoe, 4);
    lemma_mod_bound(yoe, 4);
    lemma_fundamental_div_mod(yoe, 100);
    lemma_mod_bound(yoe, 100);
}

pub fn date_day_number(d: Date) -> (r: i64)
    ensures
        r == day_number(d),
{
    let year: i64 = d.year as i64;
    let month: i64 = d.month as i64;
    let day: i64 = d.day as i64;
    let y: i64 = if month <= 2 {
        year - 1
    } else {
        year
    };
    let era: i64 = div_floor(y, 400);
    proof {
        lemma_fundamental_div_mod(y as int, 400);
        lemma_mod_bound(y as int, 400);
    }
    let yoe: i64 = y - era * 400;
    let mp: i64 = if month > 2 {
        month - 3
    } else {
        month + 9
    };
    let doy: i64 = div_nn(153 * mp + 2, 5) + day - 1;
    let doe: i64 = yoe * 365 + div_nn(yoe, 4) - div_nn(yoe, 100) + doy;
    era * 146097 + doe - 719468
}

pub fn datetime_sec(t: DateTime) -> (r: i64)
    ensures
        r == time_sec(t),
{
    let dn: i64 = date_day_number(t.date);
    proof {
        lemma_day_number_bound(t.date);
    }
    dn * 86400 + (t.hour as i64) * 3600 + (t.minute as i64) * 60 + (t.second as i64)
}

/// Whole minutes from `n` to `e`, truncated toward zero, as the display engine
/// buckets them.
pub fn minutes_between(e: DateTime, n: DateTime) -> (r: i64)
    ensures
        r == spec_minutes_between(e, n),
{
    let se: i64 = datetime_sec(e);
    let sn: i64 = datetime_sec(n);
    proof {
        lemma_day_number_bound(e.date);
        lemma_day_number_bound(n.date);
    }
    let ds: i64 = se - sn;
    if ds >= 0 {
        div_nn(ds, 60)
    } else {
        -div_nn(-ds, 60)
    }
}

pub fn days_in_month_of(y: i32, m: u8) -> (r: u8)
    ensures
        r == days_in_month(y as int, m as int),
{
    if m == 2 {
        let r4: i64 = mod_floor(y as i64, 4);
        let r100: i64 = mod_floor(y as i64, 100);
        let r400: i64 = mod_floor(y as i64, 400);
        if r4 == 0 && (r100 != 0 || r400 == 0) {
            29
        } else {
            28
        }
    } else if m == 4 || m == 6 || m == 9 || m == 11 {
        30
    } else {
        31
    }
}

/// The calendar day after `d`; a day field at or past the month's end rolls
/// over to the first of the next month.
pub open spec fn spec_next_day(d: Date) -> Date {
    if d.day < days_in_month(d.year as int, d.month as int) {
        Date { year: d.year, month: d.month, day: (d.day + 1) as u8 }
    } else if d.month < 12 {
        Date { year: d.year, month: (d.month + 1) as u8, day: 1 }
    } else {
        Date { year: (d.year + 1) as i32, month: 1, day: 1 }
    }
}

/// The calendar day before `d`.
pub open spec fn spec_prev_day(d: Date) -> Date {
    if d.day > 1 {
        Date { year: d.year, month: d.month, day: (d.day - 1) as u8 }
    } else if d.month > 1 {
        Date {
            year: d.year,
            month: (d.month - 1) as u8,
            day: days_in_month(d.year as int, d.month - 1) as u8,
        }
    } else {
        Date { year: (d.year - 1) as i32, month: 12, day: 31 }
    }
}

/// `d` moved by `k` calendar days (`k` may be negative).
pub open spec fn spec_shift_days(d: Date, k: int) -> Date
    decreases
            (if k >= 0 {
                k
            } else {
                -k
            }),
{
    if k == 0 {
        d
    } else if k > 0 {
        spec_next_day(spec_shift_days(d, k - 1))
    } else {
        spec_prev_day(spec_shift_days(d, k + 1))
    }
}

/// `t` moved by `off` minutes: the time-of-day is shifted modulo one day and
/// the date moves by the day carry; seconds ride along unchanged.
pub open spec fn spec_shift_minutes(t: DateTime, off: int) -> DateTime {
    let total: int = t.hour * 60 + t.minute + off;
    let tod: int = total % 1440;
    DateTime {
        date: spec_shift_days(t.date, total / 1440),
        hour: (tod / 60) as u8,
        minute: (tod % 60) as u8,
        second: t.second,
    }
}

pub fn next_day(d: Date) -> (r: Date)
    requires
        -400_000 <= d.year <= 400_000,
    ensures
        r == spec_next_day(d),
{
    let dim: u8 = days_in_month_of(d.year, d.month);
    if d.day < dim {
        Date { year: d.year, month: d.month, day: d.day + 1 }
    } else if d.month < 12 {
        Date { year: d.year, month: d.month + 1, day: 1 }
    } else {
        Date { year: d.year + 1, month: 1, day: 1 }
    }
}

pub fn prev_day(d: Date) -> (r: Date)
    requires
        -400_000 <= d.year <= 400_000,
    ensures
        r == spec_prev_day(d),
{
    if d.day > 1 {
        Date { year: d.year, month: d.month, day: d.day - 1 }
    } else if d.month > 1 {
        Date { year: d.year, month: d.month - 1, day: days_in_month_of(d.year, d.month - 1) }
    } else {
        Date { year: d.year - 1, month: 12, day: 31 }
    }
}

/// Shifting by one more day is one more `spec_next_day` on the outside.
proof fn lemma_shift_days_step_up(d: Date, k: int)
    requires
        k >= 1,
    ensures
        spec_shift_days(d, k) == spec_next_day(spec_shift_days(d, k - 1)),
{
}

/// Shifting by one less day is one more `spec_prev_day` on the outside.
proof fn lemma_shift_days_step_down(d: Date, k: int)
    requires
        k <= -1,
    ensures
        spec_shift_days(d, k) == spec_prev_day(spec_shift_days(d, k + 1)),
{
}

/// One day of shift moves the year field by at most one.
proof fn lemma_shift_days_year_bound(d: Date, k: int)
    requires
        -24 <= k <= 24,
        -400_000 + 24 <= d.year <= 400_000 - 24,
    ensures
        d.year - (if k >= 0 {
            k
        } else {
            -k
        }) <= spec_shift_days(d, k).year <= d.year + (if k >= 0 {
            k
        } else {
            -k
        }),
    decreases
            (if k >= 0 {
                k
            } else {
                -k
            }),
{
    if k > 0 {
        lemma_shift_days_year_bound(d, k - 1);
    } else if k < 0 {
        lemma_shift_days_year_bound(d, k + 1);
    }
}

/// A minute shift always lands on a valid time-of-day and keeps the seconds.
pub proof fn lemma_shift_minutes_time_valid(t: DateTime, off: int)
    requires
        t.second < 60,
    ensures
        spec_shift_minutes(t, off).time_valid(),
        spec_shift_minutes(t, off).second == t.second,
{
    let total: int = t.hour * 60 + t.minute + off;
    lemma_mod_bound(total, 1440);
    lemma_fundamental_div_mod(total % 1440, 60);
    lemma_mod_bound(total % 1440, 60);
}

/// `t` moved by `off` minutes, executing the day walk of
/// [`spec_shift_minutes`] step by step.
pub fn add_minutes(t: DateTime, off: i64) -> (r: DateTime)
    requires
        -300_000 <= t.date.year <= 300_000,
        -10_000 <= off <= 10_000,
    ensures
        r == spec_shift_minutes(t, off as int),
{
    let total: i64 = (t.hour as i64) * 60 + (t.minute as i64) + off;
    let dshift: i64 = div_floor(total, 1440);
    let tod: i64 = mod_floor(total, 1440);
    proof {
        lemma_fundamental_div_mod(total as int, 1440);
        lemma_mod_bound(total as int, 1440);
        lemma_fundamental_div_mod(tod as int, 60);
        lemma_mod_bound(tod as int, 60);
    }
    let mut date: Date = t.date;
    let mut k: i64 = 0;
    while k < dshift
        invariant
            0 <= k <= dshift || dshift < 0 && k == 0,
            -24 <= dshift <= 24,
            date == spec_shift_days(t.date, k as int),
            -300_000 <= t.date.year <= 300_000,
        decreases dshift - k,
    {
        proof {
            lemma_shift_days_step_up(t.date, k + 1);
            lemma_shift_days_year_bound(t.date, k as int);
        }
        date = next_day(date);
        k = k + 1;
    }
    while k > dshift
        invariant
            dshift <= k <= 0 || dshift > 0 && k == dshift,
            -24 <= dshift <= 24,
            date == spec_shift_days(t.date, k as int),
            -300_000 <= t.date.year <= 300_000,
        decreases k - dshift,
    {
        proof {
            lemma_shift_days_step_down(t.date, k - 1);
            lemma_shift_days_year_bound(t.date, k as int);
        }
        date = prev_day(date);
        k = k - 1;
    }
    let hour: i64 = div_nn(tod, 60);
    let minute: i64 = mod_floor(tod, 60);
    DateTime { date, hour: hour as u8, minute: minute as u8, second: t.second }
}

} // verus!
