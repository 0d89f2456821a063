//! The time-display engine: absolute time and date labels, day-group headers,
//! and the bucketed relative-time phrase. Every function is a pure renderer
//! over already-resolved instants, with a contract that gives the exact text.

use vstd::prelude::*;
use vstd::arithmetic::div_mod::{lemma_fundamental_div_mod, lemma_mod_bound};
use vstd::string::StringExecFns;
use crate::text::{append_num, append_two_digits, num_chars, two_digit_chars};
use crate::time::{
    date_day_number, day_number, div_nn, lemma_day_number_bound, minutes_between, mod_floor,
    spec_minutes_between, Date, DateTime,
};

verus! {

/// The lower-case three-letter month label; months outside 1..=12 (which no
/// decoded or parsed date carries) render as nothing.
pub open spec fn month_abbr(m: int) -> Seq<char> {
    if m == 1 {
        "jan"@
    } else if m == 2 {
        "feb"@
    } else if m == 3 {
        "mar"@
    } else if m == 4 {
        "apr"@
    } else if m == 5 {
        "may"@
    } else if m == 6 {
        "jun"@
    } else if m == 7 {
        "jul"@
    } else if m == 8 {
        "aug"@
    } else if m == 9 {
        "sep"@
    } else if m == 10 {
        "oct"@
    } else if m == 11 {
        "nov"@
    } else if m == 12 {
        "dec"@
    } else {
        Seq::empty()
    }
}

fn month_abbr_str(m: u8) -> (r: &'static str)
    ensures
        r@ == month_abbr(m as int),
{
    match m {
        1 => "jan",
        2 => "feb",
        3 => "mar",
        4 => "apr",
        5 => "may",
        6 => "jun",
        7 => "jul",
        8 => "aug",
        9 => "sep",
        10 => "oct",
        11 => "nov",
        12 => "dec",
        _ => {
            proof {
                reveal_strlit("");
                assert(""@ =~= Seq::<char>::empty());
            }
            ""
        },
    }
}

/// The lower-case weekday name of a day number taken modulo seven; day zero
/// (1970-01-01) was a Thursday.
pub open spec fn weekday_name(w: int) -> Seq<char> {
    if w == 0 {
        "thursday"@
    } else if w == 1 {
        "friday"@
    } else if w == 2 {
        "saturday"@
    } else if w == 3 {
        "sunday"@
    } else if w == 4 {
        "monday"@
    } else if w == 5 {
        "tuesday"@
    } else {
        "wednesday"@
    }
}

fn weekday_name_str(w: u8) -> (r: &'static str)
    ensures
        r@ == weekday_name(w as int),
{
    match w {
        0 => "thursday",
        1 => "friday",
        2 => "saturday",
        3 => "sunday",
        4 => "monday",
        5 => "tuesday",
        _ => "wednesday",
    }
}

/// "HH:MM" in 24-hour mode; "H:MM am/pm" in 12-hour mode, with hour 0 shown
/// as 12 am and hour 12 as 12 pm.
pub open spec fn spec_fmt_time(hour: int, minute: int, use_12h: bool) -> Seq<char> {
    if !use_12h {
        two_digit_chars(hour) + ":"@ + two_digit_chars(minute)
    } else {
        let h12: int = if hour == 0 {
            12
        } else if hour <= 12 {
            hour
        } else {
            hour - 12
        };
        let suffix: Seq<char> = if hour < 12 {
            " am"@
        } else {
            " pm"@
        };
        num_chars(h12) + ":"@ + two_digit_chars(minute) + suffix
    }
}

/// Formats hour/minute as "HH:MM" or "H:MM am/pm".
pub fn fmt_time(hour: u32, minute: u32, use_12h: bool) -> (r: String)
    requires
        hour < 24,
        minute < 60,
    ensures
        r@ == spec_fmt_time(hour as int, minute as int, use_12h),
{
    let mut s: String = String::new();
    if !use_12h {
        append_two_digits(&mut s, hour);
        s.append(":");
        append_two_digits(&mut s, minute);
    } else {
        let h12: u32 = if hour == 0 {
            12
        } else if hour <= 12 {
            hour
        } else {
            hour - 12
        };
        append_num(&mut s, h12);
        s.append(":");
        append_two_digits(&mut s, minute);
        if hour < 12 {
            s.append(" am");
        } else {
            s.append(" pm");
        }
    }
    proof {
        assert(s@ =~= spec_fmt_time(hour as int, minute as int, use_12h));
    }
    s
}

/// The absolute label: lower-case month, day of month without a leading
/// zero, and the time unless the time-of-day is exactly midnight (then the
/// pure date label stands alone).
pub open spec fn spec_fmt_datetime(dt: DateTime, use_12h: bool) -> Seq<char> {
    let datepart: Seq<char> = month_abbr(dt.date.month as int) + " "@ + num_chars(
        dt.date.day as int,
    );
    if dt.hour == 0 && dt.minute == 0 {
        datepart
    } else {
        datepart + " "@ + spec_fmt_time(dt.hour as int, dt.minute as int, use_12h)
    }
}

/// Formats an instant as an absolute display label (e.g. "jan 15 10:00 am",
/// or "jan 15" at midnight).
pub fn fmt_datetime(dt: DateTime, use_12h: bool) -> (r: String)
    requires
        dt.time_valid(),
    ensures
        r@ == spec_fmt_datetime(dt, use_12h),
{
    let mut s: String = String::new();
    s.append(month_abbr_str(dt.date.month));
    s.append(" ");
    append_num(&mut s, dt.date.day as u32);
    if !(dt.hour == 0 && dt.minute == 0) {
        s.append(" ");
        let t: String = fmt_time(dt.hour as u32, dt.minute as u32, use_12h);
        s.append(t.as_str());
    }
    proof {
        assert(s@ =~= spec_fmt_datetime(dt, use_12h));
    }
    s
}

/// The day-group header: "today", "tomorrow", or the full lower-case weekday
/// name with month and day (e.g. "tuesday, jan 22").
pub open spec fn spec_fmt_day_header(event_date: Date, today: Date) -> Seq<char> {
    let diff: int = day_number(event_date) - day_number(today);
    if diff == 0 {
        "today"@
    } else if diff == 1 {
        "tomorrow"@
    } else {
        weekday_name(day_number(event_date) % 7) + ", "@ + month_abbr(event_date.month as int)
            + " "@ + num_chars(event_date.day as int)
    }
}

/// Formats a date as a day group header.
pub fn fmt_day_header(event_date: Date, today: Date) -> (r: String)
    ensures
        r@ == spec_fmt_day_header(event_date, today),
{
    let de: i64 = date_day_number(event_date);
    let dt: i64 = date_day_number(today);
    proof {
        lemma_day_number_bound(event_date);
        lemma_day_number_bound(today);
    }
    let diff: i64 = de - dt;
    if diff == 0 {
        String::from_str("today")
    } else if diff == 1 {
        String::from_str("tomorrow")
    } else {
        let w: i64 = mod_floor(de, 7);
        let mut s: String = String::new();
        s.append(weekday_name_str(w as u8));
        s.append(", ");
        s.append(month_abbr_str(event_date.month));
        s.append(" ");
        append_num(&mut s, event_date.day as u32);
        proof {
            assert(s@ =~= spec_fmt_day_header(event_date, today));
        }
        s
    }
}

/// The bucketed relative-time phrase, given minutes `m` from "now" to the
/// event already lie in `0..=1440`: "now" at zero; exact minutes up to nine;
/// minutes rounded to the nearest five up to 55; the absolute time with a
/// coarse hour count up to 299; then "today"/"tmrw" with the plain time.
pub open spec fn spec_relative_phrase(e: DateTime, n: DateTime, use_12h: bool, m: int) -> Seq<
    char,
> {
    if m == 0 {
        "now"@
    } else if m <= 9 {
        "in "@ + num_chars(m) + " min"@
    } else if m <= 55 {
        "in "@ + num_chars((m + 2) / 5 * 5) + " min"@
    } else if m <= 299 {
        let h: int = m / 60;
        let rm: int = m % 60;
        let rel: Seq<char> = if 20 <= rm && rm <= 40 {
            num_chars(h) + ".5 hrs"@
        } else {
            let hh: int = if rm > 40 {
                h + 1
            } else {
                h
            };
            if hh == 1 {
                "1 hr"@
            } else {
                num_chars(hh) + " hrs"@
            }
        };
        spec_fmt_time(e.hour as int, e.minute as int, use_12h) + " ("@ + rel + ")"@
    } else if e.date != n.date {
        "tmrw "@ + spec_fmt_time(e.hour as int, e.minute as int, use_12h)
    } else {
        "today "@ + spec_fmt_time(e.hour as int, e.minute as int, use_12h)
    }
}

/// The relative-time label: events in the past or more than 24 hours ahead
/// get the absolute label; everything else gets the bucketed phrase.
pub open spec fn spec_fmt_relative_time(e: DateTime, n: DateTime, use_12h: bool) -> Seq<char> {
    let m: int = spec_minutes_between(e, n);
    if m < 0 || m > 1440 {
        spec_fmt_datetime(e, use_12h)
    } else {
        spec_relative_phrase(e, n, use_12h, m)
    }
}

/// Formats an event instant relative to "now" (e.g. "now", "in 30 min",
/// "today 5:00 pm", "tmrw 9:00 am", or an absolute label). All-day events
/// are the caller's business before this is called.
pub fn fmt_relative_time(event_dt: DateTime, now_dt: DateTime, use_12h: bool) -> (r: String)
    requires
        event_dt.time_valid(),
    ensures
        r@ == spec_fmt_relative_time(event_dt, now_dt, use_12h),
{
    let m: i64 = minutes_between(event_dt, now_dt);
    if m < 0 || m > 1440 {
        return fmt_datetime(event_dt, use_12h);
    }
    if m == 0 {
        return String::from_str("now");
    }
    if m <= 9 {
        let mut s: String = String::new();
        s.append("in ");
        append_num(&mut s, m as u32);
        s.append(" min");
        proof {
            assert(s@ =~= spec_fmt_relative_time(event_dt, now_dt, use_12h));
        }
        return s;
    }
    if m <= 55 {
        let rounded: i64 = div_nn(m + 2, 5) * 5;
        proof {
            lemma_fundamental_div_mod(m + 2, 5);
            lemma_mod_bound(m + 2, 5);
        }
        let mut s: String = String::new();
        s.append("in ");
        append_num(&mut s, rounded as u32);
        s.append(" min");
        proof {
            assert(s@ =~= spec_fmt_relative_time(event_dt, now_dt, use_12h));
        }
        return s;
    }
    if m <= 299 {
        let t: String = fmt_time(event_dt.hour as u32, event_dt.minute as u32, use_12h);
        let h: i64 = div_nn(m, 60);
        let rm: i64 = mod_floor(m, 60);
        proof {
            lemma_fundamental_div_mod(m as int, 60);
            lemma_mod_bound(m as int, 60);
        }
        let mut s: String = String::new();
        s.append(t.as_str());
        s.append(" (");
        if 20 <= rm && rm <= 40 {
            append_num(&mut s, h as u32);
            s.append(".5 hrs");
        } else {
            let hh: i64 = if rm > 40 {
                h + 1
            } else {
                h
            };
            if hh == 1 {
                s.append("1 hr");
            } else {
                append_num(&mut s, hh as u32);
                s.append(" hrs");
            }
        }
        s.append(")");
        proof {
            assert(s@ =~= spec_fmt_relative_time(event_dt, now_dt, use_12h));
        }
        return s;
    }
    let t: String = fmt_time(event_dt.hour as u32, event_dt.minute as u32, use_12h);
    let mut s: String = String::new();
    if event_dt.date != now_dt.date {
        s.append("tmrw ");
    } else {
        s.append("today ");
    }
    s.append(t.as_str());
    proof {
        assert(s@ =~= spec_fmt_relative_time(event_dt, now_dt, use_12h));
    }
    s
}

/// What [`fmt_time_in_group`] returns: "all day" for all-day events, the
/// relative phrase under today's group, the plain time elsewhere.
pub open spec fn spec_fmt_time_in_group(
    event_dt: DateTime,
    now_dt: DateTime,
    is_today: bool,
    is_all_day: bool,
    use_12h: bool,
) -> Seq<char> {
    if is_all_day {
        "all day"@
    } else if is_today {
        spec_fmt_relative_time(event_dt, now_dt, use_12h)
    } else {
        spec_fmt_time(event_dt.hour as int, event_dt.minute as int, use_12h)
    }
}

/// Formats event time for display within a day group.
pub fn fmt_time_in_group(
    event_dt: DateTime,
    now_dt: DateTime,
    is_today: bool,
    is_all_day: bool,
    use_12h: bool,
) -> (r: String)
    requires
        event_dt.time_valid(),
    ensures
        r@ == spec_fmt_time_in_group(event_dt, now_dt, is_today, is_all_day, use_12h),
{
    if is_all_day {
        String::from_str("all day")
    } else if is_today {
        fmt_relative_time(event_dt, now_dt, use_12h)
    } else {
        fmt_time(event_dt.hour as u32, event_dt.minute as u32, use_12h)
    }
}

/// Rendering is referentially transparent: every display label is a function
/// of its arguments alone, so identical inputs always produce identical
/// output, however often and in whatever order the formatters are called.
pub proof fn lemma_formatting_deterministic(
    e1: DateTime,
    n1: DateTime,
    u1: bool,
    e2: DateTime,
    n2: DateTime,
    u2: bool,
    is_today: bool,
    is_all_day: bool,
)
    requires
        e1 == e2,
        n1 == n2,
        u1 == u2,
    ensures
        spec_fmt_time(e1.hour as int, e1.minute as int, u1) == spec_fmt_time(
            e2.hour as int,
            e2.minute as int,
            u2,
        ),
        spec_fmt_datetime(e1, u1) == spec_fmt_datetime(e2, u2),
        spec_fmt_day_header(e1.date, n1.date) == spec_fmt_day_header(e2.date, n2.date),
        spec_fmt_relative_time(e1, n1, u1) == spec_fmt_relative_time(e2, n2, u2),
        spec_fmt_time_in_group(e1, n1, is_today, is_all_day, u1) == spec_fmt_time_in_group(
            e2,
            n2,
            is_today,
            is_all_day,
            u2,
        ),
{
}

} // verus!
