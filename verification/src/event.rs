//! The normalized calendar event and its pure predicates: video-call
//! detection, the in-progress test, and the active-on-date test.

use vstd::prelude::*;
use crate::text::{contains_seq, str_contains};
use crate::time::{
    date_day_number, datetime_sec, day_number, lemma_day_number_bound, time_sec, Date, DateTime,
};

verus! {

/// One calendar occurrence, normalized to local time. The start is always
/// present; an all-day event starts at midnight; the end, when present, may
/// lie before the start (overnight and zero-length spans are data, not
/// errors).
pub struct Event {
    pub summary: String,
    pub start: DateTime,
    pub end: Option<DateTime>,
    pub location: Option<String>,
    pub is_all_day: bool,
}

/// The mathematical image of an [`Event`]: text as character sequences,
/// instants as the plain values they already are.
pub ghost struct EventView {
    pub summary: Seq<char>,
    pub start: DateTime,
    pub end: Option<DateTime>,
    pub location: Option<Seq<char>>,
    pub is_all_day: bool,
}

impl View for Event {
    type V = EventView;

    open spec fn view(&self) -> EventView {
        EventView {
            summary: self.summary@,
            start: self.start,
            end: self.end,
            location: self.location.deep_view(),
            is_all_day: self.is_all_day,
        }
    }
}

impl DeepView for Event {
    type V = EventView;

    open spec fn deep_view(&self) -> EventView {
        self.view()
    }
}

impl EventView {
    /// What decoding guarantees of every event it produces: time-of-day
    /// fields in range, and an all-day event starting at midnight.
    pub open spec fn wf(self) -> bool {
        &&& self.start.time_valid()
        &&& (self.end matches Some(e) ==> e.time_valid())
        &&& (self.is_all_day ==> self.start.is_midnight())
    }
}

/// The location names a known video-conferencing service.
pub open spec fn spec_is_video_call(e: EventView) -> bool {
    match e.location {
        Some(l) => contains_seq(l, "zoom"@) || contains_seq(l, "meet.google"@) || contains_seq(
            l,
            "teams"@,
        ),
        None => false,
    }
}

/// The instant falls inside `[start, end)`; an event without an end is never
/// in progress.
pub open spec fn spec_is_in_progress(e: EventView, now: DateTime) -> bool {
    match e.end {
        Some(end) => time_sec(e.start) <= time_sec(now) && time_sec(now) < time_sec(end),
        None => false,
    }
}

/// The event belongs under the given calendar day: an all-day span covers
/// `[start_date, end_date)`; a timed span covers every day from its start
/// date while its end lies past that day's midnight (so overnight spans show
/// on both days); an event without an end belongs to its start day alone.
pub open spec fn spec_is_active_on(e: EventView, date: Date) -> bool {
    match e.end {
        Some(end) => if e.is_all_day {
            day_number(e.start.date) <= day_number(date) && day_number(date) < day_number(end.date)
        } else {
            day_number(e.start.date) <= day_number(date) && time_sec(end) > day_number(date)
                * 86400
        },
        None => day_number(e.start.date) == day_number(date),
    }
}

impl Event {
    /// True iff the location names a known video-conferencing service
    /// ("zoom", "meet.google", "teams"); no location means no call.
    pub fn is_video_call(&self) -> (r: bool)
        ensures
            r == spec_is_video_call(self@),
    {
        match &self.location {
            Some(l) => str_contains(l.as_str(), "zoom") || str_contains(l.as_str(), "meet.google")
                || str_contains(l.as_str(), "teams"),
            None => false,
        }
    }

    /// Returns true if the event is currently in progress (started and not
    /// ended), comparing full instants down to the second.
    pub fn is_in_progress(&self, now: DateTime) -> (r: bool)
        ensures
            r == spec_is_in_progress(self@, now),
    {
        match self.end {
            Some(end) => {
                let ss: i64 = datetime_sec(self.start);
                let sn: i64 = datetime_sec(now);
                let se: i64 = datetime_sec(end);
                ss <= sn && sn < se
            },
            None => false,
        }
    }

    /// Returns true if the event should be considered active on the given
    /// date.
    pub fn is_active_on(&self, date: Date) -> (r: bool)
        ensures
            r == spec_is_active_on(self@, date),
    {
        let sd: i64 = date_day_number(self.start.date);
        let dd: i64 = date_day_number(date);
        match self.end {
            Some(end) => {
                if self.is_all_day {
                    let ed: i64 = date_day_number(end.date);
                    sd <= dd && dd < ed
                } else {
                    let es: i64 = datetime_sec(end);
                    proof {
                        lemma_day_number_bound(date);
                    }
                    sd <= dd && es > dd * 86400
                }
            },
            None => sd == dd,
        }
    }
}

} // verus!
