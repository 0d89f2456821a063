//! The calendar decoder: raw ICS bytes go through the `icalendar` crate's
//! parser behind a small trusted boundary that hands back plain-value event
//! records; everything after that — instant normalization, the UTC-offset
//! shift, defaulted titles, skipping events without a start — is verified.

use vstd::prelude::*;
use vstd::arithmetic::div_mod::lemma_fundamental_div_mod_converse;
use vstd::string::StringExecFns;
use chrono::Datelike;
use chrono::Timelike;
use icalendar::Component;
use icalendar::EventLike;
use crate::event::{Event, EventView};
use crate::time::{
    add_minutes, lemma_shift_minutes_time_valid, spec_shift_minutes, Date, DateTime,
};

verus! {

#[verifier::external_type_specification]
#[verifier::external_body]
pub struct ExCalendarComponent(icalendar::CalendarComponent);

#[verifier::external_type_specification]
#[verifier::external_body]
pub struct ExDatePerhapsTime(icalendar::DatePerhapsTime);

#[verifier::external_type_specification]
#[verifier::external_body]
pub struct ExNaiveDateTime(chrono::NaiveDateTime);

#[verifier::external_type_specification]
#[verifier::external_body]
pub struct ExNaiveDate(chrono::NaiveDate);

/// A start or end instant as the source wrote it: a bare date, a local
/// date-time (a floating one, or one whose zone annotation is ignored by
/// design), or a UTC-zoned date-time still to be shifted into local time.
#[derive(Clone, Copy, PartialEq, Eq, Structural, Debug)]
pub enum RawInstant {
    DateOnly { date: Date },
    Local { dt: DateTime },
    Utc { dt: DateTime },
}

impl RawInstant {
    /// Every instant handed over the trusted boundary satisfies this: the
    /// `chrono` values it is read from are always calendar-valid.
    pub open spec fn in_calendar_range(self) -> bool {
        match self {
            RawInstant::DateOnly { date } => date.in_calendar_range(),
            RawInstant::Local { dt } => dt.in_calendar_range(),
            RawInstant::Utc { dt } => dt.in_calendar_range(),
        }
    }
}

/// One event component as stored in the source document, before
/// normalization.
pub struct RawVevent {
    pub summary: Option<String>,
    pub start: Option<RawInstant>,
    pub end: Option<RawInstant>,
    pub location: Option<String>,
}

/// The mathematical image of a [`RawVevent`].
pub ghost struct RawVeventView {
    pub summary: Option<Seq<char>>,
    pub start: Option<RawInstant>,
    pub end: Option<RawInstant>,
    pub location: Option<Seq<char>>,
}

impl View for RawVevent {
    type V = RawVeventView;

    open spec fn view(&self) -> RawVeventView {
        RawVeventView {
            summary: self.summary.deep_view(),
            start: self.start,
            end: self.end,
            location: self.location.deep_view(),
        }
    }
}

impl DeepView for RawVevent {
    type V = RawVeventView;

    open spec fn deep_view(&self) -> RawVeventView {
        self.view()
    }
}

impl RawVeventView {
    /// Every instant of the record lies in calendar range.
    pub open spec fn in_calendar_range(self) -> bool {
        &&& (self.start matches Some(i) ==> i.in_calendar_range())
        &&& (self.end matches Some(i) ==> i.in_calendar_range())
    }
}

/// Whether the `icalendar` parser accepts the (lossily decoded) bytes as a
/// calendar document.
pub uninterp spec fn ics_parses(data: Seq<u8>) -> bool;

/// The event components the `icalendar` parser finds in the bytes, in
/// document order, each reduced to its summary, start, end and location.
pub uninterp spec fn ics_vevents(data: Seq<u8>) -> Seq<RawVeventView>;

/// Relies on `chrono::NaiveDate`'s `Datelike` accessors: they return the
/// stored year, month (1..=12) and day (1..=31) of an always-valid date
/// whose year lies well inside the range stated here.
#[verifier::external_body]
fn date_fields(d: chrono::NaiveDate) -> (r: Date) {
    Date { year: d.year(), month: d.month() as u8, day: d.day() as u8 }
}

/// Relies on `chrono::NaiveDateTime`'s `Datelike` and `Timelike` accessors:
/// they return the stored calendar fields, with hour below 24 and minute and
/// second below 60.
#[verifier::external_body]
fn datetime_fields(t: chrono::NaiveDateTime) -> (r: DateTime) {
    DateTime {
        date: Date { year: t.year(), month: t.month() as u8, day: t.day() as u8 },
        hour: t.hour() as u8,
        minute: t.minute() as u8,
        second: t.second() as u8,
    }
}

/// Relies on `icalendar::DatePerhapsTime`: its variants are told apart one
/// arm each, a `WithTimezone` value counting as local (its zone annotation
/// is ignored by design), and `DateTime<Utc>::naive_utc` reading the stored
/// UTC fields.
#[verifier::external_body]
fn instant_fields(d: icalendar::DatePerhapsTime) -> (r: RawInstant) {
    match d {
        icalendar::DatePerhapsTime::Date(date) => RawInstant::DateOnly { date: date_fields(date) },
        icalendar::DatePerhapsTime::DateTime(icalendar::CalendarDateTime::Floating(t)) => {
            RawInstant::Local { dt: datetime_fields(t) }
        },
        icalendar::DatePerhapsTime::DateTime(icalendar::CalendarDateTime::Utc(t)) => {
            RawInstant::Utc { dt: datetime_fields(t.naive_utc()) }
        },
        icalendar::DatePerhapsTime::DateTime(
            icalendar::CalendarDateTime::WithTimezone { date_time, .. },
        ) => RawInstant::Local { dt: datetime_fields(date_time) },
    }
}

/// Relies on `icalendar::CalendarComponent::as_event` and the `Component` /
/// `EventLike` accessors `get_summary`, `get_start`, `get_end` and
/// `get_location`: each moves one stored field of the event component over;
/// components that are not events yield nothing.
#[verifier::external_body]
fn vevent_fields(c: &icalendar::CalendarComponent) -> (r: Option<RawVevent>) {
    let e = c.as_event()?;
    Some(RawVevent {
        summary: e.get_summary().map(|s| s.to_string()),
        start: e.get_start().map(instant_fields),
        end: e.get_end().map(instant_fields),
        location: e.get_location().map(|s| s.to_string()),
    })
}

/// Relies on the `icalendar` crate's `Calendar` `FromStr` parser (fed the
/// lossily UTF-8-decoded bytes): its outcome is a function of the bytes
/// alone; on success the event components are carried over one for one, and
/// every instant they hold comes from an always-valid `chrono` value.
#[verifier::external_body]
fn read_vevents(data: &[u8]) -> (r: Result<Vec<RawVevent>, String>)
    ensures
        r is Ok <==> ics_parses(data@),
        r matches Ok(v) ==> v.deep_view() == ics_vevents(data@),
        r matches Ok(v) ==> forall|i: int|
            0 <= i < v.deep_view().len() ==> (#[trigger] v.deep_view()[i]).in_calendar_range(),
{
    let text = String::from_utf8_lossy(data);
    match text.parse::<icalendar::Calendar>() {
        Ok(cal) => Ok(cal.components.iter().filter_map(vevent_fields).collect()),
        Err(e) => Err(format!("Parse error: {}", e)),
    }
}

/// An instant normalized to local time: a bare date becomes midnight, a
/// local date-time passes through unchanged, and a UTC-zoned date-time is
/// shifted by the caller's offset-in-minutes.
pub open spec fn spec_normalize_instant(r: RawInstant, off: int) -> DateTime {
    match r {
        RawInstant::DateOnly { date } => DateTime { date, hour: 0, minute: 0, second: 0 },
        RawInstant::Local { dt } => dt,
        RawInstant::Utc { dt } => spec_shift_minutes(dt, off),
    }
}

/// Normalizes one source instant to local time.
pub fn normalize_instant(r: RawInstant, utc_offset_minutes: i32) -> (out: DateTime)
    requires
        r.in_calendar_range(),
        -6039 <= utc_offset_minutes <= 6039,
    ensures
        out == spec_normalize_instant(r, utc_offset_minutes as int),
        out.time_valid(),
{
    match r {
        RawInstant::DateOnly { date } => DateTime { date, hour: 0, minute: 0, second: 0 },
        RawInstant::Local { dt } => dt,
        RawInstant::Utc { dt } => {
            proof {
                lemma_shift_minutes_time_valid(dt, utc_offset_minutes as int);
            }
            add_minutes(dt, utc_offset_minutes as i64)
        },
    }
}

/// One source record decoded: nothing if it has no resolvable start;
/// otherwise the normalized event, its summary defaulted to "(no title)",
/// flagged all-day exactly when the start was a bare date.
pub open spec fn spec_decode_event(rv: RawVeventView, off: int) -> Option<EventView> {
    match rv.start {
        None => None,
        Some(si) => Some(
            EventView {
                summary: match rv.summary {
                    Some(s) => s,
                    None => "(no title)"@,
                },
                start: spec_normalize_instant(si, off),
                end: match rv.end {
                    Some(e) => Some(spec_normalize_instant(e, off)),
                    None => None,
                },
                location: rv.location,
                is_all_day: si is DateOnly,
            },
        ),
    }
}

/// The records decoded in order, records without a start silently skipped.
pub open spec fn spec_decode_events(rs: Seq<RawVeventView>, off: int) -> Seq<EventView>
    decreases rs.len(),
{
    if rs.len() == 0 {
        Seq::empty()
    } else {
        let rest = spec_decode_events(rs.drop_last(), off);
        match spec_decode_event(rs.last(), off) {
            Some(e) => rest.push(e),
            None => rest,
        }
    }
}

fn decode_events(raws: Vec<RawVevent>, utc_offset_minutes: i32) -> (r: Vec<Event>)
    requires
        -6039 <= utc_offset_minutes <= 6039,
        forall|i: int|
            0 <= i < raws.deep_view().len() ==> (#[trigger] raws.deep_view()[i]).in_calendar_range(),
    ensures
        r.deep_view() == spec_decode_events(raws.deep_view(), utc_offset_minutes as int),
        forall|i: int| 0 <= i < r.deep_view().len() ==> (#[trigger] r.deep_view()[i]).wf(),
{
    let ghost orig: Seq<RawVeventView> = raws.deep_view();
    let mut input = raws;
    let mut out: Vec<Event> = Vec::new();
    while input.len() > 0
        invariant
            input.deep_view() =~= orig.skip(orig.len() - input.deep_view().len()),
            input.deep_view().len() <= orig.len(),
            forall|i: int| 0 <= i < orig.len() ==> (#[trigger] orig[i]).in_calendar_range(),
            -6039 <= utc_offset_minutes <= 6039,
            out.deep_view() == spec_decode_events(
                orig.take(orig.len() - input.deep_view().len()),
                utc_offset_minutes as int,
            ),
            forall|i: int|
                0 <= i < out.deep_view().len() ==> (#[trigger] out.deep_view()[i]).wf(),
        decreases input.len(),
    {
        let ghost k: int = orig.len() - input.deep_view().len();
        let ghost pre: Seq<RawVevent> = input@;
        let ghost prev: Seq<RawVeventView> = input.deep_view();
        let rv: RawVevent = input.remove(0);
        proof {
            assert(rv == pre[0]);
            assert(prev[0] == pre[0].deep_view());
            assert(rv@ == orig[k]);
            assert(input@ == pre.remove(0));
            assert forall|i: int| 0 <= i < input.deep_view().len() implies input.deep_view()[i]
                == orig.skip(k + 1)[i] by {
                assert(input.deep_view()[i] == input@[i].deep_view());
                assert(pre.remove(0)[i] == pre[i + 1]);
                assert(prev[i + 1] == pre[i + 1].deep_view());
            }
            assert(input.deep_view() =~= orig.skip(k + 1));
            assert(orig.take(k + 1).drop_last() =~= orig.take(k));
            assert(orig.take(k + 1).last() == orig[k]);
        }
        let ghost out_before: Seq<EventView> = out.deep_view();
        match rv.start {
            None => {
                proof {
                    assert(spec_decode_event(orig[k], utc_offset_minutes as int) is None);
                }
            },
            Some(si) => {
                let start: DateTime = normalize_instant(si, utc_offset_minutes);
                let end: Option<DateTime> = match rv.end {
                    Some(e) => Some(normalize_instant(e, utc_offset_minutes)),
                    None => None,
                };
                let summary: String = match rv.summary {
                    Some(s) => s,
                    None => String::from_str("(no title)"),
                };
                let is_all_day: bool = match si {
                    RawInstant::DateOnly { .. } => true,
                    _ => false,
                };
                let ev: Event = Event {
                    summary,
                    start,
                    end,
                    location: rv.location,
                    is_all_day,
                };
                proof {
                    assert(ev@ == spec_decode_event(orig[k], utc_offset_minutes as int)->0);
                    assert(ev@.wf());
                }
                out.push(ev);
                proof {
                    assert(out.deep_view() =~= out_before.push(ev@));
                }
            },
        }
    }
    proof {
        assert(orig.take(orig.len() as int) =~= orig);
    }
    out
}

/// Parses ICS calendar bytes into a normalized event list, applying the
/// caller's UTC offset to UTC-zoned instants. A document the calendar parser
/// rejects fails as a whole with a descriptive error and yields no events;
/// an event without a resolvable start is skipped, not an error.
pub fn parse_ics(data: &[u8], utc_offset_minutes: i32) -> (r: Result<Vec<Event>, String>)
    requires
        -6039 <= utc_offset_minutes <= 6039,
    ensures
        r is Ok <==> ics_parses(data@),
        r matches Ok(v) ==> v.deep_view() == spec_decode_events(
            ics_vevents(data@),
            utc_offset_minutes as int,
        ),
        r matches Ok(v) ==> forall|i: int|
            0 <= i < v.deep_view().len() ==> (#[trigger] v.deep_view()[i]).wf(),
{
    match read_vevents(data) {
        Ok(raws) => Ok(decode_events(raws, utc_offset_minutes)),
        Err(e) => Err(e),
    }
}

/// A bare-date start decodes to an all-day event and only such a start
/// does; the start instant of an all-day event is exactly midnight.
pub proof fn lemma_all_day_iff_bare_date(rv: RawVeventView, off: int)
    ensures
        spec_decode_event(rv, off) matches Some(e) ==> (e.is_all_day <==> (rv.start matches Some(
            si,
        ) && si is DateOnly)),
        spec_decode_event(rv, off) matches Some(e) ==> (e.is_all_day ==> e.start.is_midnight()),
{
}

/// Decoding a UTC-zoned instant at offset -300 shows a local hour five below
/// (modulo 24) the hour shown at offset zero, with the same minute.
pub proof fn lemma_utc_offset_shifts_hour(dt: DateTime)
    requires
        dt.hour < 24,
        dt.minute < 60,
    ensures
        spec_normalize_instant(RawInstant::Utc { dt }, 0).hour as int == dt.hour,
        spec_normalize_instant(RawInstant::Utc { dt }, -300).hour as int == (dt.hour + 19) % 24,
        spec_normalize_instant(RawInstant::Utc { dt }, -300).minute == dt.minute,
{
    let h: int = dt.hour as int;
    let m: int = dt.minute as int;
    let total0: int = h * 60 + m + 0;
    lemma_fundamental_div_mod_converse(total0, 1440, 0, total0);
    lemma_fundamental_div_mod_converse(total0, 60, h, m);
    let total1: int = h * 60 + m + -300;
    if h >= 5 {
        lemma_fundamental_div_mod_converse(total1, 1440, 0, total1);
        lemma_fundamental_div_mod_converse(total1, 60, h - 5, m);
        lemma_fundamental_div_mod_converse(h + 19, 24, 1, h - 5);
    } else {
        lemma_fundamental_div_mod_converse(total1, 1440, -1, total1 + 1440);
        lemma_fundamental_div_mod_converse(total1 + 1440, 60, h + 19, m);
        lemma_fundamental_div_mod_converse(h + 19, 24, 0, h + 19);
    }
}

/// Decoding is deterministic: the same bytes with the same offset always
/// yield the same event list, in content and order.
pub proof fn lemma_decode_deterministic(d1: Seq<u8>, d2: Seq<u8>, off1: int, off2: int)
    requires
        d1 == d2,
        off1 == off2,
    ensures
        ics_parses(d1) == ics_parses(d2),
        spec_decode_events(ics_vevents(d1), off1) == spec_decode_events(ics_vevents(d2), off2),
{
}

} // verus!
