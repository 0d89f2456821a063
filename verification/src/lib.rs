//! Verified core of a calendar-widget plugin: it decodes an ICS document into a
//! normalized event list, applies a caller-supplied UTC offset, filters and sorts
//! the events around a "now" instant, and renders short relative-time labels
//! ("now", "in 15 min", "tmrw 9:00 am", "jan 17 10:00 am").
//!
//! The host around the widget (command execution, terminal rendering, option
//! parsing) stays outside; every function here is a pure function of its
//! arguments, with a contract that pins the result.

pub mod ctx;
pub mod display;
pub mod event;
pub mod ics;
pub mod parse;
pub mod select;
pub mod text;
pub mod time;
