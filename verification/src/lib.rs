//! XNote daily-summary engine.
//!
//! A life-logging service records meals, drinks and events, each tied to a
//! calendar date and to a set of attendees.  The library builds, for a closed
//! date range, one summary per day: formatted description strings for each
//! record, bucketed by meal slot, with the day's English weekday name.  All of
//! the assembly and formatting logic is verified; fetching rows from the
//! backing store and serving HTTP are left to the surrounding application.

pub mod date;
pub mod models;
pub mod records;
pub mod render;
pub mod summary;
pub mod text;
