//! A verified core for a calendar/agenda view: a civil-date model with
//! weekday arithmetic, the agenda's day-navigation rules, the month-picker
//! state machine and grid, a drag-to-reorder widget's ordering logic, and
//! the announcement cache's freshness rules.

pub mod agenda;
pub mod announcements;
pub mod calendar;
pub mod dates;
pub mod sortable;
