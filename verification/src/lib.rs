//! A scrollable three-month calendar grid.
//!
//! The library owns the calendar arithmetic (month and year rollover,
//! weekday alignment, ISO-8601 week numbering), the fixed pixel layout of
//! each month panel, and the widget state machine that decides when a
//! redraw is needed and how scroll and click input moves the displayed
//! month range.  Drawing is described as a list of operations against an
//! abstract surface; a host executes them with its own buffer, fonts and
//! colors.

pub mod date;
pub mod layout;
pub mod text;
pub mod widget;
