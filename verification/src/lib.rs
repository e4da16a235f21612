//! The view state of a month calendar: which days a month view shows, how the
//! shown month follows a selected date, and how it moves on navigation.

pub mod button;
pub mod cell;
pub mod date;
pub mod gregorian;
pub mod grid;
pub mod theme;
pub mod view_state;
