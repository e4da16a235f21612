//! A day that a month view shows, and what is derived from it for drawing.

use vstd::prelude::*;

use crate::date::{lemma_view_injective, now_date, CalendarDate};
use crate::gregorian::Ymd;

verus! {

/// Where a shown day lies with respect to the shown month.
#[derive(Clone, Copy, Debug, PartialEq, Eq, Structural)]
pub enum Placement {
    /// In the month before: leading padding.
    Previous,
    /// In the shown month.
    Current,
    /// In the month after: trailing padding.
    Next,
}

/// A shown day as the contracts speak of it.
pub struct Cell {
    pub placement: Placement,
    pub date: Ymd,
}

/// A shown day.
#[derive(Clone, Copy, Debug, PartialEq, Eq, Structural)]
pub enum CalendarItemDate {
    Previous(CalendarDate),
    Current(CalendarDate),
    Next(CalendarDate),
}

impl View for CalendarItemDate {
    type V = Cell;

    open spec fn view(&self) -> Cell {
        match *self {
            CalendarItemDate::Previous(date) => Cell {
                placement: Placement::Previous,
                date: date@,
            },
            CalendarItemDate::Current(date) => Cell { placement: Placement::Current, date: date@ },
            CalendarItemDate::Next(date) => Cell { placement: Placement::Next, date: date@ },
        }
    }
}

impl DeepView for CalendarItemDate {
    type V = Cell;

    open spec fn deep_view(&self) -> Cell {
        self@
    }
}

impl CalendarItemDate {
    /// The day that the cell shows.
    pub open spec fn spec_date(&self) -> CalendarDate {
        match *self {
            CalendarItemDate::Previous(date) => date,
            CalendarItemDate::Current(date) => date,
            CalendarItemDate::Next(date) => date,
        }
    }

    /// The day that the cell shows.
    #[verifier::when_used_as_spec(spec_date)]
    pub fn date(&self) -> (r: CalendarDate)
        ensures
            r == self.spec_date(),
            r@ == self@.date,
    {
        match self {
            CalendarItemDate::Previous(date) => *date,
            CalendarItemDate::Current(date) => *date,
            CalendarItemDate::Next(date) => *date,
        }
    }

    /// Where the day lies with respect to the shown month.
    pub fn placement(&self) -> (r: Placement)
        ensures
            r == self@.placement,
    {
        match self {
            CalendarItemDate::Previous(_) => Placement::Previous,
            CalendarItemDate::Current(_) => Placement::Current,
            CalendarItemDate::Next(_) => Placement::Next,
        }
    }

    /// Whether the cell is padding: a day of the month before or after.
    pub fn is_other_month(&self) -> (r: bool)
        ensures
            r == (self@.placement != Placement::Current),
    {
        match self {
            CalendarItemDate::Previous(_) | CalendarItemDate::Next(_) => true,
            CalendarItemDate::Current(_) => false,
        }
    }

    /// Whether the cell shows the day `day`.
    pub fn is_on(&self, day: &CalendarDate) -> (r: bool)
        ensures
            r == (self@.date == day@),
    {
        let date: CalendarDate = self.date();
        proof {
            lemma_view_injective(date, *day);
        }
        date == *day
    }

    /// Whether the cell shows the day that the clock of the host shows now.
    pub fn is_today(&self) -> bool {
        let now_date: CalendarDate = now_date();
        self.is_on(&now_date)
    }

    /// Whether the cell shows the selected day. Without a selection no cell
    /// does.
    pub fn is_selected(&self, selection: &Option<CalendarDate>) -> (r: bool)
        ensures
            r == (selection.deep_view() == Some(self@.date)),
    {
        match selection {
            Some(day) => self.is_on(day),
            None => false,
        }
    }

    /// The selection that a click on the cell makes: the day that it shows,
    /// whether it lies in the shown month or not.
    pub fn clicked(&self) -> (r: Option<CalendarDate>)
        ensures
            r.deep_view() == Some(self@.date),
    {
        Some(self.date())
    }
}

impl std::ops::Deref for CalendarItemDate {
    type Target = CalendarDate;

    /// The day that the cell shows.
    fn deref(&self) -> (r: &CalendarDate)
        ensures
            *r == self.spec_date(),
    {
        match self {
            CalendarItemDate::Previous(date)
            | CalendarItemDate::Current(date)
            | CalendarItemDate::Next(date) => date,
        }
    }
}

} // verus!
