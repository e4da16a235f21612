//! The state of a month view: the day whose month is shown, how it follows a
//! selection that is owned elsewhere, and how it moves on navigation.

use vstd::prelude::*;

use crate::cell::{CalendarItemDate, Placement};
use crate::date::{add_months, now_date, sub_months, CalendarDate};
use crate::gregorian::{
    days_in_month, is_date, is_representable, lemma_month_round_trip, lemma_neighbour_months,
    months_after, same_month, Ymd, MAX_YEAR, MIN_YEAR,
};
use crate::grid::{
    build_grid, grid_cell, grid_len, has_neighbours, lemma_grid_months, month_grid,
};

verus! {

/// The anchor after a selection was seen: the selected day where it lies in
/// another month than the anchor, else the anchor as it was.
pub open spec fn synced(anchor: Ymd, selection: Option<Ymd>) -> Ymd {
    match selection {
        Some(day) => if same_month(day, anchor) {
            anchor
        } else {
            day
        },
        None => anchor,
    }
}

/// After a selection was seen the anchor lies in the month of a selected day
/// that lies in another month than the anchor did, and is unchanged where the
/// selected day lies in the month of the anchor, or nothing is selected.
pub proof fn lemma_sync(anchor: Ymd, selection: Option<Ymd>)
    ensures
        selection matches Some(day) ==> (!same_month(day, anchor) ==> synced(anchor, selection)
            == day),
        selection matches Some(day) ==> (same_month(day, anchor) ==> synced(anchor, selection)
            == anchor),
        selection is None ==> synced(anchor, selection) == anchor,
        selection matches Some(day) ==> same_month(synced(anchor, selection), day),
        synced(synced(anchor, selection), selection) == synced(anchor, selection),
{
}

/// A click on a shown day selects it, and the anchor follows the selection:
/// after a click on a day of the shown month the anchor is what it was, and
/// after a click on a padding day that day is the anchor, so that the month
/// before or after is shown.
pub proof fn lemma_click_on_grid(anchor: Ymd, i: int)
    requires
        is_date(anchor),
        0 <= i < month_grid(anchor).len(),
    ensures
        month_grid(anchor)[i].placement == Placement::Current ==> synced(
            anchor,
            Some(month_grid(anchor)[i].date),
        ) == anchor,
        month_grid(anchor)[i].placement != Placement::Current ==> synced(
            anchor,
            Some(month_grid(anchor)[i].date),
        ) == month_grid(anchor)[i].date,
        month_grid(anchor)[i].placement == Placement::Previous ==> same_month(
            synced(anchor, Some(month_grid(anchor)[i].date)),
            months_after(anchor, -1),
        ),
        month_grid(anchor)[i].placement == Placement::Next ==> same_month(
            synced(anchor, Some(month_grid(anchor)[i].date)),
            months_after(anchor, 1),
        ),
{
    lemma_grid_months(anchor, i);
}

/// One month on and then one month back shows the month of the start again.
/// The anchor keeps its day unless the month after was too short for it:
/// then its day is the last of that month, in both steps.
pub proof fn lemma_next_then_previous(anchor: Ymd)
    requires
        is_representable(anchor),
    ensures
        same_month(months_after(months_after(anchor, 1), -1), anchor),
        months_after(months_after(anchor, 1), -1).day == if anchor.day <= days_in_month(
            months_after(anchor, 1).year,
            months_after(anchor, 1).month,
        ) {
            anchor.day
        } else {
            days_in_month(months_after(anchor, 1).year, months_after(anchor, 1).month)
        },
        months_after(months_after(anchor, 1), -1).year >= MIN_YEAR,
{
    lemma_month_round_trip(anchor);
}

/// The state of a month view: the anchor, a day of the month that is shown.
#[derive(Clone, Copy, Debug, PartialEq, Eq, Structural)]
pub struct ViewState {
    show_date: CalendarDate,
}

impl View for ViewState {
    type V = Ymd;

    closed spec fn view(&self) -> Ymd {
        self.show_date@
    }
}

impl ViewState {
    /// The state of a view that opens on the day `today`: the anchor is the
    /// selected day, or `today` where nothing is selected.
    pub fn new(selection: Option<CalendarDate>, today: CalendarDate) -> (r: ViewState)
        ensures
            r@ == match selection {
                Some(day) => day@,
                None => today@,
            },
    {
        match selection {
            Some(day) => ViewState { show_date: day },
            None => ViewState { show_date: today },
        }
    }

    /// The state of a view that opens now: the anchor is the selected day, or
    /// the day that the clock of the host shows where nothing is selected.
    pub fn open(selection: Option<CalendarDate>) -> (r: ViewState)
        ensures
            selection matches Some(day) ==> r@ == day@,
    {
        ViewState::new(selection, now_date())
    }

    /// The anchor.
    pub fn show_date(&self) -> (r: CalendarDate)
        ensures
            r@ == self@,
    {
        self.show_date
    }

    /// Takes note of the selection: where a day is selected that lies in
    /// another month than the anchor, it becomes the anchor.
    pub fn sync(&mut self, selection: Option<CalendarDate>)
        ensures
            final(self)@ == synced(old(self)@, selection.deep_view()),
    {
        if let Some(selected_date) = selection {
            if !selected_date.same_month(&self.show_date) {
                self.show_date = selected_date;
            }
        }
    }

    /// Makes `date` the anchor.
    pub fn show(&mut self, date: CalendarDate)
        ensures
            final(self)@ == date@,
    {
        self.show_date = date;
    }

    /// Makes the day that the clock of the host shows the anchor, whatever
    /// the anchor was.
    pub fn today(&mut self) {
        self.show(now_date());
    }

    /// Whether the month before the shown one lies in the years that a date
    /// can hold.
    pub fn has_previous_month(&self) -> (r: bool)
        ensures
            r == (months_after(self@, -1).year >= MIN_YEAR),
    {
        proof {
            use_type_invariant(&self.show_date);
        }
        !(self.show_date.year() == MIN_YEAR && self.show_date.month() == 1)
    }

    /// Whether the month after the shown one lies in the years that a date
    /// can hold.
    pub fn has_next_month(&self) -> (r: bool)
        ensures
            r == (months_after(self@, 1).year <= MAX_YEAR),
    {
        proof {
            use_type_invariant(&self.show_date);
        }
        !(self.show_date.year() == MAX_YEAR && self.show_date.month() == 12)
    }

    /// Moves the anchor one month back.
    pub fn previous_month(&mut self)
        requires
            months_after(old(self)@, -1).year >= MIN_YEAR,
        ensures
            final(self)@ == months_after(old(self)@, -1),
    {
        proof {
            use_type_invariant(&self.show_date);
        }
        self.show_date = sub_months(self.show_date, 1);
    }

    /// Moves the anchor one month on.
    pub fn next_month(&mut self)
        requires
            months_after(old(self)@, 1).year <= MAX_YEAR,
        ensures
            final(self)@ == months_after(old(self)@, 1),
    {
        proof {
            use_type_invariant(&self.show_date);
        }
        self.show_date = add_months(self.show_date, 1);
    }

    /// Whether the shown month has a grid: the months before and after it lie
    /// in the years that a date can hold.
    pub fn has_dates(&self) -> (r: bool)
        ensures
            r == has_neighbours(self@),
            r == (months_after(self@, -1).year >= MIN_YEAR && months_after(self@, 1).year
                <= MAX_YEAR),
    {
        proof {
            use_type_invariant(&self.show_date);
            lemma_neighbour_months(self@);
        }
        self.has_previous_month() && self.has_next_month()
    }

    /// The days to show for the anchor.
    pub fn dates(&self) -> (r: Vec<CalendarItemDate>)
        requires
            has_neighbours(self@),
        ensures
            r.deep_view() == month_grid(self@),
            r@.len() == grid_len(self@),
            forall|i: int| 0 <= i < r@.len() ==> (#[trigger] r@[i])@ == grid_cell(self@, i),
    {
        build_grid(self.show_date)
    }
}

} // verus!
