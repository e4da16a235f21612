//! The colours that the widgets are drawn in.

use vstd::prelude::*;

verus! {

/// The colours that every widget shares, each a CSS colour value.
#[derive(Clone, Debug, PartialEq, Eq)]
pub struct CommonTheme {
    pub color_primary: String,
    pub color_success: String,
    pub color_warning: String,
    pub color_error: String,
}

/// The colours of the month view, each a CSS colour value.
#[derive(Clone, Debug, PartialEq, Eq)]
pub struct CalendarTheme {
    pub border_color: String,
    pub other_month_font_color: String,
    pub background_color_hover: String,
}

/// The colours of all widgets.
#[derive(Clone, Debug, PartialEq, Eq)]
pub struct Theme {
    pub common: CommonTheme,
    pub calendar: CalendarTheme,
}

} // verus!
