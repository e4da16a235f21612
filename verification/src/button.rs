//! The kinds and colours of the buttons that move the month view.

use vstd::prelude::*;

use crate::theme::Theme;

verus! {

/// How a button is drawn.
#[derive(Clone, Copy, Debug, PartialEq, Eq, Structural)]
pub enum ButtonType {
    PRIMARY,
    SOLID,
    TEXT,
}

impl Default for ButtonType {
    fn default() -> (r: ButtonType)
        ensures
            r == ButtonType::PRIMARY,
    {
        ButtonType::PRIMARY
    }
}

/// Which colour of the theme a button takes.
#[derive(Clone, Copy, Debug, PartialEq, Eq, Structural)]
pub enum ButtonColor {
    PRIMARY,
    SUCCESS,
    WARNING,
    Error,
}

impl Default for ButtonColor {
    fn default() -> (r: ButtonColor)
        ensures
            r == ButtonColor::PRIMARY,
    {
        ButtonColor::PRIMARY
    }
}

impl ButtonColor {
    /// The colour of `theme` that this stands for.
    pub open spec fn theme_color_of(&self, theme: &Theme) -> Seq<char> {
        match self {
            ButtonColor::PRIMARY => theme.common.color_primary@,
            ButtonColor::SUCCESS => theme.common.color_success@,
            ButtonColor::WARNING => theme.common.color_warning@,
            ButtonColor::Error => theme.common.color_error@,
        }
    }

    /// The colour of `theme` that this stands for, as a CSS colour value.
    pub fn theme_color(&self, theme: &Theme) -> (r: String)
        ensures
            r@ == self.theme_color_of(theme),
    {
        match self {
            ButtonColor::PRIMARY => theme.common.color_primary.clone(),
            ButtonColor::SUCCESS => theme.common.color_success.clone(),
            ButtonColor::WARNING => theme.common.color_warning.clone(),
            ButtonColor::Error => theme.common.color_error.clone(),
        }
    }
}

} // verus!
