use calendar_view::button::{ButtonColor, ButtonType};
use calendar_view::theme::{CalendarTheme, CommonTheme, Theme};

fn theme() -> Theme {
    Theme {
        common: CommonTheme {
            color_primary: "#0078ff".to_string(),
            color_success: "#18a058".to_string(),
            color_warning: "#f0a020".to_string(),
            color_error: "#d03050".to_string(),
        },
        calendar: CalendarTheme {
            border_color: "#efeff5".to_string(),
            other_month_font_color: "#c2c2c2".to_string(),
            background_color_hover: "#f3f3f5".to_string(),
        },
    }
}

#[test]
fn a_button_is_primary_by_default() {
    assert_eq!(ButtonType::default(), ButtonType::PRIMARY);
    assert_eq!(ButtonColor::default(), ButtonColor::PRIMARY);
}

#[test]
fn a_button_colour_picks_its_colour_of_the_theme() {
    let theme = theme();
    assert_eq!(ButtonColor::PRIMARY.theme_color(&theme), "#0078ff");
    assert_eq!(ButtonColor::SUCCESS.theme_color(&theme), "#18a058");
    assert_eq!(ButtonColor::WARNING.theme_color(&theme), "#f0a020");
    assert_eq!(ButtonColor::Error.theme_color(&theme), "#d03050");
}
