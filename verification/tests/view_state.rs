use calendar_view::date::CalendarDate;
use calendar_view::gregorian::{MAX_YEAR, MIN_YEAR};
use calendar_view::cell::CalendarItemDate;
use calendar_view::grid::build_grid;
use calendar_view::view_state::ViewState;
use chrono::{Datelike, Local};

fn date(year: i32, month: u32, day: u32) -> CalendarDate {
    CalendarDate::new(year, month, day).unwrap()
}

fn clock() -> CalendarDate {
    let now = Local::now().date_naive();
    date(now.year(), now.month(), now.day())
}

#[test]
fn a_view_opens_on_the_selection() {
    let state = ViewState::new(Some(date(2024, 2, 10)), date(2025, 6, 1));
    assert_eq!(state.show_date(), date(2024, 2, 10));
    assert_eq!(ViewState::open(Some(date(2024, 2, 10))).show_date(), date(2024, 2, 10));
}

#[test]
fn a_view_without_selection_opens_on_today() {
    let state = ViewState::new(None, date(2025, 6, 1));
    assert_eq!(state.show_date(), date(2025, 6, 1));
    let before = clock();
    let opened = ViewState::open(None).show_date();
    let after = clock();
    assert!(opened == before || opened == after);
}

#[test]
fn selection_in_another_month_moves_the_anchor() {
    let mut state = ViewState::new(None, date(2024, 2, 10));
    state.sync(Some(date(2024, 3, 2)));
    assert_eq!(state.show_date(), date(2024, 3, 2));
    state.sync(Some(date(2023, 3, 5)));
    assert_eq!(state.show_date(), date(2023, 3, 5));
}

#[test]
fn selection_in_the_same_month_leaves_the_anchor() {
    let mut state = ViewState::new(None, date(2024, 2, 10));
    state.sync(Some(date(2024, 2, 29)));
    assert_eq!(state.show_date(), date(2024, 2, 10));
    state.sync(Some(date(2024, 2, 10)));
    assert_eq!(state.show_date(), date(2024, 2, 10));
}

#[test]
fn no_selection_leaves_the_anchor() {
    let mut state = ViewState::new(Some(date(2024, 2, 10)), date(2025, 6, 1));
    state.sync(None);
    assert_eq!(state.show_date(), date(2024, 2, 10));
}

#[test]
fn click_on_next_month_cell_moves_to_march() {
    let mut state = ViewState::new(None, date(2024, 2, 14));
    let mut selection: Option<CalendarDate> = None;
    state.sync(selection);
    let grid = state.dates();
    let cell = *grid.iter().find(|cell| cell.date() == date(2024, 3, 2)).unwrap();
    assert_eq!(cell, CalendarItemDate::Next(date(2024, 3, 2)));
    assert!(cell.is_other_month());
    selection = cell.clicked();
    assert_eq!(selection, Some(date(2024, 3, 2)));
    assert_eq!(state.show_date(), date(2024, 2, 14));
    state.sync(selection);
    assert_eq!(state.show_date(), date(2024, 3, 2));
    assert_eq!(state.show_date().month(), 3);
    let march = state.dates();
    let shown = march.iter().find(|cell| cell.is_selected(&selection)).unwrap();
    assert_eq!(*shown, CalendarItemDate::Current(date(2024, 3, 2)));
}

#[test]
fn browsing_leaves_the_selection_alone() {
    let selection = Some(date(2024, 2, 14));
    let mut state = ViewState::new(selection, date(2020, 1, 1));
    state.next_month();
    state.next_month();
    assert_eq!(state.show_date(), date(2024, 4, 14));
    assert_eq!(selection, Some(date(2024, 2, 14)));
    assert!(state.dates().iter().all(|cell| !cell.is_selected(&selection)));
}

#[test]
fn today_jumps_to_the_day_of_the_clock() {
    for anchor in [date(1999, 12, 31), date(2024, 2, 29), date(MIN_YEAR, 1, 1), date(MAX_YEAR, 12, 31)] {
        let mut state = ViewState::new(Some(anchor), anchor);
        let before = clock();
        state.today();
        let after = clock();
        assert!(state.show_date() == before || state.show_date() == after);
    }
}

#[test]
fn show_sets_the_anchor() {
    let mut state = ViewState::new(None, date(2024, 2, 10));
    state.show(date(1970, 1, 1));
    assert_eq!(state.show_date(), date(1970, 1, 1));
}

#[test]
fn next_month_moves_one_month_on() {
    let mut state = ViewState::new(None, date(2024, 11, 15));
    state.next_month();
    assert_eq!(state.show_date(), date(2024, 12, 15));
    state.next_month();
    assert_eq!(state.show_date(), date(2025, 1, 15));
}

#[test]
fn previous_month_moves_one_month_back() {
    let mut state = ViewState::new(None, date(2024, 2, 15));
    state.previous_month();
    assert_eq!(state.show_date(), date(2024, 1, 15));
    state.previous_month();
    assert_eq!(state.show_date(), date(2023, 12, 15));
}

#[test]
fn navigation_takes_the_last_day_of_a_short_month() {
    let mut state = ViewState::new(None, date(2024, 1, 31));
    state.next_month();
    assert_eq!(state.show_date(), date(2024, 2, 29));
    let mut state = ViewState::new(None, date(2023, 3, 31));
    state.previous_month();
    assert_eq!(state.show_date(), date(2023, 2, 28));
    let mut state = ViewState::new(None, date(2024, 5, 31));
    state.previous_month();
    assert_eq!(state.show_date(), date(2024, 4, 30));
}

#[test]
fn next_then_previous_comes_back_to_the_month() {
    let mut state = ViewState::new(None, date(2024, 1, 31));
    state.next_month();
    state.previous_month();
    assert_eq!(state.show_date(), date(2024, 1, 29));
    let mut state = ViewState::new(None, date(2023, 1, 31));
    state.next_month();
    state.previous_month();
    assert_eq!(state.show_date(), date(2023, 1, 28));
    let mut state = ViewState::new(None, date(2024, 12, 31));
    state.next_month();
    state.previous_month();
    assert_eq!(state.show_date(), date(2024, 12, 31));
    for year in [1999, 2023, 2024] {
        for month in 1..=12 {
            for day in 1..=date(year, month, 1).days_in_month() {
                let start = date(year, month, day);
                let mut state = ViewState::new(None, start);
                state.next_month();
                let reached = state.show_date();
                state.previous_month();
                assert!(state.show_date().same_month(&start));
                assert_eq!(state.show_date().day(), reached.day());
                assert_eq!(reached.day(), day.min(reached.days_in_month()));
            }
        }
    }
}

#[test]
fn navigation_ends_at_the_ends_of_the_range() {
    let first = ViewState::new(None, date(MIN_YEAR, 1, 15));
    assert!(!first.has_previous_month());
    assert!(first.has_next_month());
    assert!(!first.has_dates());
    let last = ViewState::new(None, date(MAX_YEAR, 12, 15));
    assert!(last.has_previous_month());
    assert!(!last.has_next_month());
    assert!(!last.has_dates());
    let mut second = ViewState::new(None, date(MIN_YEAR, 2, 15));
    assert!(second.has_previous_month());
    assert!(second.has_dates());
    second.previous_month();
    assert_eq!(second.show_date(), date(MIN_YEAR, 1, 15));
    let mut before_last = ViewState::new(None, date(MAX_YEAR, 11, 30));
    assert!(before_last.has_dates());
    before_last.next_month();
    assert_eq!(before_last.show_date(), date(MAX_YEAR, 12, 30));
}

#[test]
fn dates_are_the_grid_of_the_anchor() {
    let mut state = ViewState::new(None, date(2024, 2, 14));
    assert_eq!(state.dates(), build_grid(date(2024, 2, 14)));
    state.next_month();
    assert_eq!(state.dates(), build_grid(date(2024, 3, 1)));
}
