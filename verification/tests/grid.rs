use calendar_view::date::CalendarDate;
use calendar_view::gregorian::{MAX_YEAR, MIN_YEAR};
use calendar_view::cell::{CalendarItemDate, Placement};
use calendar_view::grid::{build_grid, month_has_neighbours};
use chrono::{Datelike, Local};

fn day(year: i32, month: u32, day: u32) -> CalendarDate {
    CalendarDate::new(year, month, day).unwrap()
}

fn count(grid: &[CalendarItemDate], placement: Placement) -> usize {
    grid.iter().filter(|cell| cell.placement() == placement).count()
}

fn check_shape(anchor: CalendarDate) {
    let grid = build_grid(anchor);
    let length = anchor.days_in_month() as usize;
    assert_eq!(grid.len() % 7, 0);
    assert!(grid.len() >= length);
    assert_eq!(count(&grid, Placement::Current), length);
    assert!(count(&grid, Placement::Previous) <= 6);
    assert!(count(&grid, Placement::Next) <= 6);
    assert_eq!(grid.first().unwrap().date().weekday(), 0);
    assert_eq!(grid.last().unwrap().date().weekday(), 6);
    let leading = count(&grid, Placement::Previous);
    for (i, cell) in grid.iter().enumerate() {
        let expected = if i < leading {
            Placement::Previous
        } else if i < leading + length {
            Placement::Current
        } else {
            Placement::Next
        };
        assert_eq!(cell.placement(), expected);
        assert_eq!(cell.date().weekday() as usize, i % 7);
        assert_eq!(cell.date().same_month(&anchor), expected == Placement::Current);
        if i > 0 {
            assert_eq!(Some(cell.date()), grid[i - 1].date().checked_add_days(1));
        }
    }
    assert_eq!(grid[leading].date(), day(anchor.year(), anchor.month(), 1));
    assert_eq!(grid, build_grid(anchor));
}

#[test]
fn grid_of_february_2024() {
    let grid = build_grid(day(2024, 2, 1));
    assert_eq!(count(&grid, Placement::Current), 29);
    assert_eq!(count(&grid, Placement::Previous), 4);
    assert_eq!(
        grid[..4],
        [
            CalendarItemDate::Previous(day(2024, 1, 28)),
            CalendarItemDate::Previous(day(2024, 1, 29)),
            CalendarItemDate::Previous(day(2024, 1, 30)),
            CalendarItemDate::Previous(day(2024, 1, 31)),
        ]
    );
    assert_eq!(grid[4], CalendarItemDate::Current(day(2024, 2, 1)));
    assert_eq!(grid[32], CalendarItemDate::Current(day(2024, 2, 29)));
    assert_eq!(
        grid[33..],
        [
            CalendarItemDate::Next(day(2024, 3, 1)),
            CalendarItemDate::Next(day(2024, 3, 2)),
        ]
    );
    assert_eq!(grid.last().unwrap().date().weekday(), 6);
    assert_eq!(grid.len(), 35);
}

#[test]
fn grid_is_made_of_whole_weeks() {
    for year in 1995..2035 {
        for month in 1..=12 {
            check_shape(day(year, month, 1));
        }
    }
}

#[test]
fn grid_does_not_depend_on_the_day_of_the_anchor() {
    for (year, month) in [(2024, 2), (2023, 12), (2024, 1), (2015, 2), (1900, 2)] {
        let first = day(year, month, 1);
        let of_first = build_grid(first);
        for d in 2..=first.days_in_month() {
            assert_eq!(build_grid(day(year, month, d)), of_first);
        }
    }
}

#[test]
fn grid_without_padding() {
    let grid = build_grid(day(2015, 2, 14));
    assert_eq!(grid.len(), 28);
    assert_eq!(grid[0], CalendarItemDate::Current(day(2015, 2, 1)));
    assert_eq!(grid[27], CalendarItemDate::Current(day(2015, 2, 28)));
    assert_eq!(count(&grid, Placement::Previous), 0);
    assert_eq!(count(&grid, Placement::Next), 0);
}

#[test]
fn grid_with_six_leading_days() {
    let grid = build_grid(day(2024, 6, 30));
    assert_eq!(count(&grid, Placement::Previous), 6);
    assert_eq!(grid[0], CalendarItemDate::Previous(day(2024, 5, 26)));
    assert_eq!(grid[5], CalendarItemDate::Previous(day(2024, 5, 31)));
    assert_eq!(grid[6], CalendarItemDate::Current(day(2024, 6, 1)));
    assert_eq!(grid.len(), 42);
    assert_eq!(count(&grid, Placement::Next), 6);
    assert_eq!(grid[41], CalendarItemDate::Next(day(2024, 7, 6)));
}

#[test]
fn grid_rolls_over_the_end_of_the_year() {
    let december = build_grid(day(2023, 12, 15));
    assert_eq!(december[0], CalendarItemDate::Previous(day(2023, 11, 26)));
    assert_eq!(december.last(), Some(&CalendarItemDate::Next(day(2024, 1, 6))));
    assert_eq!(december.len(), 42);
    let january = build_grid(day(2025, 1, 20));
    assert_eq!(january[0], CalendarItemDate::Previous(day(2024, 12, 29)));
    assert_eq!(january[2], CalendarItemDate::Previous(day(2024, 12, 31)));
    assert_eq!(january[3], CalendarItemDate::Current(day(2025, 1, 1)));
    assert_eq!(january.last(), Some(&CalendarItemDate::Next(day(2025, 2, 1))));
}

#[test]
fn grid_in_years_far_away() {
    for year in [MIN_YEAR + 1, -400, -1, 0, 1, MAX_YEAR - 1] {
        for month in 1..=12 {
            check_shape(day(year, month, 17));
        }
    }
    for month in 2..=12 {
        check_shape(day(MIN_YEAR, month, 3));
    }
    for month in 1..=11 {
        check_shape(day(MAX_YEAR, month, 3));
    }
}

#[test]
fn months_at_the_ends_of_the_range_have_no_grid() {
    assert!(!month_has_neighbours(&day(MIN_YEAR, 1, 1)));
    assert!(!month_has_neighbours(&day(MIN_YEAR, 1, 31)));
    assert!(!month_has_neighbours(&day(MAX_YEAR, 12, 1)));
    assert!(month_has_neighbours(&day(MIN_YEAR, 2, 1)));
    assert!(month_has_neighbours(&day(MAX_YEAR, 11, 30)));
    assert!(month_has_neighbours(&day(2024, 1, 1)));
    assert!(month_has_neighbours(&day(2024, 12, 31)));
}

#[test]
fn building_twice_gives_the_same_grid() {
    let anchor = day(2024, 2, 1);
    assert_eq!(build_grid(anchor), build_grid(anchor));
}

#[test]
fn padding_is_other_month() {
    assert!(CalendarItemDate::Previous(day(2024, 1, 31)).is_other_month());
    assert!(CalendarItemDate::Next(day(2024, 3, 1)).is_other_month());
    assert!(!CalendarItemDate::Current(day(2024, 2, 1)).is_other_month());
}

#[test]
fn a_cell_gives_its_date_and_placement() {
    let date = day(2024, 1, 31);
    assert_eq!(CalendarItemDate::Previous(date).date(), date);
    assert_eq!(CalendarItemDate::Current(date).date(), date);
    assert_eq!(CalendarItemDate::Next(date).date(), date);
    assert_eq!(CalendarItemDate::Previous(date).placement(), Placement::Previous);
    assert_eq!(CalendarItemDate::Current(date).placement(), Placement::Current);
    assert_eq!(CalendarItemDate::Next(date).placement(), Placement::Next);
}

#[test]
fn a_cell_derefs_to_its_date() {
    let date = day(2024, 1, 31);
    assert_eq!(*CalendarItemDate::Previous(date), date);
    assert_eq!(*CalendarItemDate::Current(date), date);
    assert_eq!(*CalendarItemDate::Next(date), date);
    assert_eq!(CalendarItemDate::Next(date).day(), 31);
}

#[test]
fn a_cell_is_selected_when_it_shows_the_selection() {
    let cell = CalendarItemDate::Next(day(2024, 3, 2));
    assert!(cell.is_selected(&Some(day(2024, 3, 2))));
    assert!(!cell.is_selected(&Some(day(2024, 3, 1))));
    assert!(!cell.is_selected(&Some(day(2023, 3, 2))));
    assert!(!cell.is_selected(&None));
    assert!(cell.is_on(&day(2024, 3, 2)));
    assert!(!cell.is_on(&day(2024, 2, 2)));
}

#[test]
fn a_click_selects_the_day_of_the_cell() {
    assert_eq!(CalendarItemDate::Previous(day(2024, 1, 31)).clicked(), Some(day(2024, 1, 31)));
    assert_eq!(CalendarItemDate::Current(day(2024, 2, 5)).clicked(), Some(day(2024, 2, 5)));
    assert_eq!(CalendarItemDate::Next(day(2024, 3, 2)).clicked(), Some(day(2024, 3, 2)));
}

#[test]
fn today_is_the_day_of_the_clock() {
    let before = Local::now().date_naive();
    let now = day(before.year(), before.month(), before.day());
    let cell = CalendarItemDate::Current(now);
    let shown = cell.is_today();
    let after = Local::now().date_naive();
    if before == after {
        assert!(shown);
        assert!(!CalendarItemDate::Current(now.checked_add_days(1).unwrap()).is_today());
        assert!(!CalendarItemDate::Current(now.checked_sub_days(1).unwrap()).is_today());
    }
}
