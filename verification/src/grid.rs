//! The days that a month view shows: the days of the month itself, led by the
//! last days of the month before and trailed by the first days of the month
//! after, so that the whole begins on a Sunday and ends on a Saturday.

use vstd::prelude::*;

use crate::cell::{CalendarItemDate, Cell, Placement};
use crate::date::{add_days, lemma_view_injective, sub_days, CalendarDate};
use crate::gregorian::{
    day_number, days_after, days_before, days_in_month, is_date, is_representable,
    lemma_neighbour_months, lemma_next_day, lemma_prev_day, months_after, next_day, prev_day,
    same_month, weekday, Ymd, MAX_YEAR, MIN_YEAR,
};

verus! {

/// The first day of the month of `a`.
pub open spec fn first_of_month(a: Ymd) -> Ymd {
    Ymd { year: a.year, month: a.month, day: 1 }
}

/// The last day of the month of `a`.
pub open spec fn last_of_month(a: Ymd) -> Ymd {
    Ymd { year: a.year, month: a.month, day: days_in_month(a.year, a.month) }
}

/// How many days of the month before lead the grid: as many as lie between
/// the Sunday on or before the first of the month and that first.
pub open spec fn leading(a: Ymd) -> int {
    weekday(first_of_month(a))
}

/// How many days of the month after trail the grid: as many as lie between
/// the last of the month and the Saturday on or after it.
pub open spec fn trailing(a: Ymd) -> int {
    6 - weekday(last_of_month(a))
}

/// The number of shown days.
pub open spec fn grid_len(a: Ymd) -> int {
    leading(a) + days_in_month(a.year, a.month) + trailing(a)
}

/// The shown day at position `i`.
pub open spec fn grid_cell(a: Ymd, i: int) -> Cell {
    let lead: int = leading(a);
    let length: int = days_in_month(a.year, a.month);
    if i < lead {
        Cell {
            placement: Placement::Previous,
            date: days_before(first_of_month(a), (lead - i) as nat),
        }
    } else if i < lead + length {
        Cell {
            placement: Placement::Current,
            date: Ymd { year: a.year, month: a.month, day: i - lead + 1 },
        }
    } else {
        Cell {
            placement: Placement::Next,
            date: days_after(last_of_month(a), (i - lead - length + 1) as nat),
        }
    }
}

/// The days shown for the month that `a` lies in, in calendar order. The day
/// of `a` within its month makes no difference.
pub open spec fn month_grid(a: Ymd) -> Seq<Cell> {
    Seq::new(grid_len(a) as nat, |i: int| grid_cell(a, i))
}

/// The months before and after the month of `a` lie in the years that a date
/// can hold, so that every shown day, and the day before and after them, is a
/// date.
pub open spec fn has_neighbours(a: Ymd) -> bool {
    &&& prev_day(first_of_month(a)).year >= MIN_YEAR
    &&& next_day(last_of_month(a)).year <= MAX_YEAR
}

/// How many cells of `s` have the placement `p`.
pub open spec fn count_placed(s: Seq<Cell>, p: Placement) -> nat
    decreases s.len(),
{
    if s.len() == 0 {
        0
    } else {
        count_placed(s.drop_last(), p) + if s.last().placement == p {
            1nat
        } else {
            0nat
        }
    }
}

/// Going back from a day stays in its month down to the first, and then runs
/// through the end of the month before.
pub proof fn lemma_days_before_closed(a: Ymd, k: nat)
    requires
        is_date(a),
        k < a.day + 28,
    ensures
        is_date(days_before(a, k)),
        day_number(days_before(a, k)) == day_number(a) - k,
        k < a.day ==> days_before(a, k) == (Ymd {
            year: a.year,
            month: a.month,
            day: a.day - k,
        }),
        k >= a.day ==> days_before(a, k) == (Ymd {
            year: prev_day(first_of_month(a)).year,
            month: prev_day(first_of_month(a)).month,
            day: prev_day(first_of_month(a)).day - (k - a.day),
        }),
    decreases k,
{
    if k > 0 {
        lemma_days_before_closed(a, (k - 1) as nat);
        lemma_prev_day(days_before(a, (k - 1) as nat));
    }
}

/// Going on from a day stays in its month up to the last, and then runs
/// through the start of the month after.
pub proof fn lemma_days_after_closed(a: Ymd, k: nat)
    requires
        is_date(a),
        a.day + k <= days_in_month(a.year, a.month) + 28,
    ensures
        is_date(days_after(a, k)),
        day_number(days_after(a, k)) == day_number(a) + k,
        a.day + k <= days_in_month(a.year, a.month) ==> days_after(a, k) == (Ymd {
            year: a.year,
            month: a.month,
            day: a.day + k,
        }),
        a.day + k > days_in_month(a.year, a.month) ==> days_after(a, k) == (Ymd {
            year: next_day(last_of_month(a)).year,
            month: next_day(last_of_month(a)).month,
            day: a.day + k - days_in_month(a.year, a.month),
        }),
    decreases k,
{
    if k > 0 {
        lemma_days_after_closed(a, (k - 1) as nat);
        lemma_next_day(days_after(a, (k - 1) as nat));
    }
}

/// The padding is shorter than a week, and the grid is made of whole weeks.
pub proof fn lemma_grid_len(a: Ymd)
    requires
        is_date(a),
    ensures
        0 <= leading(a) <= 6,
        0 <= trailing(a) <= 6,
        grid_len(a) % 7 == 0,
        grid_len(a) >= days_in_month(a.year, a.month),
        weekday(last_of_month(a)) == (leading(a) + days_in_month(a.year, a.month) - 1) % 7,
{
    let first: int = day_number(first_of_month(a));
    let length: int = days_in_month(a.year, a.month);
    assert(day_number(last_of_month(a)) == first + length - 1) by {
        reveal(day_number);
    }
    lemma_whole_weeks(first, length);
}

proof fn lemma_whole_weeks(first: int, length: int)
    ensures
        0 <= first % 7 <= 6,
        0 <= (first + length - 1) % 7 <= 6,
        (first % 7 + length + 6 - (first + length - 1) % 7) % 7 == 0,
        (first + length - 1) % 7 == (first % 7 + length - 1) % 7,
{
}

/// Every shown day is a date; the first is a Sunday and the last a Saturday;
/// each day follows the one before it.
pub proof fn lemma_grid_days(a: Ymd, i: int)
    requires
        is_date(a),
        0 <= i < grid_len(a),
    ensures
        is_date(grid_cell(a, i).date),
        day_number(grid_cell(a, i).date) == day_number(first_of_month(a)) - leading(a) + i,
        weekday(grid_cell(a, i).date) == i % 7,
{
    lemma_grid_len(a);
    let lead: int = leading(a);
    let length: int = days_in_month(a.year, a.month);
    let first: int = day_number(first_of_month(a));
    if i < lead {
        lemma_days_before_closed(first_of_month(a), (lead - i) as nat);
    } else if i < lead + length {
        assert(day_number(grid_cell(a, i).date) == first + i - lead) by {
            reveal(day_number);
        }
    } else {
        lemma_days_after_closed(last_of_month(a), (i - lead - length + 1) as nat);
        assert(day_number(last_of_month(a)) == first + length - 1) by {
            reveal(day_number);
        }
    }
    lemma_weekday_of_position(first, i);
}

proof fn lemma_weekday_of_position(first: int, i: int)
    ensures
        (first - first % 7 + i) % 7 == i % 7,
{
}

/// The cell that the walk back from the day `a` collects at its step `j`:
/// one more day back, of the shown month as long as the walk has not left it.
pub open spec fn back_cell(a: Ymd, j: int) -> Cell {
    Cell {
        placement: if j + 1 < a.day {
            Placement::Current
        } else {
            Placement::Previous
        },
        date: days_before(a, (j + 1) as nat),
    }
}

/// What the walk back from `a` collects, nearest day first: the days of the
/// month before `a`, then the leading padding.
pub open spec fn cells_back(a: Ymd) -> Seq<Cell> {
    Seq::new((a.day - 1 + leading(a)) as nat, |j: int| back_cell(a, j))
}

/// The cell that the walk forward from the day `a` collects at its step `j`.
pub open spec fn forward_cell(a: Ymd, j: int) -> Cell {
    Cell {
        placement: if a.day + j + 1 <= days_in_month(a.year, a.month) {
            Placement::Current
        } else {
            Placement::Next
        },
        date: days_after(a, (j + 1) as nat),
    }
}

/// What the walk forward from `a` collects: the days of the month after `a`,
/// then the trailing padding.
pub open spec fn cells_forward(a: Ymd) -> Seq<Cell> {
    Seq::new(
        (days_in_month(a.year, a.month) - a.day + trailing(a)) as nat,
        |j: int| forward_cell(a, j),
    )
}

/// The walk back turned round, the day itself and the walk forward make the
/// grid of the month.
pub proof fn lemma_grid_assembly(a: Ymd)
    requires
        is_date(a),
    ensures
        cells_back(a).reverse() + seq![Cell { placement: Placement::Current, date: a }]
            + cells_forward(a) == month_grid(a),
{
    lemma_grid_len(a);
    let lead: int = leading(a);
    let length: int = days_in_month(a.year, a.month);
    let back: Seq<Cell> = cells_back(a).reverse();
    let whole: Seq<Cell> = back + seq![Cell { placement: Placement::Current, date: a }]
        + cells_forward(a);
    assert forall|i: int| 0 <= i < whole.len() implies whole[i] == grid_cell(a, i) by {
        if i < back.len() {
            let j: int = back.len() - 1 - i;
            lemma_days_before_closed(a, (j + 1) as nat);
            if i < lead {
                lemma_days_before_closed(first_of_month(a), (lead - i) as nat);
            }
        } else if i == back.len() {
        } else {
            let j: int = i - back.len() - 1;
            lemma_days_after_closed(a, (j + 1) as nat);
            if i >= lead + length {
                lemma_days_after_closed(last_of_month(a), (i - lead - length + 1) as nat);
            }
        }
    }
}

/// In the first `k` cells of the grid the leading padding comes first, then
/// the days of the month, then the trailing padding.
proof fn lemma_count_prefix(a: Ymd, k: nat)
    requires
        is_date(a),
        k <= grid_len(a),
    ensures
        count_placed(month_grid(a).take(k as int), Placement::Previous) == if k <= leading(a) {
            k as int
        } else {
            leading(a)
        },
        count_placed(month_grid(a).take(k as int), Placement::Current) == if k <= leading(a) {
            0
        } else if k <= leading(a) + days_in_month(a.year, a.month) {
            k - leading(a)
        } else {
            days_in_month(a.year, a.month)
        },
        count_placed(month_grid(a).take(k as int), Placement::Next) == if k <= leading(a)
            + days_in_month(a.year, a.month) {
            0
        } else {
            k - leading(a) - days_in_month(a.year, a.month)
        },
    decreases k,
{
    lemma_grid_len(a);
    let prefix: Seq<Cell> = month_grid(a).take(k as int);
    if k > 0 {
        lemma_count_prefix(a, (k - 1) as nat);
        assert(prefix.drop_last() =~= month_grid(a).take(k - 1));
    }
}

/// The grid of a month: whole weeks from a Sunday to a Saturday, with every
/// day of the month in it once and less than a week of padding at each end.
pub proof fn lemma_grid_shape(a: Ymd)
    requires
        is_date(a),
    ensures
        month_grid(a).len() == grid_len(a),
        month_grid(a).len() % 7 == 0,
        month_grid(a).len() >= days_in_month(a.year, a.month),
        count_placed(month_grid(a), Placement::Current) == days_in_month(a.year, a.month),
        count_placed(month_grid(a), Placement::Previous) == leading(a),
        count_placed(month_grid(a), Placement::Next) == trailing(a),
        0 <= leading(a) <= 6,
        0 <= trailing(a) <= 6,
        weekday(month_grid(a).first().date) == 0,
        weekday(month_grid(a).last().date) == 6,
{
    lemma_grid_len(a);
    let grid: Seq<Cell> = month_grid(a);
    lemma_count_prefix(a, grid.len());
    assert(grid.take(grid.len() as int) =~= grid);
    lemma_grid_days(a, 0);
    lemma_grid_days(a, grid.len() - 1);
}

/// The grid of a month is made of three runs: the leading padding, then the
/// days of the month from its first to its last, then the trailing padding.
pub proof fn lemma_grid_runs(a: Ymd)
    requires
        is_date(a),
    ensures
        forall|i: int|
            0 <= i < month_grid(a).len() ==> ((#[trigger] month_grid(a)[i]).placement
                == Placement::Previous <==> i < leading(a)),
        forall|i: int|
            0 <= i < month_grid(a).len() ==> ((#[trigger] month_grid(a)[i]).placement
                == Placement::Current <==> leading(a) <= i < leading(a) + days_in_month(
                a.year,
                a.month,
            )),
        forall|i: int|
            0 <= i < month_grid(a).len() ==> ((#[trigger] month_grid(a)[i]).placement
                == Placement::Next <==> leading(a) + days_in_month(a.year, a.month) <= i),
        forall|day: int|
            1 <= day <= days_in_month(a.year, a.month) ==> #[trigger] month_grid(a)[leading(a)
                + day - 1] == (Cell {
                placement: Placement::Current,
                date: Ymd { year: a.year, month: a.month, day },
            }),
{
    lemma_grid_len(a);
}

/// The padding lies in the months next to the shown one: the leading days in
/// the month before, the trailing days in the month after. The other days
/// lie in the shown month.
pub proof fn lemma_grid_months(a: Ymd, i: int)
    requires
        is_date(a),
        0 <= i < month_grid(a).len(),
    ensures
        month_grid(a)[i].placement == Placement::Previous ==> same_month(
            month_grid(a)[i].date,
            months_after(a, -1),
        ),
        month_grid(a)[i].placement == Placement::Current ==> same_month(month_grid(a)[i].date, a),
        month_grid(a)[i].placement == Placement::Next ==> same_month(
            month_grid(a)[i].date,
            months_after(a, 1),
        ),
        same_month(month_grid(a)[i].date, a) <==> month_grid(a)[i].placement
            == Placement::Current,
{
    lemma_grid_len(a);
    lemma_neighbour_months(a);
    let lead: int = leading(a);
    let length: int = days_in_month(a.year, a.month);
    if i < lead {
        lemma_days_before_closed(first_of_month(a), (lead - i) as nat);
    } else if i >= lead + length {
        lemma_days_after_closed(last_of_month(a), (i - lead - length + 1) as nat);
    }
}

/// The grid of a month is a run of days without a gap: each shown day is a
/// date, follows the one before it, and falls on the day of the week of its
/// column.
pub proof fn lemma_grid_run(a: Ymd)
    requires
        is_date(a),
    ensures
        forall|i: int|
            0 <= i < month_grid(a).len() ==> is_date((#[trigger] month_grid(a)[i]).date)
                && weekday(month_grid(a)[i].date) == i % 7,
        forall|i: int|
            0 < i < month_grid(a).len() ==> (#[trigger] month_grid(a)[i]).date == next_day(
                month_grid(a)[i - 1].date,
            ),
{
    let grid: Seq<Cell> = month_grid(a);
    assert forall|i: int| 0 <= i < grid.len() implies is_date((#[trigger] grid[i]).date)
        && weekday(grid[i].date) == i % 7 by {
        lemma_grid_days(a, i);
    }
    assert forall|i: int| 0 < i < grid.len() implies (#[trigger] grid[i]).date == next_day(
        grid[i - 1].date,
    ) by {
        lemma_grid_step(a, i);
    }
}

/// Each shown day follows the one before it.
proof fn lemma_grid_step(a: Ymd, i: int)
    requires
        is_date(a),
        0 < i < grid_len(a),
    ensures
        grid_cell(a, i).date == next_day(grid_cell(a, i - 1).date),
{
    lemma_grid_len(a);
    let lead: int = leading(a);
    let length: int = days_in_month(a.year, a.month);
    if i <= lead {
        lemma_days_before_closed(first_of_month(a), (lead - i + 1) as nat);
        lemma_days_before_closed(first_of_month(a), (lead - i) as nat);
    } else if i < lead + length {
    } else {
        lemma_days_after_closed(last_of_month(a), (i - lead - length + 1) as nat);
        lemma_days_after_closed(last_of_month(a), (i - lead - length) as nat);
    }
}

/// The grid of a month is one: two vectors that both hold the days to show
/// for the month of `anchor` are equal, cell by cell. So whoever builds the
/// grid twice for one anchor gets the same cells twice.
pub proof fn lemma_grid_unique(
    anchor: Ymd,
    first: Vec<CalendarItemDate>,
    second: Vec<CalendarItemDate>,
)
    requires
        first.deep_view() == month_grid(anchor),
        second.deep_view() == month_grid(anchor),
    ensures
        first@ == second@,
{
    assert(first@.len() == first.deep_view().len());
    assert(second@.len() == second.deep_view().len());
    assert forall|i: int| 0 <= i < first@.len() implies first@[i] == second@[i] by {
        assert(first@[i]@ == first.deep_view()[i]);
        assert(second@[i]@ == second.deep_view()[i]);
        lemma_view_injective(first@[i].date(), second@[i].date());
    }
}

/// The grid of a month depends on the month of the anchor only, not on its
/// day.
pub proof fn lemma_grid_of_month(a: Ymd, b: Ymd)
    requires
        a.year == b.year,
        a.month == b.month,
    ensures
        month_grid(a) == month_grid(b),
{
}

/// Turns a vector of cells round.
fn reverse(cells: &mut Vec<CalendarItemDate>)
    ensures
        final(cells)@ == old(cells)@.reverse(),
{
    let ghost before = cells@;
    let n: usize = cells.len();
    let mut i: usize = 0;
    while i < n / 2
        invariant
            n == before.len(),
            cells@.len() == n,
            i <= n / 2,
            forall|j: int| 0 <= j < i ==> cells@[j] == before[n - 1 - j],
            forall|j: int| 0 <= j < i ==> cells@[n - 1 - j] == before[j],
            forall|j: int| i <= j < n - i ==> cells@[j] == before[j],
        decreases n - i,
    {
        let front: CalendarItemDate = cells[i];
        let back: CalendarItemDate = cells[n - 1 - i];
        cells.set(i, back);
        cells.set(n - 1 - i, front);
        i = i + 1;
    }
}

/// Walks back from the anchor day by day: the days of its month first, then,
/// once the month before is reached, the days that fill the week of the first
/// of the month back to its Sunday.
fn walk_back(anchor: CalendarDate) -> (dates: Vec<CalendarItemDate>)
    requires
        has_neighbours(anchor@),
    ensures
        dates.deep_view() == cells_back(anchor@),
{
    proof {
        use_type_invariant(&anchor);
        lemma_grid_len(anchor@);
    }
    let show_month: u32 = anchor.month();
    let mut dates: Vec<CalendarItemDate> = Vec::new();
    let mut current: CalendarDate = anchor;
    let mut weekday_number: Option<u32> = None;
    loop
        invariant
            is_representable(anchor@),
            has_neighbours(anchor@),
            show_month == anchor@.month,
            0 <= leading(anchor@) <= 6,
            dates@.len() <= anchor@.day - 1 + leading(anchor@),
            current@ == days_before(anchor@, dates@.len()),
            forall|j: int| 0 <= j < dates@.len() ==> (#[trigger] dates@[j])@ == back_cell(anchor@, j),
            weekday_number is None ==> dates@.len() <= anchor@.day - 1,
            weekday_number matches Some(number) ==> dates@.len() >= anchor@.day - 1 && number
                == leading(anchor@) - (dates@.len() - (anchor@.day - 1)),
        ensures
            dates@.len() == anchor@.day - 1 + leading(anchor@),
            forall|j: int| 0 <= j < dates@.len() ==> (#[trigger] dates@[j])@ == back_cell(anchor@, j),
        decreases anchor@.day - 1 + leading(anchor@) - dates@.len(),
    {
        proof {
            use_type_invariant(&current);
            reveal_with_fuel(days_before, 2);
            lemma_days_before_closed(anchor@, dates@.len());
            lemma_days_before_closed(anchor@, dates@.len() + 1);
        }
        let date: CalendarDate = sub_days(current, 1);
        if date.month() != show_month {
            if weekday_number.is_none() {
                weekday_number = Some(current.weekday());
            }
            let number: u32 = weekday_number.unwrap();
            if number == 0 {
                break;
            }
            weekday_number = Some(number - 1);
            dates.push(CalendarItemDate::Previous(date));
        } else {
            dates.push(CalendarItemDate::Current(date));
        }
        current = date;
    }
    dates
}

/// Walks forward from the anchor day by day and appends what it finds: the
/// days of its month first, then, once the month after is reached, the days
/// that fill the week of the last of the month up to its Saturday.
fn walk_forward(anchor: CalendarDate, dates: &mut Vec<CalendarItemDate>)
    requires
        has_neighbours(anchor@),
    ensures
        final(dates).deep_view() == old(dates).deep_view() + cells_forward(anchor@),
{
    proof {
        use_type_invariant(&anchor);
        lemma_grid_len(anchor@);
    }
    let ghost before = dates@;
    let ghost before_view = dates.deep_view();
    let show_month: u32 = anchor.month();
    let mut current: CalendarDate = anchor;
    let mut weekday_number: Option<u32> = None;
    loop
        invariant
            is_representable(anchor@),
            has_neighbours(anchor@),
            show_month == anchor@.month,
            0 <= trailing(anchor@) <= 6,
            before.len() <= dates@.len() <= before.len() + days_in_month(
                anchor@.year,
                anchor@.month,
            ) - anchor@.day + trailing(anchor@),
            current@ == days_after(anchor@, (dates@.len() - before.len()) as nat),
            forall|i: int| 0 <= i < before.len() ==> dates@[i] == before[i],
            forall|i: int|
                before.len() <= i < dates@.len() ==> (#[trigger] dates@[i])@ == forward_cell(
                    anchor@,
                    i - before.len(),
                ),
            weekday_number is None ==> anchor@.day + dates@.len() - before.len()
                <= days_in_month(anchor@.year, anchor@.month),
            weekday_number matches Some(number) ==> anchor@.day + dates@.len() - before.len()
                >= days_in_month(anchor@.year, anchor@.month) && number == weekday(
                last_of_month(anchor@),
            ) + (anchor@.day + dates@.len() - before.len() - days_in_month(
                anchor@.year,
                anchor@.month,
            )),
        ensures
            dates@.len() == before.len() + days_in_month(anchor@.year, anchor@.month)
                - anchor@.day + trailing(anchor@),
            forall|i: int| 0 <= i < before.len() ==> dates@[i] == before[i],
            forall|i: int|
                before.len() <= i < dates@.len() ==> (#[trigger] dates@[i])@ == forward_cell(
                    anchor@,
                    i - before.len(),
                ),
        decreases
                before.len() + days_in_month(anchor@.year, anchor@.month) - anchor@.day
                    + trailing(anchor@) - dates@.len(),
    {
        proof {
            use_type_invariant(&current);
            reveal_with_fuel(days_after, 2);
            lemma_days_after_closed(anchor@, (dates@.len() - before.len()) as nat);
            lemma_days_after_closed(anchor@, (dates@.len() - before.len() + 1) as nat);
        }
        let date: CalendarDate = add_days(current, 1);
        if date.month() != show_month {
            if weekday_number.is_none() {
                weekday_number = Some(current.weekday());
            }
            let number: u32 = weekday_number.unwrap();
            if number == 6 {
                break;
            }
            weekday_number = Some(number + 1);
            dates.push(CalendarItemDate::Next(date));
        } else {
            dates.push(CalendarItemDate::Current(date));
        }
        current = date;
    }
}

/// Whether the months before and after the month of `anchor` lie in the
/// years that a date can hold: only then has the month a grid.
pub fn month_has_neighbours(anchor: &CalendarDate) -> (r: bool)
    ensures
        r == has_neighbours(anchor@),
{
    proof {
        use_type_invariant(anchor);
    }
    !(anchor.year() == MIN_YEAR && anchor.month() == 1) && !(anchor.year() == MAX_YEAR
        && anchor.month() == 12)
}

/// The days to show for the month that `anchor` lies in.
///
/// Walks back from the anchor to the Sunday on or before the first of the
/// month, and forward to the Saturday on or after its last day: the days of
/// the month are `Current`, those before it `Previous`, those after it `Next`.
pub fn build_grid(anchor: CalendarDate) -> (dates: Vec<CalendarItemDate>)
    requires
        has_neighbours(anchor@),
    ensures
        dates.deep_view() == month_grid(anchor@),
        dates@.len() == grid_len(anchor@),
        forall|i: int| 0 <= i < dates@.len() ==> (#[trigger] dates@[i])@ == grid_cell(anchor@, i),
        dates@.len() % 7 == 0,
        dates@.len() >= days_in_month(anchor@.year, anchor@.month),
        count_placed(dates.deep_view(), Placement::Current) == days_in_month(
            anchor@.year,
            anchor@.month,
        ),
        count_placed(dates.deep_view(), Placement::Previous) <= 6,
        count_placed(dates.deep_view(), Placement::Next) <= 6,
        weekday(dates@.first()@.date) == 0,
        weekday(dates@.last()@.date) == 6,
{
    proof {
        use_type_invariant(&anchor);
    }
    let mut dates: Vec<CalendarItemDate> = walk_back(anchor);
    let ghost back = dates.deep_view();
    reverse(&mut dates);
    dates.push(CalendarItemDate::Current(anchor));
    assert(dates.deep_view() =~= back.reverse() + seq![
        Cell { placement: Placement::Current, date: anchor@ },
    ]);
    walk_forward(anchor, &mut dates);
    proof {
        lemma_grid_assembly(anchor@);
        lemma_grid_shape(anchor@);
        assert forall|i: int| 0 <= i < dates@.len() implies (#[trigger] dates@[i])@ == grid_cell(
            anchor@,
            i,
        ) by {
            assert(dates.deep_view()[i] == dates@[i]@);
        }
    }
    dates
}

} // verus!
