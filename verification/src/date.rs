//! A day of the calendar as an immutable value.
//!
//! The value holds a year, a month and a day that name an existing day. What
//! is computed from it by walking the calendar (the day before or after, the
//! month before or after, the day of the week, today's date) is done by the
//! `chrono` crate; the contracts of those calls are stated here and believed.

use std::cmp::Ordering;

use chrono::{Datelike, Days, Local, Month, Months, NaiveDate};
use vstd::prelude::*;
use vstd::std_specs::cmp::PartialOrdSpec;

use crate::gregorian::{
    day_number, days_after, days_before, days_before_month, days_before_year, days_in_month,
    is_before, is_leap_year, is_representable, lemma_day_number_bounds, lemma_day_number_in_year,
    lemma_day_number_orders, lemma_days_after, lemma_days_before, month_index, months_after,
    same_month, weekday, Ymd, MAX_DAY_NUMBER, MAX_MONTH_INDEX, MAX_YEAR, MIN_DAY_NUMBER,
    MIN_MONTH_INDEX, MIN_YEAR,
};

verus! {

/// A day between January 1 of `MIN_YEAR` and December 31 of `MAX_YEAR`.
#[derive(Clone, Copy, Debug, PartialEq, Eq, Ord, Hash, Structural)]
pub struct CalendarDate {
    year: i32,
    month: u32,
    day: u32,
}

/// The reason why no date was made: the three numbers name no day, or a day
/// outside the years that a date can hold.
#[derive(Clone, Copy, Debug, PartialEq, Eq, Structural)]
pub struct InvalidDate {
    pub year: i32,
    pub month: u32,
    pub day: u32,
}

impl View for CalendarDate {
    type V = Ymd;

    closed spec fn view(&self) -> Ymd {
        Ymd { year: self.year as int, month: self.month as int, day: self.day as int }
    }
}

impl DeepView for CalendarDate {
    type V = Ymd;

    open spec fn deep_view(&self) -> Ymd {
        self@
    }
}

/// The English name of the month with the number `month`.
pub open spec fn month_name(month: int) -> Seq<char> {
    if month == 1 {
        "January"@
    } else if month == 2 {
        "February"@
    } else if month == 3 {
        "March"@
    } else if month == 4 {
        "April"@
    } else if month == 5 {
        "May"@
    } else if month == 6 {
        "June"@
    } else if month == 7 {
        "July"@
    } else if month == 8 {
        "August"@
    } else if month == 9 {
        "September"@
    } else if month == 10 {
        "October"@
    } else if month == 11 {
        "November"@
    } else {
        "December"@
    }
}

/// The year of `MIN_YEAR` and every later one, moved by a multiple of 400
/// years, is positive.
const YEAR_SHIFT: i32 = 262400;

/// The leap years before year `1 + YEAR_SHIFT`.
const LEAP_SHIFT: i32 = 63632;

fn leap_year(year: i32) -> (r: bool)
    requires
        MIN_YEAR <= year <= MAX_YEAR,
    ensures
        r == is_leap_year(year as int),
{
    let shifted: i32 = year + YEAR_SHIFT;
    shifted % 4 == 0 && (shifted % 100 != 0 || shifted % 400 == 0)
}

fn month_length(year: i32, month: u32) -> (r: u32)
    requires
        MIN_YEAR <= year <= MAX_YEAR,
    ensures
        r == days_in_month(year as int, month as int),
{
    if month == 2 {
        if leap_year(year) {
            29
        } else {
            28
        }
    } else if month == 4 || month == 6 || month == 9 || month == 11 {
        30
    } else {
        31
    }
}

fn month_start(year: i32, month: u32) -> (r: i32)
    requires
        MIN_YEAR <= year <= MAX_YEAR,
        1 <= month <= 12,
    ensures
        r == days_before_month(year as int, month as int),
{
    let leap: i32 = if month > 2 && leap_year(year) {
        1
    } else {
        0
    };
    let common: i32 = if month == 1 {
        0
    } else if month == 2 {
        31
    } else if month == 3 {
        59
    } else if month == 4 {
        90
    } else if month == 5 {
        120
    } else if month == 6 {
        151
    } else if month == 7 {
        181
    } else if month == 8 {
        212
    } else if month == 9 {
        243
    } else if month == 10 {
        273
    } else if month == 11 {
        304
    } else {
        334
    };
    common + leap
}

fn year_start(year: i32) -> (r: i32)
    requires
        MIN_YEAR <= year <= MAX_YEAR,
    ensures
        r == days_before_year(year as int),
{
    let shifted: i32 = year - 1 + YEAR_SHIFT;
    let leaps: i32 = shifted / 4 - shifted / 100 + shifted / 400 - LEAP_SHIFT;
    365 * (year - 1) + leaps
}

impl CalendarDate {
    /// The invariant of the type: the fields name a day that exists, in a year
    /// that a date can hold.
    #[verifier::type_invariant]
    pub open spec fn wf(&self) -> bool {
        is_representable(self@)
    }

    /// The date of the given year, month and day, if there is such a day.
    pub fn new(year: i32, month: u32, day: u32) -> (r: Result<CalendarDate, InvalidDate>)
        ensures
            r is Ok <==> is_representable(
                (Ymd { year: year as int, month: month as int, day: day as int }),
            ),
            r matches Ok(date) ==> date.wf() && date@ == (Ymd {
                year: year as int,
                month: month as int,
                day: day as int,
            }),
            r matches Err(e) ==> e == (InvalidDate { year, month, day }),
    {
        if year < MIN_YEAR || year > MAX_YEAR || month < 1 || month > 12 || day < 1 {
            return Err(InvalidDate { year, month, day });
        }
        if day > month_length(year, month) {
            return Err(InvalidDate { year, month, day });
        }
        Ok(CalendarDate { year, month, day })
    }

    /// The year.
    pub fn year(&self) -> (r: i32)
        ensures
            r == self@.year,
    {
        self.year
    }

    /// The month, from 1 for January to 12 for December.
    pub fn month(&self) -> (r: u32)
        ensures
            r == self@.month,
    {
        self.month
    }

    /// The day of the month, from 1.
    pub fn day(&self) -> (r: u32)
        ensures
            r == self@.day,
    {
        self.day
    }

    /// Whether `other` lies in the same month of the same year.
    pub fn same_month(&self, other: &CalendarDate) -> (r: bool)
        ensures
            r == same_month(self@, other@),
    {
        self.year == other.year && self.month == other.month
    }

    /// The number of days in the month of this date.
    pub fn days_in_month(&self) -> (r: u32)
        ensures
            r == days_in_month(self@.year, self@.month),
    {
        proof {
            use_type_invariant(self);
        }
        month_length(self.year, self.month)
    }

    /// The position of this date in the run of all days, with 1 for
    /// January 1 of year 1.
    pub fn day_number(&self) -> (r: i32)
        ensures
            r == day_number(self@),
            MIN_DAY_NUMBER <= r <= MAX_DAY_NUMBER,
    {
        proof {
            use_type_invariant(self);
            lemma_day_number_bounds(self@);
            lemma_day_number_in_year(self@);
            reveal(day_number);
        }
        year_start(self.year) + month_start(self.year, self.month) + self.day as i32
    }

    /// The position of the month of this date in the run of all months, with
    /// 0 for January of year 0.
    pub fn month_index(&self) -> (r: i32)
        ensures
            r == month_index(self@.year, self@.month),
            MIN_MONTH_INDEX <= r <= MAX_MONTH_INDEX,
    {
        proof {
            use_type_invariant(self);
        }
        self.year * 12 + (self.month as i32 - 1)
    }

    /// The date `n` days after this one; `None` where that day lies past the
    /// last year that a date can hold.
    pub fn checked_add_days(&self, n: u64) -> (r: Option<CalendarDate>)
        ensures
            r is Some <==> days_after(self@, n as nat).year <= MAX_YEAR,
            r is Some <==> day_number(self@) + n <= MAX_DAY_NUMBER,
            r matches Some(date) ==> date@ == days_after(self@, n as nat),
            r matches Some(date) ==> day_number(date@) == day_number(self@) + n,
    {
        proof {
            use_type_invariant(self);
            lemma_days_after(self@, n as nat);
            lemma_day_number_bounds(days_after(self@, n as nat));
        }
        let room: i32 = MAX_DAY_NUMBER - self.day_number();
        if n <= room as u64 {
            Some(add_days(*self, n))
        } else {
            None
        }
    }

    /// The date `n` days before this one; `None` where that day lies before
    /// the first year that a date can hold.
    pub fn checked_sub_days(&self, n: u64) -> (r: Option<CalendarDate>)
        ensures
            r is Some <==> days_before(self@, n as nat).year >= MIN_YEAR,
            r is Some <==> day_number(self@) - n >= MIN_DAY_NUMBER,
            r matches Some(date) ==> date@ == days_before(self@, n as nat),
            r matches Some(date) ==> day_number(date@) == day_number(self@) - n,
    {
        proof {
            use_type_invariant(self);
            lemma_days_before(self@, n as nat);
            lemma_day_number_bounds(days_before(self@, n as nat));
        }
        let room: i32 = self.day_number() - MIN_DAY_NUMBER;
        if n <= room as u64 {
            Some(sub_days(*self, n))
        } else {
            None
        }
    }

    /// The same day `n` months later, or the last day of that month where it
    /// is shorter; `None` where that month lies past the last year that a
    /// date can hold.
    pub fn checked_add_months(&self, n: u32) -> (r: Option<CalendarDate>)
        ensures
            r is Some <==> months_after(self@, n as int).year <= MAX_YEAR,
            r matches Some(date) ==> date@ == months_after(self@, n as int),
    {
        proof {
            use_type_invariant(self);
        }
        let room: i32 = MAX_MONTH_INDEX - self.month_index();
        if n <= room as u32 {
            Some(add_months(*self, n))
        } else {
            None
        }
    }

    /// The same day `n` months earlier, or the last day of that month where
    /// it is shorter; `None` where that month lies before the first year that
    /// a date can hold.
    pub fn checked_sub_months(&self, n: u32) -> (r: Option<CalendarDate>)
        ensures
            r is Some <==> months_after(self@, -(n as int)).year >= MIN_YEAR,
            r matches Some(date) ==> date@ == months_after(self@, -(n as int)),
    {
        proof {
            use_type_invariant(self);
        }
        let room: i32 = self.month_index() - MIN_MONTH_INDEX;
        if n <= room as u32 {
            Some(sub_months(*self, n))
        } else {
            None
        }
    }

    /// The English name of the month of this date.
    pub fn month_name(&self) -> (r: &'static str)
        ensures
            r@ == month_name(self@.month),
    {
        proof {
            use_type_invariant(self);
        }
        name_of_month(self.month as u8)
    }

    /// The day of the week, from 0 for Sunday to 6 for Saturday.
    pub fn weekday(&self) -> (r: u32)
        ensures
            r == weekday(self@),
            r <= 6,
    {
        proof {
            use_type_invariant(self);
        }
        weekday_from_sunday(*self)
    }
}

impl PartialOrd for CalendarDate {
    /// Earlier dates come first.
    fn partial_cmp(&self, other: &CalendarDate) -> (r: Option<Ordering>) {
        if self.year < other.year {
            Some(Ordering::Less)
        } else if self.year > other.year {
            Some(Ordering::Greater)
        } else if self.month < other.month {
            Some(Ordering::Less)
        } else if self.month > other.month {
            Some(Ordering::Greater)
        } else if self.day < other.day {
            Some(Ordering::Less)
        } else if self.day > other.day {
            Some(Ordering::Greater)
        } else {
            Some(Ordering::Equal)
        }
    }
}

impl vstd::std_specs::cmp::PartialOrdSpecImpl for CalendarDate {
    open spec fn obeys_partial_cmp_spec() -> bool {
        true
    }

    open spec fn partial_cmp_spec(&self, other: &CalendarDate) -> Option<Ordering> {
        if is_before(self@, other@) {
            Some(Ordering::Less)
        } else if is_before(other@, self@) {
            Some(Ordering::Greater)
        } else {
            Some(Ordering::Equal)
        }
    }
}

/// The order of dates is that of time: a date comes before another exactly
/// if its day number is the smaller, and two dates are one exactly if their
/// day numbers are equal.
pub proof fn lemma_order_is_time(a: CalendarDate, b: CalendarDate)
    requires
        a.wf(),
        b.wf(),
    ensures
        a.partial_cmp_spec(&b) == Some(Ordering::Less) <==> day_number(a@) < day_number(b@),
        a.partial_cmp_spec(&b) == Some(Ordering::Equal) <==> day_number(a@) == day_number(b@),
        a.partial_cmp_spec(&b) == Some(Ordering::Greater) <==> day_number(a@) > day_number(b@),
        a == b <==> day_number(a@) == day_number(b@),
{
    lemma_day_number_orders(a@, b@);
    lemma_day_number_orders(b@, a@);
    lemma_view_injective(a, b);
}

/// Two dates with the same view are the same date.
pub proof fn lemma_view_injective(a: CalendarDate, b: CalendarDate)
    ensures
        a@ == b@ <==> a == b,
{
}

/// `NaiveDate + Days` of chrono, on the fields of a date: the date that lies
/// `n` days after `date`. chrono panics where that day is past its last year,
/// so such a call is left out.
#[verifier::external_body]
pub(crate) fn add_days(date: CalendarDate, n: u64) -> (r: CalendarDate)
    requires
        date.wf(),
        days_after(date@, n as nat).year <= MAX_YEAR,
    ensures
        r.wf(),
        r@ == days_after(date@, n as nat),
{
    let d = NaiveDate::from_ymd_opt(date.year, date.month, date.day).unwrap() + Days::new(n);
    CalendarDate { year: d.year(), month: d.month(), day: d.day() }
}

/// `NaiveDate - Days` of chrono, on the fields of a date: the date that lies
/// `n` days before `date`. chrono panics where that day is before its first
/// year, so such a call is left out.
#[verifier::external_body]
pub(crate) fn sub_days(date: CalendarDate, n: u64) -> (r: CalendarDate)
    requires
        date.wf(),
        days_before(date@, n as nat).year >= MIN_YEAR,
    ensures
        r.wf(),
        r@ == days_before(date@, n as nat),
{
    let d = NaiveDate::from_ymd_opt(date.year, date.month, date.day).unwrap() - Days::new(n);
    CalendarDate { year: d.year(), month: d.month(), day: d.day() }
}

/// `NaiveDate + Months` of chrono, on the fields of a date: the same day `n`
/// months later, or the last day of that month where it is shorter. chrono
/// panics where that month is past its last year, so such a call is left out.
#[verifier::external_body]
pub(crate) fn add_months(date: CalendarDate, n: u32) -> (r: CalendarDate)
    requires
        date.wf(),
        months_after(date@, n as int).year <= MAX_YEAR,
    ensures
        r.wf(),
        r@ == months_after(date@, n as int),
{
    let d = NaiveDate::from_ymd_opt(date.year, date.month, date.day).unwrap() + Months::new(n);
    CalendarDate { year: d.year(), month: d.month(), day: d.day() }
}

/// `NaiveDate - Months` of chrono, on the fields of a date: the same day `n`
/// months earlier, or the last day of that month where it is shorter. chrono
/// panics where that month is before its first year, so such a call is left
/// out.
#[verifier::external_body]
pub(crate) fn sub_months(date: CalendarDate, n: u32) -> (r: CalendarDate)
    requires
        date.wf(),
        months_after(date@, -(n as int)).year >= MIN_YEAR,
    ensures
        r.wf(),
        r@ == months_after(date@, -(n as int)),
{
    let d = NaiveDate::from_ymd_opt(date.year, date.month, date.day).unwrap() - Months::new(n);
    CalendarDate { year: d.year(), month: d.month(), day: d.day() }
}

/// `Datelike::weekday` of chrono on the fields of a date, counted by
/// `Weekday::num_days_from_sunday`: Sunday is 0 and Saturday is 6, and
/// January 1 of year 1 is a Monday.
#[verifier::external_body]
fn weekday_from_sunday(date: CalendarDate) -> (r: u32)
    requires
        date.wf(),
    ensures
        r == weekday(date@),
        r <= 6,
{
    NaiveDate::from_ymd_opt(date.year, date.month, date.day).unwrap().weekday()
        .num_days_from_sunday()
}

/// `Month::name` of chrono, on the month that `Month::try_from` makes of a
/// number from 1 to 12: its English name, from "January" to "December".
/// For another number there is no month, so such a call is left out.
#[verifier::external_body]
fn name_of_month(month: u8) -> (r: &'static str)
    requires
        1 <= month <= 12,
    ensures
        r@ == month_name(month as int),
{
    Month::try_from(month).unwrap().name()
}

/// `Local::now().date_naive()` of chrono: the date that the clock of the host
/// shows in its time zone. Which date that is nothing here can say: only that
/// it is a date. chrono panics where the clock shows a time before 1970 or
/// past the years that it can hold; no argument can leave that out.
#[verifier::external_body]
pub(crate) fn now_date() -> (r: CalendarDate)
    ensures
        r.wf(),
{
    let d = Local::now().date_naive();
    CalendarDate { year: d.year(), month: d.month(), day: d.day() }
}

} // verus!
