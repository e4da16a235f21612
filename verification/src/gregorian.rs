//! The proleptic Gregorian calendar as arithmetic on unbounded integers.
//!
//! Everything here is specification and proof: the model that the contracts of
//! the executable types speak of, and the facts about it that their proofs use.

use vstd::prelude::*;

verus! {

/// A day of the calendar as three mathematical integers.
pub struct Ymd {
    pub year: int,
    pub month: int,
    pub day: int,
}

/// The first year that a date may lie in.
pub const MIN_YEAR: i32 = -262143;

/// The last year that a date may lie in.
pub const MAX_YEAR: i32 = 262142;

/// The day number of the first day of `MIN_YEAR`.
pub const MIN_DAY_NUMBER: i32 = -95746129;

/// The day number of the last day of `MAX_YEAR`.
pub const MAX_DAY_NUMBER: i32 = 95745399;

/// The month index of January of `MIN_YEAR`.
pub const MIN_MONTH_INDEX: i32 = -3145716;

/// The month index of December of `MAX_YEAR`.
pub const MAX_MONTH_INDEX: i32 = 3145715;

/// Every fourth year is a leap year, but of the years that end a century
/// only every fourth.
pub open spec fn is_leap_year(year: int) -> bool {
    year % 4 == 0 && (year % 100 != 0 || year % 400 == 0)
}

/// The length of a year in days.
pub open spec fn days_in_year(year: int) -> int {
    if is_leap_year(year) {
        366
    } else {
        365
    }
}

/// The length of a month; 31 for a month number outside 1..=12.
pub open spec fn days_in_month(year: int, month: int) -> int {
    if month == 2 {
        if is_leap_year(year) {
            29
        } else {
            28
        }
    } else if month == 4 || month == 6 || month == 9 || month == 11 {
        30
    } else {
        31
    }
}

/// `d` names a day that exists.
pub open spec fn is_date(d: Ymd) -> bool {
    &&& 1 <= d.month <= 12
    &&& 1 <= d.day <= days_in_month(d.year, d.month)
}

/// `d` exists and lies in the years that a date value can hold.
pub open spec fn is_representable(d: Ymd) -> bool {
    is_date(d) && MIN_YEAR <= d.year <= MAX_YEAR
}

/// How many leap years lie between year 1 and `year`, the latter excluded
/// (negative when `year` is before year 1).
pub open spec fn leap_years_before(year: int) -> int {
    (year - 1) / 4 - (year - 1) / 100 + (year - 1) / 400
}

/// Days from the start of year 1 to the start of `year`.
pub open spec fn days_before_year(year: int) -> int {
    365 * (year - 1) + leap_years_before(year)
}

/// Days from the start of `year` to the start of `month` in it.
pub open spec fn days_before_month(year: int, month: int) -> int {
    let leap: int = if is_leap_year(year) && month > 2 {
        1
    } else {
        0
    };
    let common: int = if month <= 1 {
        0
    } else if month == 2 {
        31
    } else if month == 3 {
        59
    } else if month == 4 {
        90
    } else if month == 5 {
        120
    } else if month == 6 {
        151
    } else if month == 7 {
        181
    } else if month == 8 {
        212
    } else if month == 9 {
        243
    } else if month == 10 {
        273
    } else if month == 11 {
        304
    } else {
        334
    };
    common + leap
}

/// The position of `d` in the run of all days, with 1 for January 1 of year 1.
#[verifier::opaque]
pub open spec fn day_number(d: Ymd) -> int {
    days_before_year(d.year) + days_before_month(d.year, d.month) + d.day
}

/// The day of the week of `d`, from 0 for Sunday to 6 for Saturday.
pub open spec fn weekday(d: Ymd) -> int {
    day_number(d) % 7
}

/// The day that follows `d`.
pub open spec fn next_day(d: Ymd) -> Ymd {
    if d.day < days_in_month(d.year, d.month) {
        Ymd { year: d.year, month: d.month, day: d.day + 1 }
    } else if d.month < 12 {
        Ymd { year: d.year, month: d.month + 1, day: 1 }
    } else {
        Ymd { year: d.year + 1, month: 1, day: 1 }
    }
}

/// The day that `d` follows.
pub open spec fn prev_day(d: Ymd) -> Ymd {
    if d.day > 1 {
        Ymd { year: d.year, month: d.month, day: d.day - 1 }
    } else if d.month > 1 {
        Ymd { year: d.year, month: d.month - 1, day: days_in_month(d.year, d.month - 1) }
    } else {
        Ymd { year: d.year - 1, month: 12, day: 31 }
    }
}

/// The day reached from `d` by `n` steps to the following day.
pub open spec fn days_after(d: Ymd, n: nat) -> Ymd
    decreases n,
{
    if n == 0 {
        d
    } else {
        next_day(days_after(d, (n - 1) as nat))
    }
}

/// The day reached from `d` by `n` steps to the preceding day.
pub open spec fn days_before(d: Ymd, n: nat) -> Ymd
    decreases n,
{
    if n == 0 {
        d
    } else {
        prev_day(days_before(d, (n - 1) as nat))
    }
}

/// The position of a month in the run of all months, with 0 for January of year 0.
pub open spec fn month_index(year: int, month: int) -> int {
    year * 12 + (month - 1)
}

/// The day of `d` moved by `n` months, backwards for a negative `n`. Where the
/// month reached is too short to hold the day of `d`, its last day is taken.
pub open spec fn months_after(d: Ymd, n: int) -> Ymd {
    let index: int = month_index(d.year, d.month) + n;
    let year: int = index / 12;
    let month: int = index % 12 + 1;
    let length: int = days_in_month(year, month);
    Ymd {
        year,
        month,
        day: if d.day <= length {
            d.day
        } else {
            length
        },
    }
}

/// `a` is an earlier day than `b`.
pub open spec fn is_before(a: Ymd, b: Ymd) -> bool {
    a.year < b.year || (a.year == b.year && (a.month < b.month || (a.month == b.month && a.day
        < b.day)))
}

/// Two days lie in the same month of the same year.
pub open spec fn same_month(a: Ymd, b: Ymd) -> bool {
    a.year == b.year && a.month == b.month
}

/// A month starts where the month before it ends.
pub proof fn lemma_days_before_month_step(year: int, month: int)
    requires
        1 <= month < 12,
    ensures
        days_before_month(year, month + 1) == days_before_month(year, month) + days_in_month(
            year,
            month,
        ),
{
}

/// December ends where the year ends.
pub proof fn lemma_days_before_december(year: int)
    ensures
        days_before_month(year, 12) + 31 == days_in_year(year),
{
}

/// A year starts where the year before it ends.
pub proof fn lemma_days_before_year_step(year: int)
    ensures
        days_before_year(year + 1) == days_before_year(year) + days_in_year(year),
{
    lemma_quotient_step_4(year);
    lemma_quotient_step_100(year);
    lemma_quotient_step_400(year);
    lemma_century_divisors(year);
}

proof fn lemma_quotient_step_4(k: int)
    ensures
        k / 4 - (k - 1) / 4 == if k % 4 == 0 {
            1int
        } else {
            0int
        },
{
}

proof fn lemma_quotient_step_100(k: int)
    ensures
        k / 100 - (k - 1) / 100 == if k % 100 == 0 {
            1int
        } else {
            0int
        },
{
}

proof fn lemma_quotient_step_400(k: int)
    ensures
        k / 400 - (k - 1) / 400 == if k % 400 == 0 {
            1int
        } else {
            0int
        },
{
}

proof fn lemma_century_divisors(k: int)
    ensures
        k % 400 == 0 ==> k % 100 == 0,
        k % 100 == 0 ==> k % 4 == 0,
{
}

/// The following day exists and has the following day number.
pub proof fn lemma_next_day(d: Ymd)
    requires
        is_date(d),
    ensures
        is_date(next_day(d)),
        day_number(next_day(d)) == day_number(d) + 1,
        prev_day(next_day(d)) == d,
{
    reveal(day_number);
    if d.day < days_in_month(d.year, d.month) {
    } else if d.month < 12 {
        lemma_days_before_month_step(d.year, d.month);
    } else {
        lemma_days_before_december(d.year);
        lemma_days_before_year_step(d.year);
    }
}

/// The preceding day exists and has the preceding day number.
pub proof fn lemma_prev_day(d: Ymd)
    requires
        is_date(d),
    ensures
        is_date(prev_day(d)),
        day_number(prev_day(d)) == day_number(d) - 1,
        next_day(prev_day(d)) == d,
{
    reveal(day_number);
    if d.day > 1 {
    } else if d.month > 1 {
        lemma_days_before_month_step(d.year, d.month - 1);
    } else {
        lemma_days_before_december(d.year - 1);
        lemma_days_before_year_step(d.year - 1);
    }
}

/// Moving by months reaches a day that exists, in the month that lies as
/// many months on; moving by no month changes nothing.
pub proof fn lemma_months_after(d: Ymd, n: int)
    requires
        is_date(d),
    ensures
        is_date(months_after(d, n)),
        month_index(months_after(d, n).year, months_after(d, n).month) == month_index(
            d.year,
            d.month,
        ) + n,
        months_after(d, n).day <= d.day,
        months_after(d, n).day == d.day || months_after(d, n).day == days_in_month(
            months_after(d, n).year,
            months_after(d, n).month,
        ),
        months_after(d, 0) == d,
{
}

/// One month on and one month back leads to the month of the start. The day
/// is that of the start, unless the month after was too short for it: then
/// it is the length of that month.
pub proof fn lemma_month_round_trip(d: Ymd)
    requires
        is_date(d),
    ensures
        same_month(months_after(months_after(d, 1), -1), d),
        months_after(months_after(d, 1), -1).day == months_after(d, 1).day,
        months_after(months_after(d, 1), -1).day == if d.day <= days_in_month(
            months_after(d, 1).year,
            months_after(d, 1).month,
        ) {
            d.day
        } else {
            days_in_month(months_after(d, 1).year, months_after(d, 1).month)
        },
        same_month(months_after(months_after(d, -1), 1), d),
        months_after(months_after(d, -1), 1).day == months_after(d, -1).day,
{
    lemma_months_after(d, 1);
    lemma_months_after(d, -1);
    lemma_months_after(months_after(d, 1), -1);
    lemma_months_after(months_after(d, -1), 1);
}

/// The month after is the one that the day after the last of the month lies
/// in, and the month before the one that the day before the first lies in.
pub proof fn lemma_neighbour_months(d: Ymd)
    requires
        is_date(d),
    ensures
        same_month(
            months_after(d, 1),
            next_day(Ymd { year: d.year, month: d.month, day: days_in_month(d.year, d.month) }),
        ),
        same_month(months_after(d, -1), prev_day(Ymd { year: d.year, month: d.month, day: 1 })),
{
}

/// Later years start later.
pub proof fn lemma_days_before_year_monotone(earlier: int, later: int)
    requires
        earlier <= later,
    ensures
        days_before_year(earlier) + 365 * (later - earlier) <= days_before_year(later),
    decreases later - earlier,
{
    if earlier < later {
        lemma_days_before_year_monotone(earlier, later - 1);
        lemma_days_before_year_step(later - 1);
    }
}

/// The day number of a date lies within its year.
pub proof fn lemma_day_number_in_year(d: Ymd)
    requires
        is_date(d),
    ensures
        days_before_year(d.year) < day_number(d) <= days_before_year(d.year + 1),
{
    reveal(day_number);
    lemma_days_before_year_step(d.year);
}

/// The dates of the years that a date value can hold are those with a day
/// number from `MIN_DAY_NUMBER` to `MAX_DAY_NUMBER`.
pub proof fn lemma_day_number_bounds(d: Ymd)
    requires
        is_date(d),
    ensures
        d.year >= MIN_YEAR <==> day_number(d) >= MIN_DAY_NUMBER,
        d.year <= MAX_YEAR <==> day_number(d) <= MAX_DAY_NUMBER,
{
    lemma_day_number_in_year(d);
    if d.year >= MIN_YEAR {
        lemma_days_before_year_monotone(MIN_YEAR as int, d.year);
    } else {
        lemma_days_before_year_monotone(d.year + 1, MIN_YEAR as int);
    }
    if d.year <= MAX_YEAR {
        lemma_days_before_year_monotone(d.year + 1, MAX_YEAR + 1);
    } else {
        lemma_days_before_year_monotone(MAX_YEAR + 1, d.year);
    }
}

/// A date is the earlier of two exactly if its day number is the smaller.
pub proof fn lemma_day_number_orders(a: Ymd, b: Ymd)
    requires
        is_date(a),
        is_date(b),
    ensures
        day_number(a) < day_number(b) <==> is_before(a, b),
        day_number(a) == day_number(b) <==> a == b,
{
    lemma_day_number_in_year(a);
    lemma_day_number_in_year(b);
    if a.year < b.year {
        lemma_days_before_year_monotone(a.year + 1, b.year);
    } else if b.year < a.year {
        lemma_days_before_year_monotone(b.year + 1, a.year);
    } else {
        reveal(day_number);
        lemma_days_before_month_monotone(a.year, a.month, b.month);
        lemma_days_before_month_monotone(a.year, b.month, a.month);
    }
}

proof fn lemma_days_before_month_monotone(year: int, earlier: int, later: int)
    requires
        1 <= earlier <= 12,
        1 <= later <= 12,
    ensures
        earlier < later ==> days_before_month(year, earlier) + days_in_month(year, earlier)
            <= days_before_month(year, later),
{
}

/// Walking on by days reaches a date, with a day number as much larger.
pub proof fn lemma_days_after(d: Ymd, n: nat)
    requires
        is_date(d),
    ensures
        is_date(days_after(d, n)),
        day_number(days_after(d, n)) == day_number(d) + n,
    decreases n,
{
    if n > 0 {
        lemma_days_after(d, (n - 1) as nat);
        lemma_next_day(days_after(d, (n - 1) as nat));
    }
}

/// Walking back by days reaches a date, with a day number as much smaller.
pub proof fn lemma_days_before(d: Ymd, n: nat)
    requires
        is_date(d),
    ensures
        is_date(days_before(d, n)),
        day_number(days_before(d, n)) == day_number(d) - n,
    decreases n,
{
    if n > 0 {
        lemma_days_before(d, (n - 1) as nat);
        lemma_prev_day(days_before(d, (n - 1) as nat));
    }
}

} // verus!
