use vstd::prelude::*;

verus! {

/// The first year of the day count: day 0 is 1 January 1970.
pub open spec fn epoch_year() -> int {
    1970
}

/// Whether `year` is a leap year of the Gregorian calendar.
pub open spec fn is_leap_year(year: int) -> bool {
    year % 4 == 0 && (year % 100 != 0 || year % 400 == 0)
}

/// Number of days of `month` in `year`: 31 for January, March, May, July,
/// August, October and December, 28 or 29 for February, and 30 for every other
/// number (April, June, September, November, and anything out of range).
pub open spec fn days_in_month(month: int, year: int) -> int {
    if month == 1 || month == 3 || month == 5 || month == 7 || month == 8 || month == 10
        || month == 12 {
        31
    } else if month == 2 {
        if is_leap_year(year) { 29 } else { 28 }
    } else {
        30
    }
}

/// Number of days of `year`.
pub open spec fn days_in_year(year: int) -> int {
    if is_leap_year(year) { 366 } else { 365 }
}

/// Number of days from 1 January 1970 to 1 January of `year` (for `year >= 1970`).
pub open spec fn days_before_year(year: int) -> int
    decreases year - epoch_year(),
{
    if year <= epoch_year() {
        0
    } else {
        days_before_year(year - 1) + days_in_year(year - 1)
    }
}

/// Number of days from 1 January of `year` to the first day of `month`.
pub open spec fn days_before_month(month: int, year: int) -> int
    decreases month,
{
    if month <= 1 {
        0
    } else {
        days_before_month(month - 1, year) + days_in_month(month - 1, year)
    }
}

/// `(year, month, day)` is the calendar date that lies `total_days` days after
/// 1 January 1970.
pub open spec fn is_date_of_day(total_days: int, year: int, month: int, day: int) -> bool {
    &&& year >= epoch_year()
    &&& 1 <= month <= 12
    &&& 1 <= day <= days_in_month(month, year)
    &&& days_before_year(year) + days_before_month(month, year) + day - 1 == total_days
}

/// Day of the week of the day `total_days` after 1 January 1970, a Thursday:
/// 0 is Monday, 6 is Sunday.
pub open spec fn weekday_of_day(total_days: int) -> int {
    (total_days + 3) % 7
}

/// The twelve months of a year add up to the length of the year.
pub proof fn lemma_months_fill_year(year: int)
    ensures
        days_before_month(13, year) == days_in_year(year),
{
    reveal_with_fuel(days_before_month, 13);
}

/// Each month starts after the months before it and ends within the year.
pub proof fn lemma_days_before_month_bounds(month: int, year: int)
    requires
        1 <= month <= 12,
    ensures
        days_before_month(month, year) + days_in_month(month, year) == days_before_month(
            month + 1,
            year,
        ),
        days_before_month(month + 1, year) <= days_in_year(year),
        days_before_month(month, year) >= 0,
    decreases 13 - month,
{
    lemma_days_before_month_nonneg(month, year);
    if month < 12 {
        lemma_days_before_month_bounds(month + 1, year);
    } else {
        lemma_months_fill_year(year);
    }
}

/// No month starts before the year does.
pub proof fn lemma_days_before_month_nonneg(month: int, year: int)
    ensures
        days_before_month(month, year) >= 0,
    decreases month,
{
    if month > 1 {
        lemma_days_before_month_nonneg(month - 1, year);
    }
}

/// Each year holds at least 365 days.
pub proof fn lemma_days_before_year_lower(year: int)
    requires
        year >= epoch_year(),
    ensures
        days_before_year(year) >= 365 * (year - epoch_year()),
    decreases year - epoch_year(),
{
    if year > epoch_year() {
        lemma_days_before_year_lower(year - 1);
    }
}

/// Later years start later.
pub proof fn lemma_days_before_year_monotone(y1: int, y2: int)
    requires
        epoch_year() <= y1 <= y2,
    ensures
        days_before_year(y1) + (y2 - y1) * 365 <= days_before_year(y2),
    decreases y2 - y1,
{
    if y1 < y2 {
        lemma_days_before_year_monotone(y1, y2 - 1);
    }
}

/// Later months of one year start later.
pub proof fn lemma_days_before_month_monotone(m1: int, m2: int, year: int)
    requires
        1 <= m1 <= m2 <= 13,
    ensures
        days_before_month(m1, year) + (m2 - m1) * 28 <= days_before_month(m2, year),
    decreases m2 - m1,
{
    if m1 < m2 {
        lemma_days_before_month_monotone(m1, m2 - 1, year);
    }
}

/// A day count has at most one calendar date.
pub proof fn lemma_date_of_day_unique(
    total_days: int,
    y1: int,
    m1: int,
    d1: int,
    y2: int,
    m2: int,
    d2: int,
)
    requires
        is_date_of_day(total_days, y1, m1, d1),
        is_date_of_day(total_days, y2, m2, d2),
    ensures
        y1 == y2 && m1 == m2 && d1 == d2,
{
    // Position of a date within its year, and its bound.
    lemma_days_before_month_bounds(m1, y1);
    lemma_days_before_month_bounds(m2, y2);
    if y1 < y2 {
        lemma_days_before_year_monotone(y1 + 1, y2);
        assert(days_before_year(y1 + 1) == days_before_year(y1) + days_in_year(y1));
        assert(false);
    } else if y2 < y1 {
        lemma_days_before_year_monotone(y2 + 1, y1);
        assert(days_before_year(y2 + 1) == days_before_year(y2) + days_in_year(y2));
        assert(false);
    } else {
        if m1 < m2 {
            lemma_days_before_month_monotone(m1 + 1, m2, y1);
            assert(false);
        } else if m2 < m1 {
            lemma_days_before_month_monotone(m2 + 1, m1, y1);
            assert(false);
        }
    }
}

/// The calendar date `(year, month, day)` of the day `total_days` after
/// 1 January 1970.
pub open spec fn date_of_day(total_days: int) -> (int, int, int) {
    choose|y: int, m: int, d: int| #[trigger] is_date_of_day(total_days, y, m, d)
}

/// Every day from 1 January 1970 on has a calendar date.
pub proof fn lemma_date_of_day_exists(total_days: int)
    requires
        total_days >= 0,
    ensures
        exists|y: int, m: int, d: int| #[trigger] is_date_of_day(total_days, y, m, d),
    decreases total_days,
{
    if total_days == 0 {
        assert(is_date_of_day(0, epoch_year(), 1, 1));
    } else {
        lemma_date_of_day_exists(total_days - 1);
        let (y, m, d) = choose|y: int, m: int, d: int| #[trigger] is_date_of_day(total_days - 1, y, m, d);
        lemma_days_before_month_bounds(m, y);
        if d < days_in_month(m, y) {
            assert(is_date_of_day(total_days, y, m, d + 1));
        } else if m < 12 {
            assert(is_date_of_day(total_days, y, m + 1, 1));
        } else {
            lemma_months_fill_year(y);
            assert(days_before_year(y + 1) == days_before_year(y) + days_in_year(y));
            assert(is_date_of_day(total_days, y + 1, 1, 1));
        }
    }
}

/// `date_of_day` names the one calendar date of a day count.
pub proof fn lemma_date_of_day(total_days: int, year: int, month: int, day: int)
    requires
        is_date_of_day(total_days, year, month, day),
    ensures
        date_of_day(total_days) == (year, month, day),
{
    let (y, m, d) = date_of_day(total_days);
    lemma_date_of_day_unique(total_days, y, m, d, year, month, day);
}

/// Number of leap years before `year`, counted from year 1 on.
pub open spec fn leap_years_before(year: int) -> int {
    (year - 1) / 4 - (year - 1) / 100 + (year - 1) / 400
}

/// A year is a leap year exactly when the count of leap years grows by one
/// after it.
proof fn lemma_leap_years_step(year: int)
    requires
        year >= epoch_year(),
    ensures
        leap_years_before(year + 1) == leap_years_before(year) + (if is_leap_year(year) {
            1int
        } else {
            0int
        }),
{
    assert(year / 4 - (year - 1) / 4 == if year % 4 == 0 { 1int } else { 0int });
    assert(year / 100 - (year - 1) / 100 == if year % 100 == 0 { 1int } else { 0int });
    assert(year / 400 - (year - 1) / 400 == if year % 400 == 0 { 1int } else { 0int });
}

/// Days before a year: 365 for each year since 1970, plus one for each leap
/// year among them.
pub proof fn lemma_days_before_year_count(year: int)
    requires
        year >= epoch_year(),
    ensures
        days_before_year(year) == 365 * (year - epoch_year()) + leap_years_before(year)
            - leap_years_before(epoch_year()),
    decreases year - epoch_year(),
{
    if year > epoch_year() {
        lemma_days_before_year_count(year - 1);
        lemma_leap_years_step(year - 1);
    }
}

/// Four hundred years hold 146097 days, whichever year they start at.
pub proof fn lemma_days_before_year_period(year: int)
    requires
        year >= epoch_year(),
    ensures
        days_before_year(year + 400) == days_before_year(year) + 146097,
{
    lemma_days_before_year_count(year);
    lemma_days_before_year_count(year + 400);
    assert((year + 399) / 4 == (year - 1) / 4 + 100);
    assert((year + 399) / 100 == (year - 1) / 100 + 4);
    assert((year + 399) / 400 == (year - 1) / 400 + 1);
}

/// Months of a year and of the year four hundred years later have the same
/// lengths.
pub proof fn lemma_days_before_month_period(month: int, year: int)
    ensures
        days_before_month(month, year + 400) == days_before_month(month, year),
    decreases month,
{
    assert(is_leap_year(year + 400) == is_leap_year(year));
    if month > 1 {
        lemma_days_before_month_period(month - 1, year);
    }
}

/// The calendar repeats after 146097 days (400 years): the date then is the
/// same day of the same month, 400 years later.
pub proof fn lemma_date_of_day_period(total_days: int)
    requires
        total_days >= 0,
    ensures
        date_of_day(total_days + 146097) == (
            date_of_day(total_days).0 + 400,
            date_of_day(total_days).1,
            date_of_day(total_days).2,
        ),
        weekday_of_day(total_days + 146097) == weekday_of_day(total_days),
{
    lemma_date_of_day_exists(total_days);
    let (y, m, d) = choose|y: int, m: int, d: int| #[trigger] is_date_of_day(total_days, y, m, d);
    lemma_date_of_day(total_days, y, m, d);
    lemma_days_before_year_period(y);
    lemma_days_before_month_period(m, y);
    assert(is_leap_year(y + 400) == is_leap_year(y));
    assert(is_date_of_day(total_days + 146097, y + 400, m, d));
    lemma_date_of_day(total_days + 146097, y + 400, m, d);
}

} // verus!
