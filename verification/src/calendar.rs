//! Dates of the proleptic Gregorian calendar, as chrono's `NaiveDate` knows
//! them, and the month grid that a calendar page draws: six weeks of seven
//! days, Monday first, that hold the whole month.
use vstd::prelude::*;
use chrono::Datelike;

verus! {

/// The first year that chrono's `NaiveDate` can hold.
pub const MIN_YEAR: i32 = -262143;

/// The last year that chrono's `NaiveDate` can hold.
pub const MAX_YEAR: i32 = 262142;

/// Rows of a month grid: one week each.
pub const GRID_ROWS: usize = 6;

/// Columns of a month grid: Monday to Sunday.
pub const GRID_COLS: usize = 7;

/// A calendar date as plain values: year, month (1 to 12) and day of the month.
#[derive(Clone, Copy, Debug, PartialEq, Eq, Structural)]
pub struct Date {
    pub year: i32,
    pub month: u32,
    pub day: u32,
}

pub open spec fn is_leap_year(y: int) -> bool {
    y % 4 == 0 && (y % 100 != 0 || y % 400 == 0)
}

/// Number of days of month `m` (1 to 12) in year `y`.
pub open spec fn days_in_month(y: int, m: int) -> int {
    if m == 2 {
        if is_leap_year(y) { 29 } else { 28 }
    } else if m == 4 || m == 6 || m == 9 || m == 11 {
        30
    } else {
        31
    }
}

/// Days of year `y` that come before the first of month `m`.
pub open spec fn days_before_month(y: int, m: int) -> int {
    let base: int = if m <= 1 { 0 }
        else if m == 2 { 31 }
        else if m == 3 { 59 }
        else if m == 4 { 90 }
        else if m == 5 { 120 }
        else if m == 6 { 151 }
        else if m == 7 { 181 }
        else if m == 8 { 212 }
        else if m == 9 { 243 }
        else if m == 10 { 273 }
        else if m == 11 { 304 }
        else { 334 };
    if m > 2 && is_leap_year(y) { base + 1 } else { base }
}

/// Days from 0001-01-01 to the first of January of year `y`.
pub open spec fn days_before_year(y: int) -> int {
    365 * (y - 1) + (y - 1) / 4 - (y - 1) / 100 + (y - 1) / 400
}

/// The number of a day: days since 0001-01-01, which was a Monday.
pub open spec fn day_number(y: int, m: int, d: int) -> int {
    days_before_year(y) + days_before_month(y, m) + d - 1
}

/// Day of the week, counted from Monday (0) to Sunday (6).
pub open spec fn weekday_of(y: int, m: int, d: int) -> int {
    day_number(y, m, d) % 7
}

/// The dates that chrono's `NaiveDate` can hold.
pub open spec fn is_valid_ymd(y: int, m: int, d: int) -> bool {
    &&& MIN_YEAR <= y <= MAX_YEAR
    &&& 1 <= m <= 12
    &&& 1 <= d <= days_in_month(y, m)
}

/// The month before month `m` of year `y`, as (year, month).
pub open spec fn prev_month(y: int, m: int) -> (int, int) {
    if m > 1 { (y, m - 1) } else { (y - 1, 12) }
}

/// The month after month `m` of year `y`, as (year, month).
pub open spec fn next_month(y: int, m: int) -> (int, int) {
    if m < 12 { (y, m + 1) } else { (y + 1, 1) }
}

pub open spec fn make_date(y: int, m: int, d: int) -> Date {
    Date { year: y as i32, month: m as u32, day: d as u32 }
}

impl Date {
    pub open spec fn is_valid(self) -> bool {
        is_valid_ymd(self.year as int, self.month as int, self.day as int)
    }

    pub open spec fn number(self) -> int {
        day_number(self.year as int, self.month as int, self.day as int)
    }

    pub open spec fn weekday(self) -> int {
        weekday_of(self.year as int, self.month as int, self.day as int)
    }

    /// The first date that chrono can hold.
    pub open spec fn is_min(self) -> bool {
        self.year == MIN_YEAR && self.month == 1 && self.day == 1
    }

    /// The last date that chrono can hold.
    pub open spec fn is_max(self) -> bool {
        self.year == MAX_YEAR && self.month == 12 && self.day == 31
    }

    /// The day after this one.
    pub open spec fn next(self) -> Date {
        let y: int = self.year as int;
        let m: int = self.month as int;
        if (self.day as int) < days_in_month(y, m) {
            make_date(y, m, self.day + 1)
        } else {
            let (ny, nm) = next_month(y, m);
            make_date(ny, nm, 1)
        }
    }

    /// The day before this one.
    pub open spec fn prev(self) -> Date {
        let y: int = self.year as int;
        let m: int = self.month as int;
        if self.day > 1 {
            make_date(y, m, self.day - 1)
        } else {
            let (py, pm) = prev_month(y, m);
            make_date(py, pm, days_in_month(py, pm))
        }
    }
}

// ---------------------------------------------------------------------------
// Calls into chrono
// ---------------------------------------------------------------------------

/// `chrono::NaiveDate::from_ymd_opt`: the date exists (a month from 1 to 12,
/// a day that the month has, a year in chrono's range) exactly when chrono
/// returns `Some`, and the date returned has the year, month and day asked for.
#[verifier::external_body]
fn chrono_from_ymd(year: i32, month: u32, day: u32) -> (r: Option<Date>)
    ensures
        r == (if is_valid_ymd(year as int, month as int, day as int) {
            Some(Date { year, month, day })
        } else {
            None
        }),
{
    match chrono::NaiveDate::from_ymd_opt(year, month, day) {
        Some(d) => Some(Date { year: d.year(), month: d.month(), day: d.day() }),
        None => None,
    }
}

/// `chrono::Datelike::weekday` followed by `Weekday::num_days_from_monday`:
/// the proleptic Gregorian day of the week, Monday 0 to Sunday 6. The date
/// reaches chrono as the `NaiveDate` that `from_ymd_opt` builds from it, which
/// exists for every date that `requires` admits.
#[verifier::external_body]
fn chrono_weekday(d: Date) -> (r: u32)
    requires
        d.is_valid(),
    ensures
        r as int == d.weekday(),
{
    chrono::NaiveDate::from_ymd_opt(d.year, d.month, d.day).unwrap().weekday().num_days_from_monday()
}

/// `NaiveDate - Duration::days(1)` (the `-=` of a calendar walk): the day
/// before. chrono panics below its first date, which `requires` leaves out.
/// The date reaches chrono as the `NaiveDate` that `from_ymd_opt` builds.
#[verifier::external_body]
fn chrono_pred(d: Date) -> (r: Date)
    requires
        d.is_valid(),
        !d.is_min(),
    ensures
        r == d.prev(),
{
    let n = chrono::NaiveDate::from_ymd_opt(d.year, d.month, d.day).unwrap() - chrono::Duration::days(1);
    Date { year: n.year(), month: n.month(), day: n.day() }
}

/// `NaiveDate + Duration::days(1)` (the `+=` of a calendar walk): the day
/// after. chrono panics past its last date, which `requires` leaves out.
/// The date reaches chrono as the `NaiveDate` that `from_ymd_opt` builds.
#[verifier::external_body]
fn chrono_succ(d: Date) -> (r: Date)
    requires
        d.is_valid(),
        !d.is_max(),
    ensures
        r == d.next(),
{
    let n = chrono::NaiveDate::from_ymd_opt(d.year, d.month, d.day).unwrap() + chrono::Duration::days(1);
    Date { year: n.year(), month: n.month(), day: n.day() }
}

// ---------------------------------------------------------------------------
// Arithmetic of day numbers
// ---------------------------------------------------------------------------

proof fn lemma_div_step(a: int, n: int)
    requires
        n > 0,
    ensures
        a / n - (a - 1) / n == (if a % n == 0 { 1int } else { 0int }),
{
    vstd::arithmetic::div_mod::lemma_fundamental_div_mod(a, n);
    vstd::arithmetic::div_mod::lemma_fundamental_div_mod(a - 1, n);
    vstd::arithmetic::div_mod::lemma_mod_bound(a, n);
    vstd::arithmetic::div_mod::lemma_mod_bound(a - 1, n);
    let q1 = a / n;
    let q2 = (a - 1) / n;
    let r1 = a % n;
    let r2 = (a - 1) % n;
    assert(n * (q1 - q2) == r2 - r1 + 1) by (nonlinear_arith)
        requires
            a == n * q1 + r1,
            a - 1 == n * q2 + r2,
    ;
    if r1 == 0 {
        assert(q1 - q2 == 1) by (nonlinear_arith)
            requires
                n * (q1 - q2) == r2 + 1,
                0 <= r2 < n,
        ;
    } else {
        assert(q1 - q2 == 0) by (nonlinear_arith)
            requires
                n * (q1 - q2) == r2 - r1 + 1,
                0 <= r2 < n,
                0 < r1 < n,
        ;
    }
}

/// A year has 365 days, or 366 when it is a leap year.
pub proof fn lemma_year_length(y: int)
    ensures
        days_before_year(y + 1) == days_before_year(y) + (if is_leap_year(y) { 366int } else { 365int }),
{
    lemma_div_step(y, 4);
    lemma_div_step(y, 100);
    lemma_div_step(y, 400);
    vstd::arithmetic::div_mod::lemma_fundamental_div_mod(y, 400);
    vstd::arithmetic::div_mod::lemma_fundamental_div_mod(y, 100);
    vstd::arithmetic::div_mod::lemma_fundamental_div_mod(y, 4);
    if y % 400 == 0 {
        assert(y % 100 == 0 && y % 4 == 0) by {
            vstd::arithmetic::div_mod::lemma_mod_mod(y, 100, 4);
            vstd::arithmetic::div_mod::lemma_mod_mod(y, 4, 100);
        }
    }
    if y % 100 == 0 {
        assert(y % 4 == 0) by {
            vstd::arithmetic::div_mod::lemma_mod_mod(y, 4, 25);
        }
    }
}

/// The day after a date that chrono can hold, other than its last, is one
/// that it can hold, and its number is one more.
pub proof fn lemma_next_number(d: Date)
    requires
        d.is_valid(),
        !d.is_max(),
    ensures
        d.next().is_valid(),
        d.next().number() == d.number() + 1,
{
    if d.month == 12 && d.day == 31 {
        lemma_year_length(d.year as int);
    }
}

/// The day before a date that chrono can hold, other than its first, is one
/// that it can hold, its number is one less, and the day after it is the date.
pub proof fn lemma_prev_number(d: Date)
    requires
        d.is_valid(),
        !d.is_min(),
    ensures
        d.prev().is_valid(),
        d.prev().number() == d.number() - 1,
        !d.prev().is_max(),
        d.prev().next() == d,
{
    if d.month == 1 && d.day == 1 {
        lemma_year_length(d.year - 1);
    }
}

/// Weekdays follow one another: the day after a date falls on the next
/// weekday, Sunday (6) being followed by Monday (0).
pub proof fn lemma_weekday_next(d: Date)
    requires
        d.is_valid(),
        !d.is_max(),
    ensures
        d.next().weekday() == (d.weekday() + 1) % 7,
{
    lemma_next_number(d);
    vstd::arithmetic::div_mod::lemma_add_mod_noop(d.number(), 1, 7);
    vstd::arithmetic::div_mod::lemma_small_mod(1, 7);
    vstd::arithmetic::div_mod::lemma_mod_bound(d.number(), 7);
}

// ---------------------------------------------------------------------------
// The month grid
// ---------------------------------------------------------------------------

/// How many days of the previous month a grid shows before the first of the
/// month: the weekday of the first, counted from Monday.
pub open spec fn lead_days(y: int, m: int) -> int {
    weekday_of(y, m, 1)
}

/// The date in cell `k` of the grid of month `m` of year `y`, cells counted
/// row by row from the top left: the days before the first that belong to its
/// week, then the days of the month, then the days of the next month.
pub open spec fn grid_date(y: int, m: int, k: int) -> Date {
    let off: int = lead_days(y, m);
    let dim: int = days_in_month(y, m);
    if k < off {
        let (py, pm) = prev_month(y, m);
        make_date(py, pm, days_in_month(py, pm) - off + k + 1)
    } else if k < off + dim {
        make_date(y, m, k - off + 1)
    } else {
        let (ny, nm) = next_month(y, m);
        make_date(ny, nm, k - off - dim + 1)
    }
}

/// The months whose grid chrono can walk: every date of the grid, and the day
/// after its last cell, lie in chrono's range.
pub open spec fn grid_fits(y: int, m: int) -> bool {
    &&& MIN_YEAR <= y <= MAX_YEAR
    &&& 1 <= m <= 12
    &&& !(y == MIN_YEAR && m == 1)
    &&& !(y == MAX_YEAR && m == 12)
}

pub open spec fn grid_len() -> int {
    (GRID_ROWS * GRID_COLS) as int
}

proof fn lemma_lead_days_bound(y: int, m: int)
    ensures
        0 <= lead_days(y, m) < 7,
{
    vstd::arithmetic::div_mod::lemma_mod_bound(day_number(y, m, 1), 7);
}

/// Every cell of a grid, and the day after its last, is a date that chrono
/// can hold, and the cells count days one by one from the grid's first.
pub proof fn lemma_grid_date(y: int, m: int, k: int)
    requires
        grid_fits(y, m),
        0 <= k <= grid_len(),
    ensures
        grid_date(y, m, k).is_valid(),
        grid_date(y, m, k).number() == day_number(y, m, 1) - lead_days(y, m) + k,
{
    lemma_lead_days_bound(y, m);
    let off: int = lead_days(y, m);
    let dim: int = days_in_month(y, m);
    if k < off {
        if m == 1 {
            lemma_year_length(y - 1);
        }
    } else if k >= off + dim {
        if m == 12 {
            lemma_year_length(y);
        }
    }
}

/// Walking a grid: the day after cell `k` is cell `k + 1`.
pub proof fn lemma_grid_next(y: int, m: int, k: int)
    requires
        grid_fits(y, m),
        0 <= k < grid_len(),
    ensures
        !grid_date(y, m, k).is_max(),
        grid_date(y, m, k).next() == grid_date(y, m, k + 1),
{
    lemma_lead_days_bound(y, m);
    lemma_grid_date(y, m, k);
    lemma_grid_date(y, m, k + 1);
}

/// The cells up to the first of the month fall on the weekdays Monday,
/// Tuesday, ... in turn.
proof fn lemma_grid_weekday(y: int, m: int, k: int)
    requires
        grid_fits(y, m),
        0 <= k <= lead_days(y, m),
    ensures
        grid_date(y, m, k).weekday() == k,
{
    lemma_lead_days_bound(y, m);
    lemma_grid_date(y, m, k);
    let n: int = day_number(y, m, 1);
    vstd::arithmetic::div_mod::lemma_fundamental_div_mod(n, 7);
    vstd::arithmetic::div_mod::lemma_mod_multiples_vanish(n / 7, k, 7);
    vstd::arithmetic::div_mod::lemma_small_mod(k as nat, 7);
}

/// A cell belongs to the month exactly when it lies in the run of the
/// month's days, which starts at the column of the first's weekday.
pub proof fn lemma_grid_in_month(y: int, m: int, k: int)
    requires
        grid_fits(y, m),
        0 <= k < grid_len(),
    ensures
        (grid_date(y, m, k).month == m) == (lead_days(y, m) <= k < lead_days(y, m) + days_in_month(y, m)),
        lead_days(y, m) + days_in_month(y, m) <= grid_len(),
{
    lemma_lead_days_bound(y, m);
}

/// Whether chrono can walk the grid of month `month` (1 to 12) of `year`.
pub fn month_grid_fits(year: i32, month: u32) -> (r: bool)
    ensures
        r == grid_fits(year as int, month as int),
{
    MIN_YEAR <= year && year <= MAX_YEAR && 1 <= month && month <= 12
        && !(year == MIN_YEAR && month == 1) && !(year == MAX_YEAR && month == 12)
}

/// The Monday on or before the first of the month: the first date of its grid.
pub fn grid_start(first_day: Date) -> (r: Date)
    requires
        first_day.day == 1,
        grid_fits(first_day.year as int, first_day.month as int),
    ensures
        r == grid_date(first_day.year as int, first_day.month as int, 0),
        r.weekday() == 0,
        r.is_valid(),
{
    let ghost y = first_day.year as int;
    let ghost m = first_day.month as int;
    proof {
        lemma_lead_days_bound(y, m);
    }
    let mut day = first_day;
    let ghost mut k: int = lead_days(y, m);
    assert(day == grid_date(y, m, k));
    proof {
        lemma_grid_weekday(y, m, k);
        lemma_grid_date(y, m, k);
    }
    while chrono_weekday(day) != 0
        invariant
            grid_fits(y, m),
            0 <= k <= lead_days(y, m),
            day == grid_date(y, m, k),
            day.weekday() == k,
            day.is_valid(),
        decreases k,
    {
        proof {
            lemma_grid_date(y, m, k - 1);
            lemma_grid_next(y, m, k - 1);
            lemma_grid_weekday(y, m, k - 1);
            lemma_prev_number(day);
            lemma_next_number(grid_date(y, m, k - 1));
        }
        day = chrono_pred(day);
        proof {
            k = k - 1;
        }
    }
    day
}

/// The dates of the grid of month `month` of year `year`: six weeks, Monday
/// first, that hold the whole month; cell `k` is at row `k / 7`, column `k % 7`.
pub fn grid_dates(year: i32, month: u32) -> (r: Vec<Date>)
    requires
        grid_fits(year as int, month as int),
    ensures
        r.len() == grid_len(),
        forall|k: int| 0 <= k < grid_len() ==> #[trigger] r@[k] == grid_date(year as int, month as int, k),
{
    let ghost y = year as int;
    let ghost m = month as int;
    let first_day = chrono_from_ymd(year, month, 1).unwrap();
    let mut current = grid_start(first_day);
    let mut dates: Vec<Date> = Vec::new();
    for row in 0..GRID_ROWS
        invariant
            grid_fits(y, m),
            year as int == y,
            month as int == m,
            dates.len() == row * GRID_COLS,
            current == grid_date(y, m, dates.len() as int),
            forall|j: int| 0 <= j < dates.len() ==> #[trigger] dates@[j] == grid_date(y, m, j),
    {
        for col in 0..GRID_COLS
            invariant
                grid_fits(y, m),
                dates.len() == row * GRID_COLS + col,
                row < GRID_ROWS,
                current == grid_date(y, m, dates.len() as int),
                forall|j: int| 0 <= j < dates.len() ==> #[trigger] dates@[j] == grid_date(y, m, j),
        {
            proof {
                lemma_grid_date(y, m, dates.len() as int);
                lemma_grid_next(y, m, dates.len() as int);
            }
            dates.push(current);
            current = chrono_succ(current);
        }
    }
    dates
}

/// Day `n` of the month stands in cell `lead_days + n - 1` of its grid, in
/// the column of its weekday (Monday first).
pub proof fn lemma_day_column(y: int, m: int, n: int)
    requires
        grid_fits(y, m),
        1 <= n <= days_in_month(y, m),
    ensures
        0 <= lead_days(y, m) + n - 1 < grid_len(),
        grid_date(y, m, lead_days(y, m) + n - 1) == make_date(y, m, n),
        (lead_days(y, m) + n - 1) % 7 == weekday_of(y, m, n),
{
    lemma_lead_days_bound(y, m);
    let d: int = day_number(y, m, 1);
    vstd::arithmetic::div_mod::lemma_add_mod_noop(d, n - 1, 7);
    vstd::arithmetic::div_mod::lemma_mod_bound(n - 1, 7);
    vstd::arithmetic::div_mod::lemma_add_mod_noop(d % 7, n - 1, 7);
    vstd::arithmetic::div_mod::lemma_mod_mod(d, 7, 1);
}

} // verus!
