use calendar_pdf::calendar::{grid_dates, grid_start, Date, MAX_YEAR, MIN_YEAR};
use chrono::{Datelike, NaiveDate, Weekday};

fn date(year: i32, month: u32, day: u32) -> Date {
    Date { year, month, day }
}

fn is_leap(y: i64) -> bool {
    y.rem_euclid(4) == 0 && (y.rem_euclid(100) != 0 || y.rem_euclid(400) == 0)
}

fn days_in_month(y: i64, m: u32) -> i64 {
    match m {
        2 => if is_leap(y) { 29 } else { 28 },
        4 | 6 | 9 | 11 => 30,
        _ => 31,
    }
}

/// The day count that the library's contracts use for weekdays.
fn day_number(y: i64, m: u32, d: u32) -> i64 {
    let before: [i64; 12] = [0, 31, 59, 90, 120, 151, 181, 212, 243, 273, 304, 334];
    let leap_extra: i64 = if m > 2 && is_leap(y) { 1 } else { 0 };
    365 * (y - 1) + (y - 1).div_euclid(4) - (y - 1).div_euclid(100) + (y - 1).div_euclid(400)
        + before[(m - 1) as usize] + leap_extra + d as i64 - 1
}

#[test]
fn weekday_formula_matches_chrono() {
    let years: Vec<i32> = (1890..2110).chain([-4, -1, 0, 1, 2, 1600, 2400, MIN_YEAR, MAX_YEAR].into_iter()).collect();
    for y in years {
        for m in 1..=12u32 {
            for d in [1u32, 2, 15, 28] {
                let n = NaiveDate::from_ymd_opt(y, m, d).unwrap();
                assert_eq!(
                    day_number(y as i64, m, d).rem_euclid(7) as u32,
                    n.weekday().num_days_from_monday(),
                    "{y}-{m}-{d}"
                );
            }
        }
    }
}

#[test]
fn chrono_range_matches_contract() {
    assert!(NaiveDate::from_ymd_opt(MIN_YEAR, 1, 1).is_some());
    assert!(NaiveDate::from_ymd_opt(MIN_YEAR - 1, 12, 31).is_none());
    assert!(NaiveDate::from_ymd_opt(MAX_YEAR, 12, 31).is_some());
    assert!(NaiveDate::from_ymd_opt(MAX_YEAR + 1, 1, 1).is_none());
    for y in [1900i64, 2000, 2023, 2024, -100, -400] {
        for m in 1..=12u32 {
            let dim = days_in_month(y, m) as u32;
            assert!(NaiveDate::from_ymd_opt(y as i32, m, dim).is_some());
            assert!(NaiveDate::from_ymd_opt(y as i32, m, dim + 1).is_none());
        }
    }
}

#[test]
fn grid_start_of_thursday_month() {
    // 2026-01-01 is a Thursday: the grid starts on Monday 2025-12-29.
    assert_eq!(grid_start(date(2026, 1, 1)), date(2025, 12, 29));
}

#[test]
fn grid_start_of_monday_month() {
    // 2026-06-01 is a Monday: the grid starts on the first itself.
    assert_eq!(grid_start(date(2026, 6, 1)), date(2026, 6, 1));
}

#[test]
fn grid_of_february_2026() {
    // 2026-02-01 is a Sunday: six days of January come first.
    let cells = grid_dates(2026, 2);
    assert_eq!(cells.len(), 42);
    assert_eq!(cells[0], date(2026, 1, 26));
    assert_eq!(cells[5], date(2026, 1, 31));
    assert_eq!(cells[6], date(2026, 2, 1));
    assert_eq!(cells[33], date(2026, 2, 28));
    assert_eq!(cells[34], date(2026, 3, 1));
    assert_eq!(cells[41], date(2026, 3, 8));
}

#[test]
fn grid_of_leap_february() {
    // 2024-02-01 is a Thursday; 2024 is a leap year.
    let cells = grid_dates(2024, 2);
    assert_eq!(cells[0], date(2024, 1, 29));
    assert_eq!(cells[3], date(2024, 2, 1));
    assert_eq!(cells[31], date(2024, 2, 29));
    assert_eq!(cells[32], date(2024, 3, 1));
}

#[test]
fn grid_across_new_year() {
    // 2025-12-01 is a Monday.
    let cells = grid_dates(2025, 12);
    assert_eq!(cells[0], date(2025, 12, 1));
    assert_eq!(cells[30], date(2025, 12, 31));
    assert_eq!(cells[31], date(2026, 1, 1));
    assert_eq!(cells[41], date(2026, 1, 11));
}

#[test]
fn grids_agree_with_chrono() {
    for y in [1899, 1900, 2000, 2025, 2026, 2100] {
        for m in 1..=12u32 {
            let cells = grid_dates(y, m);
            let first = NaiveDate::from_ymd_opt(y, m, 1).unwrap();
            let lead = first.weekday().num_days_from_monday() as i64;
            for (k, cell) in cells.iter().enumerate() {
                let expected = first + chrono::Duration::days(k as i64 - lead);
                assert_eq!(*cell, date(expected.year(), expected.month(), expected.day()));
                assert_eq!(expected.weekday().num_days_from_monday() as usize, k % 7);
            }
            assert_eq!(
                NaiveDate::from_ymd_opt(cells[0].year, cells[0].month, cells[0].day).unwrap().weekday(),
                Weekday::Mon
            );
        }
    }
}

#[test]
fn grids_at_the_edges_of_chrono_range() {
    let cells = grid_dates(MIN_YEAR, 2);
    assert_eq!(cells[0].year, MIN_YEAR);
    let cells = grid_dates(MAX_YEAR, 11);
    assert_eq!(cells[41].month, 12);
    let cells = grid_dates(MIN_YEAR + 1, 1);
    assert_eq!(cells[0].year, MIN_YEAR);
}

#[test]
fn every_day_of_month_once_in_its_weekday_column() {
    for m in 1..=12u32 {
        let cells = grid_dates(2026, m);
        let days: Vec<(usize, u32)> = cells
            .iter()
            .enumerate()
            .filter(|(_, c)| c.month == m)
            .map(|(k, c)| (k, c.day))
            .collect();
        let dim = days_in_month(2026, m) as u32;
        assert_eq!(days.len() as u32, dim);
        for (i, (k, d)) in days.iter().enumerate() {
            assert_eq!(*d, i as u32 + 1);
            let wd = NaiveDate::from_ymd_opt(2026, m, *d).unwrap().weekday().num_days_from_monday();
            assert_eq!(k % 7, wd as usize);
        }
    }
}
