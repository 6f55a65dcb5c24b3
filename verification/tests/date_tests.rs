use calgrid::date::{days_in_month, iso_week, weekday, Date};
use chrono::Datelike;

fn d(year: i32, month: u32, day: u32) -> Date {
    Date { year, month, day }
}

#[test]
fn month_lengths() {
    assert_eq!(days_in_month(2024, 2), 29);
    assert_eq!(days_in_month(2023, 2), 28);
    assert_eq!(days_in_month(2000, 2), 29);
    assert_eq!(days_in_month(1900, 2), 28);
    assert_eq!(days_in_month(2024, 1), 31);
    assert_eq!(days_in_month(2024, 4), 30);
    assert_eq!(days_in_month(2024, 6), 30);
    assert_eq!(days_in_month(2024, 9), 30);
    assert_eq!(days_in_month(2024, 11), 30);
    assert_eq!(days_in_month(2024, 12), 31);
}

#[test]
fn known_weekdays() {
    // Monday = 0 .. Sunday = 6
    assert_eq!(weekday(&d(1, 1, 1)), 0);
    assert_eq!(weekday(&d(1970, 1, 1)), 3);
    assert_eq!(weekday(&d(2000, 1, 1)), 5);
    assert_eq!(weekday(&d(2024, 3, 15)), 4);
    assert_eq!(weekday(&d(2021, 2, 1)), 0);
    assert_eq!(weekday(&d(2023, 1, 1)), 6);
}

#[test]
fn weekday_matches_chrono() {
    for year in 1999..2031 {
        for month in 1..13u32 {
            for day in [1u32, 2, 14, 15, 27, 28] {
                let c = chrono::NaiveDate::from_ymd_opt(year, month, day).unwrap();
                assert_eq!(
                    weekday(&d(year, month, day)),
                    c.weekday().num_days_from_monday(),
                    "weekday of {year}-{month}-{day}"
                );
            }
        }
    }
}

#[test]
fn weekday_matches_chrono_every_day_of_leap_year() {
    let mut c = chrono::NaiveDate::from_ymd_opt(2024, 1, 1).unwrap();
    while c.year() == 2024 {
        assert_eq!(
            weekday(&d(c.year(), c.month(), c.day())),
            c.weekday().num_days_from_monday()
        );
        c = c.succ_opt().unwrap();
    }
}

#[test]
fn iso_week_matches_chrono() {
    for year in 1999..2031 {
        for month in 1..13u32 {
            for day in [1u32, 2, 3, 4, 15, 28] {
                let c = chrono::NaiveDate::from_ymd_opt(year, month, day).unwrap();
                assert_eq!(
                    iso_week(&d(year, month, day)),
                    c.iso_week().week(),
                    "ISO week of {year}-{month}-{day}"
                );
            }
        }
    }
}

#[test]
fn iso_week_year_boundaries() {
    // the first days of January can belong to the previous year's last week
    assert_eq!(iso_week(&d(2021, 1, 1)), 53);
    assert_eq!(iso_week(&d(2016, 1, 1)), 53);
    assert_eq!(iso_week(&d(2021, 1, 4)), 1);
    // the last days of December can belong to week 1 of the next year
    assert_eq!(iso_week(&d(2019, 12, 30)), 1);
    assert_eq!(iso_week(&d(2024, 12, 30)), 1);
    assert_eq!(iso_week(&d(2020, 12, 31)), 53);
    // an ordinary mid-year date
    assert_eq!(iso_week(&d(2024, 3, 15)), 11);
}
