use money_manager::date::{
    add_month, add_year, clamped_day, last_day_of_month, make_date, Date,
};
use money_manager::model::{parse_date, EngineError};

fn d(year: i32, month: u32, day: u32) -> Date {
    Date { year, month, day }
}

#[test]
fn from_ymd_accepts_days_of_the_calendar_only() {
    assert_eq!(Date::from_ymd(2015, 3, 14), Some(d(2015, 3, 14)));
    assert_eq!(Date::from_ymd(2015, 0, 14), None);
    assert_eq!(Date::from_ymd(2015, 13, 1), None);
    assert_eq!(Date::from_ymd(2015, 2, 29), None);
    assert_eq!(Date::from_ymd(2016, 2, 29), Some(d(2016, 2, 29)));
    assert_eq!(Date::from_ymd(1900, 2, 29), None);
    assert_eq!(Date::from_ymd(2000, 2, 29), Some(d(2000, 2, 29)));
    assert_eq!(Date::from_ymd(2023, 4, 31), None);
    assert_eq!(Date::from_ymd(400000, 1, 1), None);
    assert_eq!(Date::from_ymd(-400000, 1, 1), None);
    assert_eq!(Date::from_ymd(262142, 12, 31), Some(d(262142, 12, 31)));
    assert_eq!(Date::from_ymd(262143, 1, 1), None);
    assert_eq!(Date::from_ymd(-262143, 1, 1), Some(d(-262143, 1, 1)));
    assert_eq!(Date::from_ymd(-262144, 12, 31), None);
}

#[test]
fn is_valid_tells_real_days_from_others() {
    assert!(d(2024, 2, 29).is_valid());
    assert!(!d(2023, 2, 29).is_valid());
    assert!(!d(2023, 6, 0).is_valid());
}

#[test]
fn succ_crosses_months_and_years() {
    assert_eq!(d(2015, 6, 3).succ(), Some(d(2015, 6, 4)));
    assert_eq!(d(2015, 6, 30).succ(), Some(d(2015, 7, 1)));
    assert_eq!(d(2015, 12, 31).succ(), Some(d(2016, 1, 1)));
    assert_eq!(d(2024, 2, 28).succ(), Some(d(2024, 2, 29)));
    assert_eq!(d(2023, 2, 28).succ(), Some(d(2023, 3, 1)));
    assert_eq!(d(262142, 12, 31).succ(), None);
    assert_eq!(d(2023, 2, 30).succ(), None);
}

#[test]
fn pred_crosses_months_and_years() {
    assert_eq!(d(2015, 6, 3).pred(), Some(d(2015, 6, 2)));
    assert_eq!(d(2015, 7, 1).pred(), Some(d(2015, 6, 30)));
    assert_eq!(d(2016, 1, 1).pred(), Some(d(2015, 12, 31)));
    assert_eq!(d(2024, 3, 1).pred(), Some(d(2024, 2, 29)));
    assert_eq!(d(2023, 3, 1).pred(), Some(d(2023, 2, 28)));
    assert_eq!(d(-262143, 1, 1).pred(), None);
}

#[test]
fn days_since_counts_whole_days() {
    assert_eq!(d(2025, 3, 25).days_since(&d(2025, 3, 10)), 15);
    assert_eq!(d(2025, 3, 10).days_since(&d(2025, 3, 25)), -15);
    assert_eq!(d(2024, 3, 1).days_since(&d(2024, 2, 1)), 29);
    assert_eq!(d(2025, 1, 1).days_since(&d(2024, 1, 1)), 366);
    assert_eq!(d(1, 1, 1).days_since(&d(1, 1, 1)), 0);
    assert_eq!(d(2001, 1, 1).days_since(&d(1601, 1, 1)), 146_097);
}

#[test]
fn plus_days_moves_in_both_directions() {
    assert_eq!(d(2015, 9, 5).plus_days(40), Some(d(2015, 10, 15)));
    assert_eq!(d(2015, 9, 5).plus_days(-40), Some(d(2015, 7, 27)));
    assert_eq!(d(2015, 9, 5).plus_days(0), Some(d(2015, 9, 5)));
    assert_eq!(d(2015, 9, 5).plus_days(1_000_000_000), None);
    assert_eq!(d(2015, 9, 5).plus_days(i64::MAX), None);
    assert_eq!(d(262142, 12, 31).plus_days(1), None);
}

#[test]
fn dates_compare_by_year_month_and_day() {
    assert!(d(2024, 12, 31).is_before(&d(2025, 1, 1)));
    assert!(d(2025, 1, 31).is_before(&d(2025, 2, 1)));
    assert!(d(2025, 2, 1).is_before(&d(2025, 2, 2)));
    assert!(!d(2025, 2, 2).is_before(&d(2025, 2, 2)));
    assert!(d(2025, 2, 2).is_on_or_before(&d(2025, 2, 2)));
    assert!(!d(2025, 2, 3).is_on_or_before(&d(2025, 2, 2)));
}

#[test]
fn parse_date_reads_iso_dates() {
    assert_eq!(parse_date("2025-01-05"), Ok(d(2025, 1, 5)));
    assert_eq!(parse_date("2024-02-29"), Ok(d(2024, 2, 29)));
    assert_eq!(parse_date("2023-02-29"), Err(EngineError::MalformedDate));
    assert_eq!(parse_date("05/01/2025"), Err(EngineError::MalformedDate));
    assert_eq!(parse_date(""), Err(EngineError::MalformedDate));
    assert_eq!(parse_date("2025-13-01"), Err(EngineError::MalformedDate));
}

#[test]
fn last_day_of_month_knows_leap_years() {
    assert_eq!(last_day_of_month(2024, 2), d(2024, 2, 29));
    assert_eq!(last_day_of_month(2023, 2), d(2023, 2, 28));
    assert_eq!(last_day_of_month(2025, 4), d(2025, 4, 30));
    assert_eq!(last_day_of_month(2025, 12), d(2025, 12, 31));
    assert_eq!(last_day_of_month(262142, 12), d(262142, 12, 31));
}

#[test]
fn make_date_falls_back_to_the_28th() {
    assert_eq!(make_date(2025, 3, 25), d(2025, 3, 25));
    assert_eq!(make_date(2025, 2, 30), d(2025, 2, 28));
    assert_eq!(make_date(2024, 2, 30), d(2024, 2, 28));
    assert_eq!(make_date(2025, 4, 31), d(2025, 4, 28));
    assert_eq!(make_date(2025, 4, 0), d(2025, 4, 28));
}

#[test]
fn clamped_day_takes_the_month_end() {
    assert_eq!(clamped_day(2024, 2, 31), d(2024, 2, 29));
    assert_eq!(clamped_day(2023, 2, 31), d(2023, 2, 28));
    assert_eq!(clamped_day(2023, 4, 31), d(2023, 4, 30));
    assert_eq!(clamped_day(2023, 4, 15), d(2023, 4, 15));
}

#[test]
fn add_month_clamps_to_the_month_end() {
    assert_eq!(add_month(d(2024, 1, 31)), Some(d(2024, 2, 29)));
    assert_eq!(add_month(d(2023, 1, 31)), Some(d(2023, 2, 28)));
    assert_eq!(add_month(d(2023, 12, 15)), Some(d(2024, 1, 15)));
    assert_eq!(add_month(d(2023, 3, 31)), Some(d(2023, 4, 30)));
    assert_eq!(add_month(d(262142, 12, 1)), None);
}

#[test]
fn add_year_keeps_the_day_where_it_exists() {
    assert_eq!(add_year(d(2024, 2, 29)), Some(d(2025, 2, 28)));
    assert_eq!(add_year(d(2023, 6, 15)), Some(d(2024, 6, 15)));
    assert_eq!(add_year(d(262142, 6, 15)), None);
}
