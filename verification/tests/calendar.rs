use jikyuu::calendar::{CalendarDate, MAX_YEAR, MIN_YEAR};

#[test]
fn days_that_the_calendar_holds() {
    assert_eq!(CalendarDate::new(2021, 3, 14), Some(CalendarDate { year: 2021, month: 3, day: 14 }));
    assert!(CalendarDate::new(2020, 2, 29).is_some());
    assert!(CalendarDate::new(2000, 2, 29).is_some());
    assert!(CalendarDate::new(2021, 12, 31).is_some());
    assert!(CalendarDate::new(2021, 4, 30).is_some());
    assert!(CalendarDate::new(0, 1, 1).is_some());
    assert!(CalendarDate::new(-4, 2, 29).is_some());
    assert!(CalendarDate::new(MIN_YEAR, 1, 1).is_some());
    assert!(CalendarDate::new(MAX_YEAR, 12, 31).is_some());
}

#[test]
fn days_that_the_calendar_lacks() {
    assert_eq!(CalendarDate::new(2021, 2, 29), None);
    assert_eq!(CalendarDate::new(1900, 2, 29), None);
    assert_eq!(CalendarDate::new(2100, 2, 29), None);
    assert_eq!(CalendarDate::new(-1, 2, 29), None);
    assert_eq!(CalendarDate::new(2021, 4, 31), None);
    assert_eq!(CalendarDate::new(2021, 6, 31), None);
    assert_eq!(CalendarDate::new(2021, 9, 31), None);
    assert_eq!(CalendarDate::new(2021, 11, 31), None);
    assert_eq!(CalendarDate::new(2021, 1, 32), None);
    assert_eq!(CalendarDate::new(2021, 1, 0), None);
    assert_eq!(CalendarDate::new(2021, 0, 1), None);
    assert_eq!(CalendarDate::new(2021, 13, 1), None);
    assert_eq!(CalendarDate::new(MIN_YEAR - 1, 12, 31), None);
    assert_eq!(CalendarDate::new(MAX_YEAR + 1, 1, 1), None);
    assert!(!CalendarDate { year: i32::MAX, month: 1, day: 1 }.check());
}

#[test]
fn validity_is_that_of_chrono() {
    for year in [-262144, -262143, -401, -400, -100, -4, -1, 0, 1, 1900, 2000, 2021, 2024, 262142, 262143] {
        for month in 0..14u32 {
            for day in 0..33u32 {
                assert_eq!(
                    CalendarDate::new(year, month, day).is_some(),
                    chrono::NaiveDate::from_ymd_opt(year, month, day).is_some(),
                    "{}-{}-{}",
                    year,
                    month,
                    day
                );
            }
        }
    }
}
