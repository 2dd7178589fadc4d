use jikyuu::calendar::CalendarDate;
use jikyuu::error::ErrorKind;
use jikyuu::time_bound::CommitTimeBound;

fn date(year: i32, month: u32, day: u32) -> CalendarDate {
    CalendarDate { year, month, day }
}

#[test]
fn words_are_read_in_any_case() {
    assert_eq!(CommitTimeBound::from_str("always").unwrap(), CommitTimeBound::Always);
    assert_eq!(CommitTimeBound::from_str("Today").unwrap(), CommitTimeBound::Today);
    assert_eq!(CommitTimeBound::from_str("YESTERDAY").unwrap(), CommitTimeBound::Yesterday);
    assert_eq!(CommitTimeBound::from_str("thisWeek").unwrap(), CommitTimeBound::ThisWeek);
    assert_eq!(CommitTimeBound::from_str("LastWeek").unwrap(), CommitTimeBound::LastWeek);
}

#[test]
fn lower_case_is_that_of_unicode() {
    assert_eq!(CommitTimeBound::from_str("thiswee\u{212A}").unwrap(), CommitTimeBound::ThisWeek);
}

#[test]
fn dates_are_read() {
    assert_eq!(CommitTimeBound::from_str("2021-03-14").unwrap(), CommitTimeBound::Date(date(2021, 3, 14)));
    assert_eq!(CommitTimeBound::from_str("2020-02-29").unwrap(), CommitTimeBound::Date(date(2020, 2, 29)));
    assert_eq!(CommitTimeBound::from_str("2021-3-4").unwrap(), CommitTimeBound::Date(date(2021, 3, 4)));
    assert_eq!(CommitTimeBound::from_str("0001-01-01").unwrap(), CommitTimeBound::Date(date(1, 1, 1)));
}

#[test]
fn anything_else_is_an_error_with_the_text() {
    let error = CommitTimeBound::from_str("Tomorrow").unwrap_err();
    assert_eq!(
        error.0,
        ErrorKind::FromStr(String::from("Could not parse date 'Tomorrow' using YYYY-mm-dd format"))
    );
    assert_eq!(error.message(), "Could not parse date 'Tomorrow' using YYYY-mm-dd format");
    assert_eq!(
        CommitTimeBound::from_str("2021-02-30 ").unwrap_err().message(),
        "Could not parse date '2021-02-30 ' using YYYY-mm-dd format"
    );
    assert!(CommitTimeBound::from_str("").is_err());
    assert!(CommitTimeBound::from_str("2021-02-29").is_err());
    assert!(CommitTimeBound::from_str("2021-13-01").is_err());
    assert!(CommitTimeBound::from_str("2021/03/14").is_err());
    assert!(CommitTimeBound::from_str("today ").is_err());
}

#[test]
fn a_word_is_read_before_the_day() {
    assert_eq!(CommitTimeBound::from_lowercase("today", Some(date(2021, 3, 14))), Some(CommitTimeBound::Today));
    assert_eq!(
        CommitTimeBound::from_lowercase("whenever", Some(date(2021, 3, 14))),
        Some(CommitTimeBound::Date(date(2021, 3, 14)))
    );
    assert_eq!(CommitTimeBound::from_lowercase("Today", None), None);
    assert_eq!(CommitTimeBound::from_lowercase("lastweek", None), Some(CommitTimeBound::LastWeek));
}

#[test]
fn bounds_are_written_as_they_are_read() {
    assert_eq!(CommitTimeBound::Always.to_string(), "always");
    assert_eq!(CommitTimeBound::Today.to_string(), "today");
    assert_eq!(CommitTimeBound::Yesterday.to_string(), "yesterday");
    assert_eq!(CommitTimeBound::ThisWeek.to_string(), "thisweek");
    assert_eq!(CommitTimeBound::LastWeek.to_string(), "lastweek");
    assert_eq!(CommitTimeBound::Date(date(2021, 3, 4)).to_string(), "2021-03-04");
    assert_eq!(CommitTimeBound::Date(date(-1, 1, 1)).to_string(), "-0001-01-01");
    assert_eq!(CommitTimeBound::Date(date(10000, 12, 31)).to_string(), "+10000-12-31");
}

#[test]
fn resolve_on_a_given_day() {
    let today = date(2021, 3, 17);
    assert_eq!(CommitTimeBound::Always.resolve(today), None);
    assert_eq!(CommitTimeBound::Today.resolve(today), Some(today));
    assert_eq!(CommitTimeBound::Yesterday.resolve(today), Some(date(2021, 3, 16)));
    assert_eq!(CommitTimeBound::ThisWeek.resolve(today), Some(date(2021, 3, 14)));
    assert_eq!(CommitTimeBound::LastWeek.resolve(today), Some(date(2021, 3, 7)));
    assert_eq!(CommitTimeBound::Date(date(1999, 12, 31)).resolve(today), Some(date(1999, 12, 31)));
}

#[test]
fn yesterday_of_the_first_of_a_month() {
    assert_eq!(CommitTimeBound::Yesterday.resolve(date(2020, 3, 1)), Some(date(2020, 2, 29)));
    assert_eq!(CommitTimeBound::Yesterday.resolve(date(2021, 1, 1)), Some(date(2020, 12, 31)));
}

#[test]
fn week_begins_on_the_sunday_on_or_before_the_day() {
    assert_eq!(CommitTimeBound::ThisWeek.resolve(date(2021, 6, 9)), Some(date(2021, 6, 6)));
    assert_eq!(CommitTimeBound::LastWeek.resolve(date(2021, 6, 9)), Some(date(2021, 5, 30)));
    assert_eq!(CommitTimeBound::ThisWeek.resolve(date(2021, 6, 12)), Some(date(2021, 6, 6)));
    assert_eq!(CommitTimeBound::ThisWeek.resolve(date(2021, 6, 13)), Some(date(2021, 6, 13)));
    assert_eq!(CommitTimeBound::ThisWeek.resolve(date(2021, 6, 14)), Some(date(2021, 6, 13)));
}

#[test]
fn week_on_a_sunday_is_that_sunday() {
    assert_eq!(CommitTimeBound::ThisWeek.resolve(date(2021, 3, 14)), Some(date(2021, 3, 14)));
    assert_eq!(CommitTimeBound::LastWeek.resolve(date(2021, 3, 14)), Some(date(2021, 3, 7)));
}

#[test]
fn week_across_the_turn_of_the_year() {
    let new_year = date(2021, 1, 1);
    assert!(CommitTimeBound::ThisWeek.is_resolvable(new_year));
    assert_eq!(CommitTimeBound::ThisWeek.to_date_time(new_year).unwrap(), Some(date(2020, 12, 27)));
    assert_eq!(CommitTimeBound::LastWeek.to_date_time(new_year).unwrap(), Some(date(2020, 12, 20)));
    assert_eq!(CommitTimeBound::ThisWeek.resolve(date(2024, 12, 31)), Some(date(2024, 12, 29)));
    assert_eq!(CommitTimeBound::LastWeek.resolve(date(2024, 12, 31)), Some(date(2024, 12, 22)));
    assert_eq!(CommitTimeBound::ThisWeek.resolve(date(2016, 1, 3)), Some(date(2016, 1, 3)));
    assert_eq!(CommitTimeBound::ThisWeek.resolve(date(2016, 1, 2)), Some(date(2015, 12, 27)));
}

#[test]
fn week_is_within_seven_days_before_the_day() {
    let mut day = chrono::NaiveDate::from_ymd_opt(2019, 12, 20).unwrap();
    for _ in 0..800 {
        let today = date(chrono::Datelike::year(&day), chrono::Datelike::month(&day), chrono::Datelike::day(&day));
        let sunday = CommitTimeBound::ThisWeek.resolve(today).unwrap();
        let found = chrono::NaiveDate::from_ymd_opt(sunday.year, sunday.month, sunday.day).unwrap();
        assert_eq!(chrono::Datelike::weekday(&found), chrono::Weekday::Sun);
        let days = (day - found).num_days();
        assert!(0 <= days && days < 7, "{} {}", day, found);
        let before = CommitTimeBound::LastWeek.resolve(today).unwrap();
        let earlier = chrono::NaiveDate::from_ymd_opt(before.year, before.month, before.day).unwrap();
        assert_eq!((found - earlier).num_days(), 7);
        day = day.succ_opt().unwrap();
    }
}

#[test]
fn first_days_of_the_calendar_have_no_day_before() {
    let first = date(-262143, 1, 1);
    assert!(first.check());
    assert!(!CommitTimeBound::Yesterday.is_resolvable(first));
    assert!(!CommitTimeBound::LastWeek.is_resolvable(first));
    let error = CommitTimeBound::Yesterday.to_date_time(first).unwrap_err();
    assert_eq!(error.0, ErrorKind::Calendar(String::from("Could not find the day of 'yesterday'")));
    let error = CommitTimeBound::LastWeek.to_date_time(first).unwrap_err();
    assert_eq!(error.message(), "Could not find the day of 'lastweek'");
    let sunday = chrono::Datelike::weekday(&chrono::NaiveDate::MIN) == chrono::Weekday::Sun;
    assert_eq!(CommitTimeBound::ThisWeek.is_resolvable(first), sunday);
    assert_eq!(CommitTimeBound::ThisWeek.to_date_time(first).is_ok(), sunday);
    assert_eq!(CommitTimeBound::Today.to_date_time(first).unwrap(), Some(first));
    assert!(CommitTimeBound::Yesterday.is_resolvable(date(-262143, 1, 2)));
}

#[test]
fn day_of_a_bound_on_the_day_of_the_run() {
    let today = date(2021, 6, 9);
    assert_eq!(CommitTimeBound::Always.to_date_time(today).unwrap(), None);
    assert_eq!(CommitTimeBound::Today.to_date_time(today).unwrap(), Some(today));
    assert_eq!(CommitTimeBound::Yesterday.to_date_time(today).unwrap(), Some(date(2021, 6, 8)));
    assert_eq!(CommitTimeBound::ThisWeek.to_date_time(today).unwrap(), Some(date(2021, 6, 6)));
    assert_eq!(CommitTimeBound::LastWeek.to_date_time(today).unwrap(), Some(date(2021, 5, 30)));
    assert_eq!(CommitTimeBound::Date(date(2021, 3, 14)).to_date_time(today).unwrap(), Some(date(2021, 3, 14)));
}
