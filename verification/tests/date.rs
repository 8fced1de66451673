use chrono::{Datelike, Local, NaiveDate};
use pdf_handouts::date::{
    days_ahead, find_next_weekday, format_date, next_weekday_from, parse_date_expression,
    parse_weekday, resolve_date, Date, DateExpression, Weekday,
};
use pdf_handouts::Error;

fn naive(date: Date) -> NaiveDate {
    NaiveDate::from_ymd_opt(date.year, date.month, date.day).unwrap()
}

fn date(d: NaiveDate) -> Date {
    Date { year: d.year(), month: d.month(), day: d.day() }
}

fn weekday(day: chrono::Weekday) -> Weekday {
    match day {
        chrono::Weekday::Mon => Weekday::Mon,
        chrono::Weekday::Tue => Weekday::Tue,
        chrono::Weekday::Wed => Weekday::Wed,
        chrono::Weekday::Thu => Weekday::Thu,
        chrono::Weekday::Fri => Weekday::Fri,
        chrono::Weekday::Sat => Weekday::Sat,
        chrono::Weekday::Sun => Weekday::Sun,
    }
}

#[test]
fn test_parse_empty() {
    let expr = parse_date_expression("").unwrap();
    assert_eq!(expr, DateExpression::NoDate);

    let expr = parse_date_expression("   ").unwrap();
    assert_eq!(expr, DateExpression::NoDate);
}

#[test]
fn test_parse_today() {
    let expr = parse_date_expression("today").unwrap();
    assert_eq!(expr, DateExpression::Today);

    let expr = parse_date_expression("Today").unwrap();
    assert_eq!(expr, DateExpression::Today);

    let expr = parse_date_expression("TODAY").unwrap();
    assert_eq!(expr, DateExpression::Today);
}

#[test]
fn test_parse_iso_date() {
    let expr = parse_date_expression("2024-11-20").unwrap();
    match expr {
        DateExpression::Explicit(date) => {
            assert_eq!(date.year, 2024);
            assert_eq!(date.month, 11);
            assert_eq!(date.day, 20);
        }
        _ => panic!("Expected Explicit date"),
    }
}

#[test]
fn test_parse_us_date() {
    let expr = parse_date_expression("11/20/2024").unwrap();
    match expr {
        DateExpression::Explicit(date) => {
            assert_eq!(date.year, 2024);
            assert_eq!(date.month, 11);
            assert_eq!(date.day, 20);
        }
        _ => panic!("Expected Explicit date"),
    }
}

#[test]
fn test_parse_weekday() {
    let expr = parse_date_expression("Tuesday").unwrap();
    match expr {
        DateExpression::DayOfWeek { day, offset } => {
            assert_eq!(day, Weekday::Tue);
            assert_eq!(offset, 0);
        }
        _ => panic!("Expected DayOfWeek"),
    }

    let expr = parse_date_expression("friday").unwrap();
    match expr {
        DateExpression::DayOfWeek { day, offset } => {
            assert_eq!(day, Weekday::Fri);
            assert_eq!(offset, 0);
        }
        _ => panic!("Expected DayOfWeek"),
    }
}

#[test]
fn test_parse_weekday_with_offset() {
    let expr = parse_date_expression("Tuesday+3").unwrap();
    match expr {
        DateExpression::DayOfWeek { day, offset } => {
            assert_eq!(day, Weekday::Tue);
            assert_eq!(offset, 3);
        }
        _ => panic!("Expected DayOfWeek with offset"),
    }

    let expr = parse_date_expression("Monday + 1").unwrap();
    match expr {
        DateExpression::DayOfWeek { day, offset } => {
            assert_eq!(day, Weekday::Mon);
            assert_eq!(offset, 1);
        }
        _ => panic!("Expected DayOfWeek with offset"),
    }
}

#[test]
fn test_parse_weekday_abbreviations() {
    let test_cases = vec![
        ("Mon", Weekday::Mon),
        ("Tue", Weekday::Tue),
        ("Wed", Weekday::Wed),
        ("Thu", Weekday::Thu),
        ("Fri", Weekday::Fri),
        ("Sat", Weekday::Sat),
        ("Sun", Weekday::Sun),
    ];

    for (input, expected_day) in test_cases {
        let expr = parse_date_expression(input).unwrap();
        match expr {
            DateExpression::DayOfWeek { day, offset } => {
                assert_eq!(day, expected_day);
                assert_eq!(offset, 0);
            }
            _ => panic!("Expected DayOfWeek for {}", input),
        }
    }
}

#[test]
fn test_parse_invalid() {
    assert!(parse_date_expression("NotADay").is_err());
    assert!(parse_date_expression("2024-13-01").is_err()); // Invalid month
    assert!(parse_date_expression("Tuesday+abc").is_err()); // Invalid offset
}

#[test]
fn test_resolve_none() {
    let expr = DateExpression::NoDate;
    assert_eq!(resolve_date(&expr), None);
}

#[test]
fn test_resolve_today() {
    let expr = DateExpression::Today;
    let resolved = resolve_date(&expr).unwrap();
    let today = Local::now().date_naive();
    assert_eq!(naive(resolved), today);
}

#[test]
fn test_resolve_explicit() {
    let date = Date::from_ymd(2024, 11, 20).unwrap();
    let expr = DateExpression::Explicit(date);
    let resolved = resolve_date(&expr).unwrap();
    assert_eq!(resolved, date);
}

#[test]
fn test_resolve_weekday() {
    // Test that we can resolve a weekday (result will depend on current date)
    let expr = DateExpression::DayOfWeek { day: Weekday::Tue, offset: 0 };
    let resolved = naive(resolve_date(&expr).unwrap());

    // The resolved date should be a Tuesday
    assert_eq!(resolved.weekday(), chrono::Weekday::Tue);

    // The resolved date should be today or in the future
    let today = Local::now().date_naive();
    assert!(resolved >= today);
}

#[test]
fn test_resolve_weekday_with_offset() {
    let expr = DateExpression::DayOfWeek { day: Weekday::Tue, offset: 2 };
    let resolved = naive(resolve_date(&expr).unwrap());

    // Should be a Tuesday
    assert_eq!(resolved.weekday(), chrono::Weekday::Tue);

    // Should be at least 14 days in the future (2 weeks offset)
    let today = Local::now().date_naive();
    let days_diff = (resolved - today).num_days();
    assert!(days_diff >= 14);
}

#[test]
fn test_format_date() {
    let date = Date::from_ymd(2024, 11, 20).unwrap();
    let formatted = format_date(&date);
    assert_eq!(formatted, "November 20, 2024");

    let date = Date::from_ymd(2026, 1, 7).unwrap();
    let formatted = format_date(&date);
    assert_eq!(formatted, "January 7, 2026");
}

#[test]
fn test_find_next_weekday_same_day() {
    // If today is Tuesday and we ask for Tuesday, we should get today
    let today = Local::now().date_naive();
    let today_weekday = weekday(today.weekday());

    let next = find_next_weekday(today_weekday, 0).unwrap();
    assert_eq!(naive(next), today);
}

#[test]
fn test_find_next_weekday_with_offset_weeks() {
    let today = Local::now().date_naive();
    let today_weekday = weekday(today.weekday());

    // Ask for same weekday with offset 1 (next week)
    let next_week = naive(find_next_weekday(today_weekday, 1).unwrap());
    let days_diff = (next_week - today).num_days();
    assert_eq!(days_diff, 7);

    // Ask for same weekday with offset 2 (two weeks from now)
    let two_weeks = naive(find_next_weekday(today_weekday, 2).unwrap());
    let days_diff = (two_weeks - today).num_days();
    assert_eq!(days_diff, 14);
}

#[test]
fn dates_are_checked_against_the_calendar() {
    assert_eq!(Date::from_ymd(2024, 2, 29), Some(Date { year: 2024, month: 2, day: 29 }));
    assert_eq!(Date::from_ymd(2023, 2, 29), None);
    assert_eq!(Date::from_ymd(1900, 2, 29), None);
    assert_eq!(Date::from_ymd(2000, 2, 29), Some(Date { year: 2000, month: 2, day: 29 }));
    assert_eq!(Date::from_ymd(2024, 4, 31), None);
    assert_eq!(Date::from_ymd(2024, 13, 1), None);
    assert_eq!(Date::from_ymd(2024, 0, 1), None);
    assert_eq!(Date::from_ymd(2024, 1, 0), None);
    assert!(Date::from_ymd(-4, 2, 29).is_some());
    assert!(Date::from_ymd(262142, 12, 31).is_some());
    assert_eq!(Date::from_ymd(262143, 1, 1), None);
    assert_eq!(Date::from_ymd(-262144, 1, 1), None);
    // The calendar agrees with chrono's.
    for (y, m, d) in [(2024, 2, 29), (2023, 2, 29), (2100, 2, 29), (1, 12, 31), (2024, 6, 31)] {
        assert_eq!(
            Date::from_ymd(y, m, d).is_some(),
            NaiveDate::from_ymd_opt(y, m, d).is_some()
        );
    }
}

#[test]
fn dates_are_written_with_month_names_and_four_digit_years() {
    let names = [
        "January", "February", "March", "April", "May", "June", "July", "August", "September",
        "October", "November", "December",
    ];
    for (i, name) in names.iter().enumerate() {
        let d = Date::from_ymd(987, i as u32 + 1, 9).unwrap();
        assert_eq!(format_date(&d), format!("{} 9, 0987", name));
    }
    assert_eq!(format_date(&Date::from_ymd(0, 1, 31).unwrap()), "January 31, 0000");
    assert_eq!(format_date(&Date::from_ymd(9999, 12, 1).unwrap()), "December 1, 9999");
}

#[test]
fn days_ahead_counts_to_the_next_such_day() {
    assert_eq!(days_ahead(Weekday::Tue, Weekday::Tue, 0), 0);
    assert_eq!(days_ahead(Weekday::Mon, Weekday::Sun, 0), 6);
    assert_eq!(days_ahead(Weekday::Sun, Weekday::Mon, 0), 1);
    assert_eq!(days_ahead(Weekday::Fri, Weekday::Wed, 2), 19);
    assert_eq!(days_ahead(Weekday::Sat, Weekday::Sat, u32::MAX), 7 * u32::MAX as u64);
}

#[test]
fn next_weekday_from_a_given_day() {
    // 20 November 2024 was a Wednesday.
    let day = Date::from_ymd(2024, 11, 20).unwrap();
    assert_eq!(next_weekday_from(day, Weekday::Wed, 0), Some(day));
    assert_eq!(next_weekday_from(day, Weekday::Tue, 0), Date::from_ymd(2024, 11, 26));
    assert_eq!(next_weekday_from(day, Weekday::Thu, 3), Date::from_ymd(2024, 12, 12));
    assert_eq!(next_weekday_from(day, Weekday::Thu, u32::MAX), None);
    assert_eq!(date(naive(day)), day);
}

#[test]
fn expressions_report_what_was_not_understood() {
    let message = |text: &str| match parse_date_expression(text) {
        Err(Error::InvalidDateExpression(m)) => m,
        other => panic!("unexpected {:?}", other),
    };
    assert_eq!(message("NotADay"), "Unable to parse date expression: NotADay");
    assert_eq!(message("  2024-13-01 "), "Unable to parse date expression: 2024-13-01");
    assert_eq!(message("Tuesday+abc"), "Invalid offset: abc");
    assert_eq!(message("Tuesday+ -1"), "Invalid offset:  -1");
    assert_eq!(message("Tuesday+4294967296"), "Invalid offset: 4294967296");
    assert_eq!(message("Someday + 1"), "Unknown weekday: someday");
    assert_eq!(message("+1"), "Unknown weekday: ");
    assert_eq!(
        parse_date_expression("\tsun+ +4294967295\n").unwrap(),
        DateExpression::DayOfWeek { day: Weekday::Sun, offset: u32::MAX }
    );
    assert_eq!(parse_weekday(" WEDNESDAY ").unwrap(), Weekday::Wed);
    assert_eq!(
        parse_weekday("Weds").unwrap_err().message(),
        "Invalid date expression: Unknown weekday: weds"
    );
}
