use xnote::date::{
    date_le, date_range, day_number, day_of_week, days_in_month_of, is_leap, next_day, parse_iso,
    Date,
};

fn d(y: u32, m: u8, day: u8) -> Date {
    Date::new(y, m, day).expect("valid date")
}

#[test]
fn test_leap_year_rule() {
    assert!(is_leap(2024));
    assert!(!is_leap(2023));
    assert!(is_leap(2000));
    assert!(!is_leap(1900));
    assert!(!is_leap(2100));
    assert!(is_leap(1600));
}

#[test]
fn test_month_lengths() {
    assert_eq!(days_in_month_of(2024, 2), 29);
    assert_eq!(days_in_month_of(2023, 2), 28);
    assert_eq!(days_in_month_of(2024, 1), 31);
    assert_eq!(days_in_month_of(2024, 4), 30);
    assert_eq!(days_in_month_of(2024, 12), 31);
}

#[test]
fn test_date_new_rejects_invalid() {
    assert!(Date::new(2023, 2, 29).is_none());
    assert!(Date::new(2024, 2, 29).is_some());
    assert!(Date::new(1900, 2, 29).is_none());
    assert!(Date::new(2000, 2, 29).is_some());
    assert!(Date::new(2024, 13, 1).is_none());
    assert!(Date::new(2024, 0, 1).is_none());
    assert!(Date::new(2024, 1, 0).is_none());
    assert!(Date::new(2024, 4, 31).is_none());
    assert!(Date::new(0, 1, 1).is_none());
    assert!(Date::new(10000, 1, 1).is_none());
}

#[test]
fn test_next_day_rollovers() {
    assert_eq!(next_day(&d(2024, 1, 15)), d(2024, 1, 16));
    assert_eq!(next_day(&d(2024, 1, 31)), d(2024, 2, 1));
    assert_eq!(next_day(&d(2024, 2, 28)), d(2024, 2, 29));
    assert_eq!(next_day(&d(2023, 2, 28)), d(2023, 3, 1));
    assert_eq!(next_day(&d(2023, 12, 31)), d(2024, 1, 1));
}

#[test]
fn test_date_le() {
    assert!(date_le(&d(2024, 1, 15), &d(2024, 1, 15)));
    assert!(date_le(&d(2024, 1, 15), &d(2024, 1, 16)));
    assert!(!date_le(&d(2024, 1, 16), &d(2024, 1, 15)));
    assert!(date_le(&d(2023, 12, 31), &d(2024, 1, 1)));
    assert!(date_le(&d(2024, 1, 31), &d(2024, 2, 1)));
}

#[test]
fn test_day_number_consecutive() {
    let base = day_number(&d(2024, 2, 28));
    assert_eq!(day_number(&d(2024, 2, 29)), base + 1);
    assert_eq!(day_number(&d(2024, 3, 1)), base + 2);
    assert_eq!(day_number(&d(1, 1, 1)), 0);
    assert_eq!(day_number(&d(1, 1, 2)), 1);
}

#[test]
fn test_weekdays_known_dates() {
    assert_eq!(day_of_week(&d(2024, 1, 1)), "Monday");
    assert_eq!(day_of_week(&d(2024, 1, 15)), "Monday");
    assert_eq!(day_of_week(&d(1970, 1, 1)), "Thursday");
    assert_eq!(day_of_week(&d(2000, 1, 1)), "Saturday");
    assert_eq!(day_of_week(&d(2024, 1, 2)), "Tuesday");
    assert_eq!(day_of_week(&d(2024, 1, 6)), "Saturday");
    assert_eq!(day_of_week(&d(2024, 1, 7)), "Sunday");
}

#[test]
fn test_date_range_inclusive() {
    let days = date_range(&d(2024, 2, 28), &d(2024, 3, 1));
    assert_eq!(days.len(), 3);
    assert_eq!(days[0], d(2024, 2, 28));
    assert_eq!(days[1], d(2024, 2, 29));
    assert_eq!(days[2], d(2024, 3, 1));
}

#[test]
fn test_date_range_single_day() {
    let days = date_range(&d(2024, 1, 1), &d(2024, 1, 1));
    assert_eq!(days.len(), 1);
    assert_eq!(days[0], d(2024, 1, 1));
}

#[test]
fn test_date_range_empty_when_reversed() {
    let days = date_range(&d(2024, 1, 2), &d(2024, 1, 1));
    assert!(days.is_empty());
    let days = date_range(&d(2025, 1, 1), &d(2024, 12, 31));
    assert!(days.is_empty());
}

#[test]
fn test_date_range_full_years() {
    assert_eq!(date_range(&d(2023, 1, 1), &d(2023, 12, 31)).len(), 365);
    assert_eq!(date_range(&d(2024, 1, 1), &d(2024, 12, 31)).len(), 366);
}

#[test]
fn test_date_range_across_year() {
    let days = date_range(&d(2023, 12, 30), &d(2024, 1, 2));
    assert_eq!(days.len(), 4);
    assert_eq!(days[3], d(2024, 1, 2));
}

#[test]
fn test_to_iso_string() {
    assert_eq!(d(2024, 1, 15).to_iso_string(), "2024-01-15");
    assert_eq!(d(1, 1, 1).to_iso_string(), "0001-01-01");
    assert_eq!(d(9999, 12, 31).to_iso_string(), "9999-12-31");
    assert_eq!(d(987, 10, 3).to_iso_string(), "0987-10-03");
}

#[test]
fn test_parse_iso_valid() {
    assert_eq!(parse_iso("2024-01-15"), Some(d(2024, 1, 15)));
    assert_eq!(parse_iso("0001-01-01"), Some(d(1, 1, 1)));
    assert_eq!(parse_iso("9999-12-31"), Some(d(9999, 12, 31)));
    assert_eq!(parse_iso("2024-02-29"), Some(d(2024, 2, 29)));
}

#[test]
fn test_parse_iso_rejects_bad_input() {
    assert_eq!(parse_iso(""), None);
    assert_eq!(parse_iso("2024-1-15"), None);
    assert_eq!(parse_iso("2024/01/15"), None);
    assert_eq!(parse_iso("abcd-ef-gh"), None);
    assert_eq!(parse_iso("2023-02-29"), None);
    assert_eq!(parse_iso("2024-13-01"), None);
    assert_eq!(parse_iso("0000-01-01"), None);
    assert_eq!(parse_iso("2024-01-150"), None);
}

#[test]
fn test_iso_round_trip() {
    for day in date_range(&d(2024, 2, 25), &d(2024, 3, 5)) {
        assert_eq!(parse_iso(&day.to_iso_string()), Some(day));
    }
}
