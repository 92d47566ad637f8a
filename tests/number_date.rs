use mymed::date::{birth_date_for_age, calculate_age, current_age, today, years_between, EPOCH_DAY, LAST_DAY};
use mymed::number::parse_i32;

fn chars(s: &str) -> Vec<char> {
    s.chars().collect()
}

#[test]
fn parse_i32_cases() {
    assert_eq!(parse_i32(&chars("42")), Some(42));
    assert_eq!(parse_i32(&chars("+7")), Some(7));
    assert_eq!(parse_i32(&chars("-2147483648")), Some(i32::MIN));
    assert_eq!(parse_i32(&chars("2147483647")), Some(i32::MAX));
    assert_eq!(parse_i32(&chars("2147483648")), None);
    assert_eq!(parse_i32(&chars("99999999999999")), None);
    assert_eq!(parse_i32(&chars("")), None);
    assert_eq!(parse_i32(&chars("-")), None);
    assert_eq!(parse_i32(&chars("4 2")), None);
    assert_eq!(parse_i32(&chars("trinta")), None);
}

#[test]
fn birth_date_counts_back_365_days_a_year() {
    // 738886 is 2024-01-01
    assert_eq!(birth_date_for_age(30, 738886), Some("1994-01-08".to_string()));
    assert_eq!(birth_date_for_age(0, 738886), Some("2024-01-01".to_string()));
    assert_eq!(birth_date_for_age(i32::MAX, 738886), None);
}

#[test]
fn age_in_whole_365_day_years() {
    assert_eq!(calculate_age("1990-05-20", 738886), 33);
    assert_eq!(calculate_age("not a date", 738886), 0);
    assert_eq!(years_between(738886, 738886 - 364), -0);
    assert_eq!(years_between(738886, 738886 - 365), -1);
    assert_eq!(years_between(0, 730), 2);
}

#[test]
fn clock_gives_a_day_in_range() {
    let d = today().unwrap();
    assert!(EPOCH_DAY <= d && d <= LAST_DAY);
    // 2024-01-01 lies in the past of any machine running this
    assert!(d > 738886);
    assert!(current_age("1990-05-20").unwrap() >= 33);
}
