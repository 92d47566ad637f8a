//! Calendar dates as day numbers (days from the common era, 0001-01-01 is day 1),
//! with a 365-day year for ages.
use vstd::prelude::*;

verus! {

/// What chrono writes, as `%Y-%m-%d`, for the date of day number `days` (`None`
/// where that date is outside chrono's range).
pub uninterp spec fn iso_date_text(days: int) -> Option<Seq<char>>;

/// The day number chrono reads from `s` as `%Y-%m-%d`, if it reads a date.
pub uninterp spec fn iso_date_days(s: Seq<char>) -> Option<int>;

/// Relies on `chrono::NaiveDate::from_num_days_from_ce_opt` and
/// `NaiveDate::format("%Y-%m-%d")`: the date text of a day number. chrono's
/// years run from -262143 to 262142, so every day number within 95 million
/// days of the era has a date.
#[verifier::external_body]
pub(crate) fn format_day(days: i32) -> (r: Option<String>)
    ensures
        -95_000_000 <= days <= 95_000_000 ==> r is Some,
        match r {
            Some(t) => iso_date_text(days as int) == Some(t@),
            None => iso_date_text(days as int) is None,
        },
{
    match chrono::NaiveDate::from_num_days_from_ce_opt(days) {
        Some(d) => Some(d.format("%Y-%m-%d").to_string()),
        None => None,
    }
}

/// Relies on `chrono::NaiveDate::parse_from_str(s, "%Y-%m-%d")` and
/// `Datelike::num_days_from_ce`: the day number of a date text.
#[verifier::external_body]
pub(crate) fn parse_day(s: &str) -> (r: Option<i32>)
    ensures
        match r {
            Some(d) => iso_date_days(s@) == Some(d as int),
            None => iso_date_days(s@) is None,
        },
{
    match chrono::NaiveDate::parse_from_str(s, "%Y-%m-%d") {
        Ok(d) => Some(chrono::Datelike::num_days_from_ce(&d)),
        Err(_) => None,
    }
}

/// Relies on `SystemTime::now` and `SystemTime::duration_since(UNIX_EPOCH)`:
/// whole seconds since 1970-01-01 00:00 UTC by the system clock, `None` where
/// the clock reads earlier. Nothing is promised of the value.
#[verifier::external_body]
fn seconds_since_epoch() -> (r: Option<u64>) {
    match std::time::SystemTime::now().duration_since(std::time::UNIX_EPOCH) {
        Ok(d) => Some(d.as_secs()),
        Err(_) => None,
    }
}

/// The day number of 1970-01-01.
pub const EPOCH_DAY: i32 = 719_163;

/// The last day this library counts from: every age up to 150 years before it
/// has a writable birth date.
pub const LAST_DAY: i32 = 95_000_000;

/// The clock cannot give a day: it reads before 1970 or after `LAST_DAY`.
#[derive(PartialEq, Eq, Structural, Clone, Copy, Debug)]
pub struct ClockUnavailable;

/// Today's day number (UTC) by the system clock.
pub fn today() -> (r: Result<i32, ClockUnavailable>)
    ensures
        r matches Ok(d) ==> EPOCH_DAY <= d <= LAST_DAY,
{
    match seconds_since_epoch() {
        Some(secs) => {
            let days = secs / 86_400;
            if days > (LAST_DAY - EPOCH_DAY) as u64 {
                Err(ClockUnavailable)
            } else {
                Ok(EPOCH_DAY + days as i32)
            }
        },
        None => Err(ClockUnavailable),
    }
}

/// Whole 365-day years from day `birth` to day `today`, truncated toward zero.
pub open spec fn elapsed_years(birth: int, today: int) -> int {
    let diff = today - birth;
    if diff >= 0 {
        diff / 365
    } else {
        -((-diff) / 365)
    }
}

/// The age, on day `today`, of someone born on the date `birth_date`; a text
/// that is not a date counts as born today.
pub open spec fn age_on(birth_date: Seq<char>, today: int) -> int {
    match iso_date_days(birth_date) {
        Some(b) => elapsed_years(b, today),
        None => 0,
    }
}

/// The day of birth of someone `age` years old on day `today`.
pub open spec fn birth_day(age: int, today: int) -> int {
    today - age * 365
}

/// Whole 365-day years between two day numbers.
pub fn years_between(birth: i32, today: i32) -> (r: i64)
    ensures
        r == elapsed_years(birth as int, today as int),
{
    let diff: i64 = today as i64 - birth as i64;
    if diff >= 0 {
        diff / 365
    } else {
        -((-diff) / 365)
    }
}

/// The age on day `today` of someone born on `birth_date` (`%Y-%m-%d`).
pub fn calculate_age(birth_date: &str, today: i32) -> (r: i64)
    ensures
        r == age_on(birth_date@, today as int),
{
    match parse_day(birth_date) {
        Some(b) => years_between(b, today),
        None => 0,
    }
}

/// The age today, by the system clock, of someone born on `birth_date`.
pub fn current_age(birth_date: &str) -> (r: Result<i64, ClockUnavailable>)
    ensures
        r matches Ok(a) ==> exists|d: i32|
            EPOCH_DAY <= d <= LAST_DAY && a == age_on(birth_date@, d as int),
{
    match today() {
        Ok(d) => {
            let a = calculate_age(birth_date, d);
            assert(EPOCH_DAY <= d <= LAST_DAY && a == age_on(birth_date@, d as int));
            Ok(a)
        },
        Err(e) => Err(e),
    }
}

/// The date text of the day of birth of someone `age` years old on day `today`;
/// `None` where that day is outside the dates that can be written.
pub fn birth_date_for_age(age: i32, today: i32) -> (r: Option<String>)
    ensures
        match r {
            Some(t) => i32::MIN <= birth_day(age as int, today as int) <= i32::MAX && iso_date_text(
                birth_day(age as int, today as int),
            ) == Some(t@),
            None => !(i32::MIN <= birth_day(age as int, today as int) <= i32::MAX) || iso_date_text(
                birth_day(age as int, today as int),
            ) is None,
        },
        -95_000_000 <= birth_day(age as int, today as int) <= 95_000_000 ==> r is Some,
{
    let b: i64 = today as i64 - age as i64 * 365;
    if b < i32::MIN as i64 || b > i32::MAX as i64 {
        return None;
    }
    format_day(b as i32)
}

} // verus!
