use time::Month;
use tv_digest::calendar::{Date, Weekday, MAX_JULIAN_DAY, MIN_JULIAN_DAY};
use tv_digest::schedule::get_week;

fn day(year: i32, month: Month, day: u8) -> Date {
    let julian_day = time::Date::from_calendar_date(year, month, day)
        .unwrap()
        .to_julian_day();
    Date::from_julian_day(julian_day).unwrap()
}

/// Days at both ends of the range, and every day of a few years in between.
fn sample_days() -> Vec<Date> {
    let mut julian_days: Vec<i32> = Vec::new();
    julian_days.extend(MIN_JULIAN_DAY..MIN_JULIAN_DAY + 30);
    julian_days.extend(MAX_JULIAN_DAY - 30..=MAX_JULIAN_DAY);
    julian_days.extend(-20..20);
    let start = day(2019, Month::December, 1).to_julian_day();
    julian_days.extend(start..start + 1200);
    julian_days
        .into_iter()
        .map(|julian_day| Date::from_julian_day(julian_day).unwrap())
        .collect()
}

#[test]
fn get_week_sunday_start() {
    let date = day(2022, Month::May, 1);
    let (start, _end) = get_week(date);
    assert_eq!(start, date);
}

#[test]
fn get_week_saturday_end() {
    let date = day(2022, Month::May, 7);
    let (_start, end) = get_week(date);
    assert_eq!(end, date);
}

#[test]
fn get_week_starts_on_sunday() {
    for date in sample_days() {
        let (start, _end) = get_week(date);
        assert!(start == Date::earliest() || start.weekday() == Weekday::Sunday);
    }
}

#[test]
fn get_week_ends_ons_saturday() {
    for date in sample_days() {
        let (_start, end) = get_week(date);
        assert!(end == Date::latest() || end.weekday() == Weekday::Saturday);
    }
}

#[test]
fn get_week_contains_requested_date() {
    for date in sample_days() {
        let (start, end) = get_week(date);
        assert!(start <= date && date <= end);
    }
}

#[test]
fn get_week_start_is_before_end() {
    for date in sample_days() {
        let (start, end) = get_week(date);
        assert!(start <= end);
    }
}

#[test]
fn get_week_is_proper_length() {
    for date in sample_days() {
        let (start, end) = get_week(date);
        assert!(
            start == Date::earliest()
                || end == Date::latest()
                || end.to_julian_day() - start.to_julian_day() == 6
        );
    }
}

#[test]
fn get_week_of_a_wednesday() {
    let (start, end) = get_week(day(2022, Month::May, 4));
    assert_eq!(start, day(2022, Month::May, 1));
    assert_eq!(end, day(2022, Month::May, 7));
}

#[test]
fn get_week_across_the_turn_of_a_year() {
    let (start, end) = get_week(day(2021, Month::January, 1));
    assert_eq!(start, day(2020, Month::December, 27));
    assert_eq!(end, day(2021, Month::January, 2));
}

#[test]
fn get_week_is_cut_short_at_the_first_date() {
    // 1 January -9999 is a Monday: the Sunday before it is not representable.
    for offset in 0..6 {
        let date = Date::from_julian_day(MIN_JULIAN_DAY + offset).unwrap();
        let (start, end) = get_week(date);
        assert_eq!(start, Date::earliest());
        assert_eq!(end.to_julian_day(), MIN_JULIAN_DAY + 5);
        assert_eq!(end.weekday(), Weekday::Saturday);
    }
    let (start, _end) = get_week(Date::from_julian_day(MIN_JULIAN_DAY + 6).unwrap());
    assert_eq!(start.to_julian_day(), MIN_JULIAN_DAY + 6);
}

#[test]
fn get_week_is_cut_short_at_the_last_date() {
    // 31 December 9999 is a Friday: the Saturday after it is not representable.
    for offset in 0..6 {
        let date = Date::from_julian_day(MAX_JULIAN_DAY - offset).unwrap();
        let (start, end) = get_week(date);
        assert_eq!(start.to_julian_day(), MAX_JULIAN_DAY - 5);
        assert_eq!(start.weekday(), Weekday::Sunday);
        assert_eq!(end, Date::latest());
    }
    let (_start, end) = get_week(Date::from_julian_day(MAX_JULIAN_DAY - 6).unwrap());
    assert_eq!(end.to_julian_day(), MAX_JULIAN_DAY - 6);
}
