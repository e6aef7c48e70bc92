use time::Month;
use tv_digest::calendar::{Date, Weekday, MAX_JULIAN_DAY, MAX_YEAR, MIN_JULIAN_DAY, MIN_YEAR};

const WEEKDAYS: [Weekday; 7] = [
    Weekday::Monday,
    Weekday::Tuesday,
    Weekday::Wednesday,
    Weekday::Thursday,
    Weekday::Friday,
    Weekday::Saturday,
    Weekday::Sunday,
];

fn calendar_day(year: i32, month: Month, day: u8) -> Date {
    let julian_day = time::Date::from_calendar_date(year, month, day)
        .unwrap()
        .to_julian_day();
    Date::from_julian_day(julian_day).unwrap()
}

fn days_before_year(year: i64) -> i64 {
    let y = year - 1;
    365 * y + y.div_euclid(4) - y.div_euclid(100) + y.div_euclid(400)
}

fn first_day_of_iso_year(year: i64) -> i64 {
    let jan_4 = days_before_year(year) + 1_721_426 + 3;
    jan_4 - jan_4.rem_euclid(7)
}

fn saturate(julian_day: i64) -> i32 {
    julian_day.clamp(MIN_JULIAN_DAY as i64, MAX_JULIAN_DAY as i64) as i32
}

/// Every day near the ends of the range and of the years 1900 to 2100, and
/// one in 97 in between.
fn spread_julian_days() -> Vec<i32> {
    let mut julian_days: Vec<i32> = Vec::new();
    julian_days.extend(MIN_JULIAN_DAY..MIN_JULIAN_DAY + 800);
    julian_days.extend((MIN_JULIAN_DAY..MAX_JULIAN_DAY).step_by(97));
    let from = calendar_day(1900, Month::January, 1).to_julian_day();
    let to = calendar_day(2100, Month::December, 31).to_julian_day();
    julian_days.extend(from..=to);
    julian_days.extend(MAX_JULIAN_DAY - 800..=MAX_JULIAN_DAY);
    julian_days
}

#[test]
fn range_of_dates_is_that_of_the_calendar() {
    assert_eq!(
        Date::earliest().to_julian_day(),
        time::Date::MIN.to_julian_day()
    );
    assert_eq!(
        Date::latest().to_julian_day(),
        time::Date::MAX.to_julian_day()
    );
    assert_eq!(MIN_JULIAN_DAY, time::Date::MIN.to_julian_day());
    assert_eq!(MAX_JULIAN_DAY, time::Date::MAX.to_julian_day());
    assert_eq!(MIN_YEAR, time::Date::MIN.year());
    assert_eq!(MAX_YEAR, time::Date::MAX.year());
}

#[test]
fn from_julian_day_accepts_the_range_only() {
    assert!(Date::from_julian_day(MIN_JULIAN_DAY).is_some());
    assert!(Date::from_julian_day(MIN_JULIAN_DAY - 1).is_none());
    assert!(Date::from_julian_day(MAX_JULIAN_DAY).is_some());
    assert!(Date::from_julian_day(MAX_JULIAN_DAY + 1).is_none());
    assert!(Date::from_julian_day(i32::MIN).is_none());
    assert!(Date::from_julian_day(i32::MAX).is_none());
    assert_eq!(
        Date::from_julian_day(2_451_545).unwrap(),
        calendar_day(2000, Month::January, 1)
    );
    assert_eq!(Date::from_julian_day(2_451_545).unwrap().to_julian_day(), 2_451_545);
}

#[test]
fn dates_are_ordered_by_day() {
    let earlier = calendar_day(2022, Month::April, 30);
    let later = calendar_day(2022, Month::May, 1);
    assert!(earlier < later);
    assert!(Date::earliest() < earlier);
    assert!(later < Date::latest());
    assert_eq!(later, calendar_day(2022, Month::May, 1));
}

#[test]
fn weekday_of_known_days() {
    assert_eq!(calendar_day(2022, Month::May, 1).weekday(), Weekday::Sunday);
    assert_eq!(calendar_day(2022, Month::May, 2).weekday(), Weekday::Monday);
    assert_eq!(calendar_day(2022, Month::May, 3).weekday(), Weekday::Tuesday);
    assert_eq!(calendar_day(2022, Month::May, 4).weekday(), Weekday::Wednesday);
    assert_eq!(calendar_day(2022, Month::May, 5).weekday(), Weekday::Thursday);
    assert_eq!(calendar_day(2022, Month::May, 6).weekday(), Weekday::Friday);
    assert_eq!(calendar_day(2022, Month::May, 7).weekday(), Weekday::Saturday);
    assert_eq!(Date::earliest().weekday(), Weekday::Monday);
    assert_eq!(Date::latest().weekday(), Weekday::Friday);
}

#[test]
fn weekday_is_the_remainder_of_the_julian_day() {
    for julian_day in spread_julian_days() {
        let date = Date::from_julian_day(julian_day).unwrap();
        let expected = WEEKDAYS[julian_day.rem_euclid(7) as usize];
        assert_eq!(date.weekday(), expected);
    }
}

#[test]
fn saturating_add_days_moves_forward() {
    let date = calendar_day(2022, Month::May, 1);
    assert_eq!(date.saturating_add_days(1), calendar_day(2022, Month::May, 2));
    assert_eq!(date.saturating_add_days(0), date);
    assert_eq!(date.saturating_add_days(31), calendar_day(2022, Month::June, 1));
    assert_eq!(date.saturating_add_days(-1), calendar_day(2022, Month::April, 30));
    assert_eq!(
        calendar_day(2020, Month::February, 28).saturating_add_days(1),
        calendar_day(2020, Month::February, 29)
    );
}

#[test]
fn saturating_add_days_stops_at_the_ends() {
    assert_eq!(Date::latest().saturating_add_days(1), Date::latest());
    assert_eq!(Date::latest().saturating_add_days(i32::MAX), Date::latest());
    assert_eq!(Date::earliest().saturating_add_days(-1), Date::earliest());
    assert_eq!(Date::earliest().saturating_add_days(i32::MIN), Date::earliest());
    assert_eq!(
        calendar_day(2022, Month::May, 1).saturating_add_days(i32::MAX),
        Date::latest()
    );
    assert_eq!(
        calendar_day(2022, Month::May, 1).saturating_add_days(i32::MIN),
        Date::earliest()
    );
}

#[test]
fn saturating_sub_days_moves_back() {
    let date = calendar_day(2022, Month::May, 1);
    assert_eq!(date.saturating_sub_days(1), calendar_day(2022, Month::April, 30));
    assert_eq!(date.saturating_sub_days(0), date);
    assert_eq!(date.saturating_sub_days(-1), calendar_day(2022, Month::May, 2));
    assert_eq!(
        calendar_day(2020, Month::March, 1).saturating_sub_days(1),
        calendar_day(2020, Month::February, 29)
    );
}

#[test]
fn saturating_sub_days_stops_at_the_ends() {
    assert_eq!(Date::earliest().saturating_sub_days(1), Date::earliest());
    assert_eq!(Date::earliest().saturating_sub_days(i32::MAX), Date::earliest());
    assert_eq!(Date::latest().saturating_sub_days(-1), Date::latest());
    assert_eq!(Date::latest().saturating_sub_days(i32::MIN), Date::latest());
}

#[test]
fn saturating_steps_are_sums_held_in_range() {
    let steps = [i32::MIN, -5_000_000, -400, -1, 0, 1, 6, 400, 5_000_000, i32::MAX];
    for julian_day in spread_julian_days().into_iter().step_by(50) {
        let date = Date::from_julian_day(julian_day).unwrap();
        for days in steps {
            let sum = saturate(julian_day as i64 + days as i64);
            assert_eq!(date.saturating_add_days(days).to_julian_day(), sum);
            let difference = saturate(julian_day as i64 - days as i64);
            assert_eq!(date.saturating_sub_days(days).to_julian_day(), difference);
        }
    }
}

#[test]
fn to_iso_week_date_of_known_days() {
    assert_eq!(
        calendar_day(2019, Month::January, 1).to_iso_week_date(),
        (2019, 1, Weekday::Tuesday)
    );
    assert_eq!(
        calendar_day(2019, Month::October, 4).to_iso_week_date(),
        (2019, 40, Weekday::Friday)
    );
    assert_eq!(
        calendar_day(2020, Month::December, 31).to_iso_week_date(),
        (2020, 53, Weekday::Thursday)
    );
    assert_eq!(
        calendar_day(2021, Month::January, 1).to_iso_week_date(),
        (2020, 53, Weekday::Friday)
    );
    assert_eq!(
        calendar_day(2022, Month::May, 1).to_iso_week_date(),
        (2022, 17, Weekday::Sunday)
    );
    assert_eq!(Date::earliest().to_iso_week_date(), (-9999, 1, Weekday::Monday));
    assert_eq!(Date::latest().to_iso_week_date(), (9999, 52, Weekday::Friday));
}

#[test]
fn every_date_lies_in_its_iso_week() {
    for julian_day in spread_julian_days() {
        let date = Date::from_julian_day(julian_day).unwrap();
        let (year, week, weekday) = date.to_iso_week_date();
        let first = first_day_of_iso_year(year as i64) + 7 * (week as i64 - 1);
        assert!(week >= 1);
        assert!(MIN_YEAR <= year && year <= MAX_YEAR);
        assert!(first <= julian_day as i64 && (julian_day as i64) < first + 7);
        assert!((julian_day as i64) < first_day_of_iso_year(year as i64 + 1));
        assert_eq!(weekday, WEEKDAYS[(julian_day as i64 - first) as usize]);
    }
}

#[test]
fn from_iso_week_date_of_known_weeks() {
    assert_eq!(
        Date::from_iso_week_date(2019, 1, Weekday::Monday),
        Some(calendar_day(2018, Month::December, 31))
    );
    assert_eq!(
        Date::from_iso_week_date(2019, 1, Weekday::Tuesday),
        Some(calendar_day(2019, Month::January, 1))
    );
    assert_eq!(
        Date::from_iso_week_date(2020, 53, Weekday::Friday),
        Some(calendar_day(2021, Month::January, 1))
    );
    assert_eq!(
        Date::from_iso_week_date(2022, 17, Weekday::Sunday),
        Some(calendar_day(2022, Month::May, 1))
    );
    // 2019 has 52 weeks only.
    assert_eq!(Date::from_iso_week_date(2019, 53, Weekday::Monday), None);
    assert_eq!(Date::from_iso_week_date(2019, 0, Weekday::Monday), None);
    assert_eq!(Date::from_iso_week_date(2019, 54, Weekday::Monday), None);
    assert_eq!(Date::from_iso_week_date(10_000, 1, Weekday::Monday), None);
    assert_eq!(Date::from_iso_week_date(-10_000, 1, Weekday::Monday), None);
}

#[test]
fn from_iso_week_date_at_the_ends_of_the_range() {
    assert_eq!(
        Date::from_iso_week_date(-9999, 1, Weekday::Monday),
        Some(Date::earliest())
    );
    assert_eq!(
        Date::from_iso_week_date(9999, 52, Weekday::Friday),
        Some(Date::latest())
    );
    assert_eq!(Date::from_iso_week_date(9999, 52, Weekday::Saturday), None);
    assert_eq!(Date::from_iso_week_date(9999, 52, Weekday::Sunday), None);
    assert_eq!(Date::from_iso_week_date(9999, 53, Weekday::Monday), None);
}

#[test]
fn from_iso_week_date_counts_from_the_first_monday() {
    for year in MIN_YEAR..=MAX_YEAR {
        let first = first_day_of_iso_year(year as i64);
        let next = first_day_of_iso_year(year as i64 + 1);
        for week in [0u8, 1, 2, 27, 52, 53, 54] {
            for (offset, weekday) in WEEKDAYS.into_iter().enumerate() {
                let monday = first + 7 * (week as i64 - 1);
                let julian_day = monday + offset as i64;
                let expected = if week >= 1 && monday < next && julian_day <= MAX_JULIAN_DAY as i64
                {
                    Some(julian_day as i32)
                } else {
                    None
                };
                let date = Date::from_iso_week_date(year, week, weekday);
                assert_eq!(date.map(|d| d.to_julian_day()), expected);
            }
        }
    }
}

#[test]
fn iso_week_date_makes_the_round_trip() {
    for julian_day in spread_julian_days() {
        let date = Date::from_julian_day(julian_day).unwrap();
        let (year, week, weekday) = date.to_iso_week_date();
        assert_eq!(Date::from_iso_week_date(year, week, weekday), Some(date));
    }
}
