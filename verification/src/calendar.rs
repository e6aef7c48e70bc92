//! Calendar dates, counted in Julian days, and the weeks they fall in.
//!
//! A [`Date`] stands for a day of the proleptic Gregorian calendar between the
//! years -9999 and 9999. It is held as its Julian day number, so that the order
//! of dates is the order of integers and a step of one day is a step of one.
//! What the calendar itself has to say (weekdays, ISO weeks, saturation at the
//! ends of the range) comes from the `time` crate.

use vstd::prelude::*;

verus! {

/// The Julian day of the first representable date, 1 January -9999.
pub const MIN_JULIAN_DAY: i32 = -1_930_999;

/// The Julian day of the last representable date, 31 December 9999.
pub const MAX_JULIAN_DAY: i32 = 5_373_484;

/// The first year with representable dates.
pub const MIN_YEAR: i32 = -9999;

/// The last year with representable dates.
pub const MAX_YEAR: i32 = 9999;

/// A day of the week.
#[derive(Clone, Copy, Debug, PartialEq, Eq, Structural)]
pub enum Weekday {
    Monday,
    Tuesday,
    Wednesday,
    Thursday,
    Friday,
    Saturday,
    Sunday,
}

impl Weekday {
    /// The number of days from the Monday that starts the week to this day.
    pub open spec fn days_from_monday(self) -> int {
        match self {
            Weekday::Monday => 0,
            Weekday::Tuesday => 1,
            Weekday::Wednesday => 2,
            Weekday::Thursday => 3,
            Weekday::Friday => 4,
            Weekday::Saturday => 5,
            Weekday::Sunday => 6,
        }
    }
}

/// Whether `julian_day` is the Julian day of a representable date.
pub open spec fn is_julian_day_of_date(julian_day: int) -> bool {
    MIN_JULIAN_DAY <= julian_day <= MAX_JULIAN_DAY
}

/// The weekday of a Julian day. Julian day 0 was a Monday.
pub open spec fn weekday_of(julian_day: int) -> Weekday {
    let r = julian_day % 7;
    if r == 0 {
        Weekday::Monday
    } else if r == 1 {
        Weekday::Tuesday
    } else if r == 2 {
        Weekday::Wednesday
    } else if r == 3 {
        Weekday::Thursday
    } else if r == 4 {
        Weekday::Friday
    } else if r == 5 {
        Weekday::Saturday
    } else {
        Weekday::Sunday
    }
}

/// The representable Julian day nearest to `julian_day`.
pub open spec fn saturate(julian_day: int) -> int {
    if julian_day < MIN_JULIAN_DAY {
        MIN_JULIAN_DAY as int
    } else if julian_day > MAX_JULIAN_DAY {
        MAX_JULIAN_DAY as int
    } else {
        julian_day
    }
}

/// `time::Date::weekday`, for the date with the given Julian day.
///
/// Trusted: the weekday is the remainder of the Julian day by 7, counted from
/// Monday.
#[verifier::external_body]
fn weekday_of_julian_day(julian_day: i32) -> (weekday: Weekday)
    requires
        is_julian_day_of_date(julian_day as int),
    ensures
        weekday == weekday_of(julian_day as int),
{
    match time::Date::from_julian_day(julian_day).unwrap().weekday() {
        time::Weekday::Monday => Weekday::Monday,
        time::Weekday::Tuesday => Weekday::Tuesday,
        time::Weekday::Wednesday => Weekday::Wednesday,
        time::Weekday::Thursday => Weekday::Thursday,
        time::Weekday::Friday => Weekday::Friday,
        time::Weekday::Saturday => Weekday::Saturday,
        time::Weekday::Sunday => Weekday::Sunday,
    }
}

/// The days of the proleptic Gregorian calendar from 1 January of year 1 to
/// 31 December of the year before `year` (negative where `year` is below 1).
pub open spec fn days_before_year(year: int) -> int {
    let y = year - 1;
    365 * y + y / 4 - y / 100 + y / 400
}

/// The Julian day of 1 January of `year`.
pub open spec fn first_day_of_year(year: int) -> int {
    days_before_year(year) + 1_721_426
}

/// The Julian day on which ISO year `year` begins: the Monday of the week that
/// holds 4 January.
#[verifier::opaque]
pub open spec fn first_day_of_iso_year(year: int) -> int {
    let jan_4 = first_day_of_year(year) + 3;
    jan_4 - jan_4 % 7
}

/// The Julian day of the Monday of week `week` of ISO year `year`.
pub open spec fn first_day_of_iso_week(year: int, week: int) -> int {
    first_day_of_iso_year(year) + 7 * (week - 1)
}

/// Whether ISO year `year` is a year of representable dates and has a week
/// numbered `week`.
pub open spec fn is_iso_week(year: int, week: int) -> bool {
    &&& MIN_YEAR <= year <= MAX_YEAR
    &&& 1 <= week
    &&& first_day_of_iso_week(year, week) < first_day_of_iso_year(year + 1)
}

/// Whether the day `julian_day` lies in week `week` of ISO year `year`.
pub open spec fn in_iso_week(julian_day: int, year: int, week: int) -> bool {
    &&& 1 <= week
    &&& first_day_of_iso_week(year, week) <= julian_day < first_day_of_iso_week(year, week) + 7
    &&& julian_day < first_day_of_iso_year(year + 1)
}

/// The Julian day of the given weekday of week `week` of ISO year `year`.
pub open spec fn iso_week_date_julian_day(year: int, week: int, weekday: Weekday) -> int {
    first_day_of_iso_week(year, week) + weekday.days_from_monday()
}

/// The Julian day of the given weekday of week `week` of ISO year `year`, where
/// the year has such a week and the day is not after the last representable
/// date.
pub open spec fn date_of_iso_week_date(year: int, week: int, weekday: Weekday) -> Option<int> {
    if is_iso_week(year, week) && iso_week_date_julian_day(year, week, weekday)
        <= MAX_JULIAN_DAY {
        Some(iso_week_date_julian_day(year, week, weekday))
    } else {
        None
    }
}

/// `time::Date::saturating_add`, for the date with the given Julian day and a
/// whole number of days.
///
/// Trusted: the result is the date that many days later, or the last or first
/// representable date where that one is out of range.
#[verifier::external_body]
fn julian_day_saturating_add(julian_day: i32, days: i32) -> (sum: i32)
    requires
        is_julian_day_of_date(julian_day as int),
    ensures
        sum == saturate(julian_day + days),
{
    time::Date::from_julian_day(julian_day).unwrap().saturating_add(
        time::Duration::days(days.into()),
    ).to_julian_day()
}

/// `time::Date::saturating_sub`, for the date with the given Julian day and a
/// whole number of days.
///
/// Trusted: the result is the date that many days earlier, or the first or
/// last representable date where that one is out of range.
#[verifier::external_body]
fn julian_day_saturating_sub(julian_day: i32, days: i32) -> (difference: i32)
    requires
        is_julian_day_of_date(julian_day as int),
    ensures
        difference == saturate(julian_day - days),
{
    time::Date::from_julian_day(julian_day).unwrap().saturating_sub(
        time::Duration::days(days.into()),
    ).to_julian_day()
}

/// `time::Date::to_iso_week_date`, for the date with the given Julian day:
/// the ISO year and the number of the week.
///
/// Trusted: the date lies in the week returned, where weeks run from Monday
/// to Sunday and week 1 of an ISO year is the week that holds 4 January.
#[verifier::external_body]
fn iso_week_of_julian_day(julian_day: i32) -> (iso: (i32, u8))
    requires
        is_julian_day_of_date(julian_day as int),
    ensures
        in_iso_week(julian_day as int, iso.0 as int, iso.1 as int),
{
    let (year, week, _) = time::Date::from_julian_day(julian_day).unwrap().to_iso_week_date();
    (year, week)
}

/// `time::Date::from_iso_week_date`, with the date returned as its Julian day.
///
/// Trusted: there is a date exactly when the year is one of representable
/// dates, the ISO year has a week of that number, and the day asked for is not
/// after the last representable date; it is then that day of that week.
#[verifier::external_body]
fn julian_day_of_iso_week_date(year: i32, week: u8, weekday: Weekday) -> (julian_day: Option<i32>)
    ensures
        match julian_day {
            Some(day) => date_of_iso_week_date(year as int, week as int, weekday) == Some(
                day as int,
            ),
            None => date_of_iso_week_date(year as int, week as int, weekday) is None,
        },
{
    let weekday = match weekday {
        Weekday::Monday => time::Weekday::Monday,
        Weekday::Tuesday => time::Weekday::Tuesday,
        Weekday::Wednesday => time::Weekday::Wednesday,
        Weekday::Thursday => time::Weekday::Thursday,
        Weekday::Friday => time::Weekday::Friday,
        Weekday::Saturday => time::Weekday::Saturday,
        Weekday::Sunday => time::Weekday::Sunday,
    };
    match time::Date::from_iso_week_date(year, week, weekday) {
        Ok(date) => Some(date.to_julian_day()),
        Err(_) => None,
    }
}

/// The text in which the date with the given Julian day is written: the year,
/// the month and the day in figures, as `time` prints a date.
pub uninterp spec fn date_text(julian_day: int) -> Seq<char>;

/// `Display` of `time::Date`, for the date with the given Julian day.
///
/// Trusted: the text depends on the date alone. What it is goes by the name
/// [`date_text`].
#[verifier::external_body]
fn julian_day_to_string(julian_day: i32) -> (text: String)
    requires
        is_julian_day_of_date(julian_day as int),
    ensures
        text@ == date_text(julian_day as int),
{
    time::Date::from_julian_day(julian_day).unwrap().to_string()
}

/// ISO years begin in step with calendar years: those from the first year of
/// representable dates on not before the first such date, that year and those
/// before it not after that date, and those after the last year of
/// representable dates after the last such date.
pub proof fn lemma_first_day_of_iso_year_bounds(year: int)
    ensures
        year >= MIN_YEAR ==> first_day_of_iso_year(year) >= MIN_JULIAN_DAY,
        year <= MIN_YEAR ==> first_day_of_iso_year(year) <= MIN_JULIAN_DAY,
        year > MAX_YEAR ==> first_day_of_iso_year(year) > MAX_JULIAN_DAY,
{
    reveal(first_day_of_iso_year);
    let y = year - 1;
    let days = days_before_year(year);
    let jan_4 = first_day_of_year(year) + 3;
    assert(0 <= jan_4 % 7 < 7);
    if year == MIN_YEAR {
        assert(days == -3_652_425);
        assert(jan_4 % 7 == 3);
    } else if year == MAX_YEAR + 1 {
        assert(days == 3_652_059);
        assert(jan_4 % 7 == 1);
    } else if year > MAX_YEAR {
        assert(y / 4 >= 2500 && y / 400 >= 25);
        assert(4 * (y / 4) + 3 >= y && 100 * (y / 100) <= y);
        assert(days >= 3_652_059 + 365);
    } else if year < MIN_YEAR {
        assert(y / 4 <= -2501 && y / 400 <= -26);
        assert(4 * (y / 4) <= y && 100 * (y / 100) + 99 >= y);
        assert(days <= -3_652_425 - 365);
    } else {
        assert(y >= -10_000);
        assert(y / 400 >= -25);
        assert(4 * (y / 4) + 3 >= y && 100 * (y / 100) <= y);
        assert(days >= -3_652_425 + 365);
    }
}

/// The ISO year of a representable date is a year of representable dates.
pub proof fn lemma_iso_year_of_date(julian_day: int, year: int, week: int)
    requires
        is_julian_day_of_date(julian_day),
        in_iso_week(julian_day, year, week),
    ensures
        MIN_YEAR <= year <= MAX_YEAR,
        is_iso_week(year, week),
{
    lemma_first_day_of_iso_year_bounds(year);
    lemma_first_day_of_iso_year_bounds(year + 1);
}

/// No day of a week of an ISO year of representable dates lies before the
/// first representable date.
pub proof fn lemma_iso_week_date_is_not_early(year: int, week: int, weekday: Weekday)
    requires
        is_iso_week(year, week),
    ensures
        MIN_JULIAN_DAY <= iso_week_date_julian_day(year, week, weekday),
{
    lemma_first_day_of_iso_year_bounds(year);
}

/// Every ISO year, and so every ISO week, begins on a Monday.
pub proof fn lemma_iso_week_starts_on_monday(year: int, week: int)
    ensures
        first_day_of_iso_year(year) % 7 == 0,
        first_day_of_iso_week(year, week) % 7 == 0,
{
    reveal(first_day_of_iso_year);
    let jan_4 = first_day_of_year(year) + 3;
    let monday = jan_4 - jan_4 % 7;
    vstd::arithmetic::div_mod::lemma_fundamental_div_mod(jan_4, 7);
    vstd::arithmetic::div_mod::lemma_mod_multiples_vanish(jan_4 / 7, 0, 7);
    assert(monday == 7 * (jan_4 / 7) + 0);
    assert(monday % 7 == 0);
    vstd::arithmetic::div_mod::lemma_mod_multiples_vanish(week - 1, monday, 7);
    assert(first_day_of_iso_week(year, week) == 7 * (week - 1) + monday);
}

/// The ISO week of a day begins on the Monday on or before that day.
pub proof fn lemma_first_day_of_iso_week(julian_day: int, year: int, week: int)
    requires
        in_iso_week(julian_day, year, week),
    ensures
        first_day_of_iso_week(year, week) == julian_day - julian_day % 7,
{
    lemma_iso_week_starts_on_monday(year, week);
    let monday = first_day_of_iso_week(year, week);
    let offset = julian_day - monday;
    vstd::arithmetic::div_mod::lemma_fundamental_div_mod(monday, 7);
    vstd::arithmetic::div_mod::lemma_mod_multiples_vanish(monday / 7, offset, 7);
    assert(julian_day == 7 * (monday / 7) + offset);
    assert(offset % 7 == offset);
}

/// A calendar date between 1 January -9999 and 31 December 9999.
#[derive(Clone, Copy, Debug, PartialEq, Eq, PartialOrd, Ord, Hash, Structural)]
pub struct Date {
    julian_day: i32,
}

impl View for Date {
    type V = int;

    /// The Julian day of the date.
    closed spec fn view(&self) -> int {
        self.julian_day as int
    }
}

impl Date {
    /// Every date is representable.
    #[verifier::type_invariant]
    pub open spec fn is_representable(self) -> bool {
        is_julian_day_of_date(self@)
    }

    /// The date with the given Julian day, if there is one.
    pub fn from_julian_day(julian_day: i32) -> (date: Option<Date>)
        ensures
            date is Some <==> is_julian_day_of_date(julian_day as int),
            date matches Some(d) ==> d@ == julian_day,
    {
        if MIN_JULIAN_DAY <= julian_day && julian_day <= MAX_JULIAN_DAY {
            Some(Date { julian_day })
        } else {
            None
        }
    }

    /// The Julian day of the date.
    pub fn to_julian_day(self) -> (julian_day: i32)
        ensures
            julian_day == self@,
            is_julian_day_of_date(self@),
    {
        proof {
            use_type_invariant(&self);
        }
        self.julian_day
    }

    /// The day of the week on which the date falls.
    pub fn weekday(self) -> (weekday: Weekday)
        ensures
            weekday == weekday_of(self@),
    {
        proof {
            use_type_invariant(&self);
        }
        weekday_of_julian_day(self.julian_day)
    }

    /// The first representable date.
    pub fn earliest() -> (date: Date)
        ensures
            date@ == MIN_JULIAN_DAY,
    {
        Date { julian_day: MIN_JULIAN_DAY }
    }

    /// The last representable date.
    pub fn latest() -> (date: Date)
        ensures
            date@ == MAX_JULIAN_DAY,
    {
        Date { julian_day: MAX_JULIAN_DAY }
    }

    /// The date `days` days after this one, or the nearest representable date.
    pub fn saturating_add_days(self, days: i32) -> (date: Date)
        ensures
            date@ == saturate(self@ + days),
    {
        proof {
            use_type_invariant(&self);
        }
        Date { julian_day: julian_day_saturating_add(self.julian_day, days) }
    }

    /// The date `days` days before this one, or the nearest representable date.
    pub fn saturating_sub_days(self, days: i32) -> (date: Date)
        ensures
            date@ == saturate(self@ - days),
    {
        proof {
            use_type_invariant(&self);
        }
        Date { julian_day: julian_day_saturating_sub(self.julian_day, days) }
    }

    /// The date as text: the year, the month and the day in figures.
    pub fn to_string(&self) -> (text: String)
        ensures
            text@ == date_text(self@),
    {
        proof {
            use_type_invariant(self);
        }
        julian_day_to_string(self.julian_day)
    }

    /// The ISO year, the number of the ISO week and the weekday of the date.
    pub fn to_iso_week_date(self) -> (iso: (i32, u8, Weekday))
        ensures
            in_iso_week(self@, iso.0 as int, iso.1 as int),
            is_iso_week(iso.0 as int, iso.1 as int),
            iso.2 == weekday_of(self@),
    {
        proof {
            use_type_invariant(&self);
        }
        let (year, week) = iso_week_of_julian_day(self.julian_day);
        proof {
            lemma_iso_year_of_date(self@, year as int, week as int);
        }
        (year, week, weekday_of_julian_day(self.julian_day))
    }

    /// The date of the given weekday of week `week` of ISO year `year`, if the
    /// year has such a week and the day is representable.
    pub fn from_iso_week_date(year: i32, week: u8, weekday: Weekday) -> (date: Option<Date>)
        ensures
            match date {
                Some(d) => date_of_iso_week_date(year as int, week as int, weekday) == Some(d@),
                None => date_of_iso_week_date(year as int, week as int, weekday) is None,
            },
    {
        match julian_day_of_iso_week_date(year, week, weekday) {
            Some(julian_day) => {
                proof {
                    lemma_iso_week_date_is_not_early(year as int, week as int, weekday);
                }
                Some(Date { julian_day })
            },
            None => None,
        }
    }
}

} // verus!
