//! The week around a date: from its Sunday to its Saturday.

use crate::calendar::{
    first_day_of_iso_week, lemma_first_day_of_iso_week, saturate, weekday_of, Date, Weekday,
    MAX_JULIAN_DAY, MIN_JULIAN_DAY,
};
use vstd::prelude::*;

verus! {

/// The Julian day of the Sunday on or before the day `julian_day`.
pub open spec fn sunday_on_or_before(julian_day: int) -> int {
    julian_day - (julian_day + 1) % 7
}

/// The first day of the week of `julian_day`: its Sunday, or the first
/// representable date where that Sunday is not representable.
pub open spec fn week_start(julian_day: int) -> int {
    saturate(sunday_on_or_before(julian_day))
}

/// The last day of the week of `julian_day`: its Saturday, or the last
/// representable date where that Saturday is not representable.
pub open spec fn week_end(julian_day: int) -> int {
    saturate(sunday_on_or_before(julian_day) + 6)
}

/// The first and the last day of the week that holds `date`.
///
/// A week runs from Sunday to Saturday. The ISO calendar counts weeks from
/// Monday, so a Sunday is first moved to the Monday after it; the week sought
/// is then the ISO week of that day, moved back by one day. At either end of
/// the range of dates the week is cut short: it starts on the first
/// representable date where its Sunday is not representable, and ends on the
/// last where its Saturday is not. Otherwise it starts on a Sunday, ends on a
/// Saturday and has seven days.
pub fn get_week(date: Date) -> (week: (Date, Date))
    ensures
        week.0@ == week_start(date@),
        week.1@ == week_end(date@),
        week.0@ <= date@ <= week.1@,
        week.0@ <= week.1@,
        week.1@ - week.0@ == 6 || week.0@ == MIN_JULIAN_DAY || week.1@ == MAX_JULIAN_DAY,
        weekday_of(week.0@) == Weekday::Sunday || week.0@ == MIN_JULIAN_DAY,
        weekday_of(week.1@) == Weekday::Saturday || week.1@ == MAX_JULIAN_DAY,
{
    proof {
        use_type_invariant(&date);
    }
    let days: i32 = if date.weekday() == Weekday::Sunday {
        1
    } else {
        0
    };
    let shifted = date.saturating_add_days(days);
    let (year, week, _day) = shifted.to_iso_week_date();
    proof {
        lemma_first_day_of_iso_week(shifted@, year as int, week as int);
        assert(first_day_of_iso_week(year as int, week as int) == sunday_on_or_before(date@) + 1);
    }
    let start = match Date::from_iso_week_date(year, week, Weekday::Monday) {
        Some(monday) => monday.saturating_sub_days(1),
        None => Date::earliest(),
    };
    let end = match Date::from_iso_week_date(year, week, Weekday::Sunday) {
        Some(sunday) => sunday.saturating_sub_days(1),
        None => Date::latest(),
    };
    (start, end)
}

} // verus!
