//! The digest as Markdown: the episodes of the week under a heading for each
//! day, and a table of all series.

use crate::calendar::{date_text, is_julian_day_of_date, weekday_of, Date, Weekday};
use crate::summary::{
    episode_views, summary_views, SeriesSummary, SeriesSummaryView, Summary, WeeklyEpisode,
    WeeklyEpisodeView,
};
use std::collections::BTreeMap;
use vstd::prelude::*;
use vstd::std_specs::cmp::OrdSpec;
use vstd::std_specs::iter::IteratorSpec;
use vstd::string::StringExecFns;

verus! {

/// The English name of a weekday.
pub open spec fn weekday_name(weekday: Weekday) -> Seq<char> {
    match weekday {
        Weekday::Monday => "Monday"@,
        Weekday::Tuesday => "Tuesday"@,
        Weekday::Wednesday => "Wednesday"@,
        Weekday::Thursday => "Thursday"@,
        Weekday::Friday => "Friday"@,
        Weekday::Saturday => "Saturday"@,
        Weekday::Sunday => "Sunday"@,
    }
}

/// The figure that stands for a number below ten.
pub open spec fn digit_text(digit: nat) -> Seq<char> {
    if digit == 0 {
        "0"@
    } else if digit == 1 {
        "1"@
    } else if digit == 2 {
        "2"@
    } else if digit == 3 {
        "3"@
    } else if digit == 4 {
        "4"@
    } else if digit == 5 {
        "5"@
    } else if digit == 6 {
        "6"@
    } else if digit == 7 {
        "7"@
    } else if digit == 8 {
        "8"@
    } else {
        "9"@
    }
}

/// A number in decimal figures.
pub open spec fn decimal_text(number: nat) -> Seq<char>
    decreases number,
{
    if number < 10 {
        digit_text(number)
    } else {
        decimal_text(number / 10) + digit_text(number % 10)
    }
}

/// A number in at least two decimal figures, the first a zero where the
/// number is below ten.
pub open spec fn two_digit_text(number: nat) -> Seq<char> {
    if number < 10 {
        "0"@ + digit_text(number)
    } else {
        decimal_text(number)
    }
}

/// The line of an episode under the heading of its day.
pub open spec fn episode_line(episode: WeeklyEpisodeView) -> Seq<char> {
    "- "@ + episode.series_name + " S"@ + two_digit_text(episode.season as nat) + "E"@
        + two_digit_text(episode.episode as nat) + "\n"@
}

/// The lines of the episodes of a day, in their order.
pub open spec fn episode_lines(episodes: Seq<WeeklyEpisodeView>) -> Seq<char>
    decreases episodes.len(),
{
    if episodes.len() == 0 {
        Seq::empty()
    } else {
        episode_lines(episodes.drop_last()) + episode_line(episodes.last())
    }
}

/// The heading of a day: its weekday, and its date as written in `date`.
pub open spec fn day_heading(weekday: Weekday, date: Seq<char>) -> Seq<char> {
    "## "@ + weekday_name(weekday) + " ("@ + date + ")\n"@
}

/// The English name of a weekday.
pub fn to_weekday_name(weekday: Weekday) -> (name: &'static str)
    ensures
        name@ == weekday_name(weekday),
{
    match weekday {
        Weekday::Monday => "Monday",
        Weekday::Tuesday => "Tuesday",
        Weekday::Wednesday => "Wednesday",
        Weekday::Thursday => "Thursday",
        Weekday::Friday => "Friday",
        Weekday::Saturday => "Saturday",
        Weekday::Sunday => "Sunday",
    }
}

/// The figure that stands for a number below ten.
fn to_digit(digit: u32) -> (figure: &'static str)
    requires
        digit < 10,
    ensures
        figure@ == digit_text(digit as nat),
{
    if digit == 0 {
        "0"
    } else if digit == 1 {
        "1"
    } else if digit == 2 {
        "2"
    } else if digit == 3 {
        "3"
    } else if digit == 4 {
        "4"
    } else if digit == 5 {
        "5"
    } else if digit == 6 {
        "6"
    } else if digit == 7 {
        "7"
    } else if digit == 8 {
        "8"
    } else {
        "9"
    }
}

/// A number in decimal figures.
pub fn to_decimal(number: u32) -> (text: String)
    ensures
        text@ == decimal_text(number as nat),
    decreases number,
{
    if number < 10 {
        String::from_str(to_digit(number))
    } else {
        let mut text = to_decimal(number / 10);
        text.append(to_digit(number % 10));
        text
    }
}

/// A number in at least two decimal figures.
pub fn to_two_digits(number: u32) -> (text: String)
    ensures
        text@ == two_digit_text(number as nat),
{
    if number < 10 {
        let mut text = String::from_str("0");
        text.append(to_digit(number));
        text
    } else {
        to_decimal(number)
    }
}

/// The line of an episode under the heading of its day.
pub fn to_markdown_episode(episode: &WeeklyEpisode) -> (line: String)
    ensures
        line@ == episode_line(episode@),
{
    let mut line = String::from_str("- ");
    line.append(episode.series_name.as_str());
    line.append(" S");
    line.append(to_two_digits(episode.season).as_str());
    line.append("E");
    line.append(to_two_digits(episode.episode).as_str());
    line.append("\n");
    line
}

/// The heading of a day and the lines of its episodes, where `date` is the
/// date of the day as it is to be written.
pub fn to_markdown_dated(weekday: Weekday, date: &str, eps: &Vec<WeeklyEpisode>) -> (section:
    String)
    ensures
        section@ == day_heading(weekday, date@) + episode_lines(episode_views(eps@)),
{
    let mut output = String::from_str("## ");
    output.append(to_weekday_name(weekday));
    output.append(" (");
    output.append(date);
    output.append(")\n");
    let ghost heading = output@;
    for i in 0..eps.len()
        invariant
            heading == day_heading(weekday, date@),
            output@ == heading + episode_lines(episode_views(eps@).take(i as int)),
    {
        proof {
            let shown = episode_views(eps@);
            assert(shown.take(i + 1).drop_last() =~= shown.take(i as int));
        }
        output.append(to_markdown_episode(&eps[i]).as_str());
    }
    proof {
        assert(episode_views(eps@).take(eps@.len() as int) =~= episode_views(eps@));
    }
    output
}

/// The heading of the day `day` and the lines of its episodes.
pub open spec fn day_section(day: int, episodes: Seq<WeeklyEpisodeView>) -> Seq<char> {
    day_heading(weekday_of(day), date_text(day)) + episode_lines(episodes)
}

/// Whether `days` are the days that `week` lists, each once, in ascending
/// order.
pub open spec fn is_listing_of(days: Seq<i32>, week: Map<i32, Vec<WeeklyEpisode>>) -> bool {
    &&& forall|i: int, j: int| 0 <= i < j < days.len() ==> days[i] < days[j]
    &&& forall|day: i32| days.contains(day) <==> week.contains_key(day)
}

/// The days that `week` lists, each once, in ascending order.
pub open spec fn listing_of(week: Map<i32, Vec<WeeklyEpisode>>) -> Seq<i32> {
    choose|days: Seq<i32>| is_listing_of(days, week)
}

/// The sections of the days `days` of `week`, one after the other. A day that
/// is the Julian day of no date has no section.
pub open spec fn day_sections(days: Seq<i32>, week: Map<i32, Vec<WeeklyEpisode>>) -> Seq<char>
    decreases days.len(),
{
    if days.len() == 0 {
        Seq::empty()
    } else if is_julian_day_of_date(days.last() as int) {
        day_sections(days.drop_last(), week) + day_section(
            days.last() as int,
            episode_views(week[days.last()]@),
        )
    } else {
        day_sections(days.drop_last(), week)
    }
}

/// The section of the week: its title, the sections of its days in ascending
/// order, and an empty line.
pub open spec fn this_week_section(week: Map<i32, Vec<WeeklyEpisode>>) -> Seq<char> {
    "# This Week\n\n"@ + day_sections(listing_of(week), week) + "\n"@
}

/// A row of the table of series.
pub open spec fn table_row(name: Seq<char>, last: Seq<char>, next: Seq<char>) -> Seq<char> {
    "| "@ + name + " | "@ + last + " | "@ + next + " |\n"@
}

/// What the table shows for a date: the date as text, a question mark where
/// there is none.
pub open spec fn air_day_text(day: Option<int>) -> Seq<char> {
    match day {
        Some(day) => date_text(day),
        None => "?"@,
    }
}

/// The row of a series in the table.
pub open spec fn series_row(summary: SeriesSummaryView) -> Seq<char> {
    table_row(summary.name, air_day_text(summary.last_air), air_day_text(summary.next_air))
}

/// The rows of the series, in their order.
pub open spec fn series_rows(all: Seq<SeriesSummaryView>) -> Seq<char>
    decreases all.len(),
{
    if all.len() == 0 {
        Seq::empty()
    } else {
        series_rows(all.drop_last()) + series_row(all.last())
    }
}

/// The table of all series: its title, its head and a row for each series.
pub open spec fn all_table(all: Seq<SeriesSummaryView>) -> Seq<char> {
    "# Currently Watching\n\n"@ + "| Series | Last | Next |\n"@ + "| --- | --- | --- |\n"@
        + series_rows(all)
}

/// The heading of the day `date` and the lines of its episodes.
pub fn to_markdown_day(date: &Date, eps: &Vec<WeeklyEpisode>) -> (section: String)
    ensures
        section@ == day_section(date@, episode_views(eps@)),
{
    to_markdown_dated(date.weekday(), date.to_string().as_str(), eps)
}

/// A row of the table of series.
pub fn to_markdown_row(name: &str, last: &str, next: &str) -> (row: String)
    ensures
        row@ == table_row(name@, last@, next@),
{
    let mut row = String::from_str("| ");
    row.append(name);
    row.append(" | ");
    row.append(last);
    row.append(" | ");
    row.append(next);
    row.append(" |\n");
    row
}

/// What the table shows for a date.
fn to_air_day_text(date: &Option<Date>) -> (text: String)
    ensures
        text@ == air_day_text(crate::summary::air_day(*date)),
{
    match date {
        Some(date) => date.to_string(),
        None => String::from_str("?"),
    }
}

/// The table of all series.
pub fn to_markdown_all_table(all: &Vec<SeriesSummary>) -> (table: String)
    ensures
        table@ == all_table(summary_views(all@)),
{
    let mut output = String::from_str("# Currently Watching\n\n");
    output.append("| Series | Last | Next |\n");
    output.append("| --- | --- | --- |\n");
    let ghost head = output@;
    for i in 0..all.len()
        invariant
            head == "# Currently Watching\n\n"@ + "| Series | Last | Next |\n"@
                + "| --- | --- | --- |\n"@,
            output@ == head + series_rows(summary_views(all@).take(i as int)),
    {
        proof {
            let shown = summary_views(all@);
            assert(shown.take(i + 1).drop_last() =~= shown.take(i as int));
        }
        let series = &all[i];
        let last = to_air_day_text(&series.last_air);
        let next = to_air_day_text(&series.next_air);
        output.append(to_markdown_row(series.name.as_str(), last.as_str(), next.as_str()).as_str());
    }
    proof {
        assert(summary_views(all@).take(all@.len() as int) =~= summary_views(all@));
    }
    output
}

/// A week has one listing of its days only.
pub proof fn lemma_listing_is_unique(
    days: Seq<i32>,
    others: Seq<i32>,
    week: Map<i32, Vec<WeeklyEpisode>>,
)
    requires
        is_listing_of(days, week),
        is_listing_of(others, week),
    ensures
        days == others,
    decreases days.len(),
{
    if days.len() == 0 {
        if others.len() > 0 {
            let day = others[0];
            assert(others.contains(day));
            assert(days.contains(day));
            let i = choose|i: int| 0 <= i < days.len() && days[i] == day;
            assert(false);
        }
        assert(days =~= others);
    } else {
        let last = days.last();
        assert(days.contains(last));
        assert(others.contains(last));
        assert(others.len() > 0);
        assert(others.contains(others.last()));
        assert(days.contains(others.last()));
        assert(others.last() == last);
        let rest = week.remove(last);
        assert forall|day: i32| days.drop_last().contains(day) <==> rest.contains_key(day) by {
            if days.drop_last().contains(day) {
                let i = choose|i: int| 0 <= i < days.len() - 1 && days.drop_last()[i] == day;
                assert(days[i] == day);
                assert(days.contains(day));
            }
            if rest.contains_key(day) {
                assert(days.contains(day));
                let i = choose|i: int| 0 <= i < days.len() && days[i] == day;
                assert(days.drop_last()[i] == day);
            }
        }
        assert forall|day: i32| others.drop_last().contains(day) <==> rest.contains_key(day) by {
            if others.drop_last().contains(day) {
                let i = choose|i: int| 0 <= i < others.len() - 1 && others.drop_last()[i] == day;
                assert(others[i] == day);
                assert(others.contains(day));
            }
            if rest.contains_key(day) {
                assert(others.contains(day));
                let i = choose|i: int| 0 <= i < others.len() && others[i] == day;
                assert(others.drop_last()[i] == day);
            }
        }
        lemma_listing_is_unique(days.drop_last(), others.drop_last(), rest);
        assert(days =~= days.drop_last().push(last));
        assert(others =~= others.drop_last().push(last));
    }
}

/// Days in the increasing order in which a map lists its keys ascend.
proof fn lemma_increasing_days_ascend(days: Seq<i32>)
    requires
        vstd::std_specs::btree::increasing_seq(days),
    ensures
        forall|i: int, j: int| 0 <= i < j < days.len() ==> days[i] < days[j],
{
    assert forall|i: int, j: int| 0 <= i < j < days.len() implies days[i] < days[j] by {
        assert(days[i].cmp_spec(&days[j]) is Less);
    }
}

/// The section of the week: its title, the sections of its days in ascending
/// order, and an empty line.
pub fn to_markdown_this_week(this_week: &BTreeMap<i32, Vec<WeeklyEpisode>>) -> (section: String)
    ensures
        section@ == this_week_section(this_week@),
{
    let mut output = String::from_str("# This Week\n\n");
    let ghost mut days: Seq<i32> = Seq::empty();
    let entries = this_week.iter();
    proof {
        let listed = entries.remaining().map_values(|kv: (&i32, &Vec<WeeklyEpisode>)| *kv.0);
        lemma_increasing_days_ascend(listed);
        assert forall|i: int, j: int| 0 <= i < j < entries.remaining().len() implies *(
        #[trigger] entries.remaining()[i]).0 < *(#[trigger] entries.remaining()[j]).0 by {
            assert(listed[i] == *entries.remaining()[i].0);
            assert(listed[j] == *entries.remaining()[j].0);
        }
    }
    for entry in it: entries
        invariant
            forall|i: int|
                0 <= i < it.seq().len() ==> this_week@.contains_key(*(#[trigger] it.seq()[i]).0)
                    && this_week@[*it.seq()[i].0] == *it.seq()[i].1,
            forall|i: int, j: int|
                0 <= i < j < it.seq().len() ==> *(#[trigger] it.seq()[i]).0 < *(
                #[trigger] it.seq()[j]).0,
            forall|day: i32|
                this_week@.contains_key(day) ==> exists|i: int|
                    0 <= i < it.seq().len() && *(#[trigger] it.seq()[i]).0 == day,
            days.len() == it.index(),
            forall|i: int|
                #![trigger days[i]]
                #![trigger it.seq()[i]]
                0 <= i < days.len() ==> days[i] == *it.seq()[i].0,
            output@ == "# This Week\n\n"@ + day_sections(days, this_week@),
    {
        let (day, eps) = entry;
        proof {
            assert(days.push(*day).drop_last() =~= days);
        }
        match Date::from_julian_day(*day) {
            Some(date) => {
                output.append(to_markdown_day(&date, eps).as_str());
            },
            None => {},
        }
        proof {
            days = days.push(*day);
        }
    }
    proof {
        assert forall|i: int, j: int| 0 <= i < j < days.len() implies days[i] < days[j] by {}
        assert forall|day: i32| days.contains(day) implies this_week@.contains_key(day) by {
            let i = choose|i: int| 0 <= i < days.len() && days[i] == day;
        }
        assert forall|day: i32| this_week@.contains_key(day) implies days.contains(day) by {}
        assert(is_listing_of(days, this_week@));
        lemma_listing_is_unique(days, listing_of(this_week@), this_week@);
    }
    output.append("\n");
    output
}

/// The digest as Markdown: the section of the week, then the table of all
/// series.
pub fn to_markdown_github(summary: &Summary) -> (text: String)
    ensures
        text@ == this_week_section(summary.this_week@) + all_table(summary_views(summary.all@)),
{
    let mut output = String::new();
    output.append(to_markdown_this_week(&summary.this_week).as_str());
    output.append(to_markdown_all_table(&summary.all).as_str());
    output
}

} // verus!
