//! The digest itself: the episodes of one week, day by day, and the index of
//! all series.

use crate::calendar::{saturate, Date};
use crate::names::{
    lemma_precedes_irreflexive, lemma_precedes_total, lemma_precedes_transitive, name_precedes,
    precedes,
};
use crate::schedule::{get_week, week_end, week_start};
use crate::the_movie_db::{Episode, Network, TV};
use std::collections::BTreeMap;
use vstd::prelude::*;

verus! {

/// An episode that falls in the week of the digest.
#[derive(Debug, PartialEq)]
pub struct WeeklyEpisode {
    pub series_name: String,
    /// The day on which the episode is expected to be watched.
    pub air_date: Date,
    pub season: u32,
    pub episode: u32,
}

/// What a [`WeeklyEpisode`] holds: the name as text, the date as Julian day.
pub struct WeeklyEpisodeView {
    pub series_name: Seq<char>,
    pub air_date: int,
    pub season: u32,
    pub episode: u32,
}

impl View for WeeklyEpisode {
    type V = WeeklyEpisodeView;

    open spec fn view(&self) -> WeeklyEpisodeView {
        WeeklyEpisodeView {
            series_name: self.series_name@,
            air_date: self.air_date@,
            season: self.season,
            episode: self.episode,
        }
    }
}

/// The line of a series in the index: its name and the days on which its last
/// and its next episode are reported to air.
#[derive(Debug, PartialEq)]
pub struct SeriesSummary {
    pub name: String,
    pub last_air: Option<Date>,
    pub next_air: Option<Date>,
}

/// What a [`SeriesSummary`] holds: the name as text, the dates as Julian days.
pub struct SeriesSummaryView {
    pub name: Seq<char>,
    pub last_air: Option<int>,
    pub next_air: Option<int>,
}

impl View for SeriesSummary {
    type V = SeriesSummaryView;

    open spec fn view(&self) -> SeriesSummaryView {
        SeriesSummaryView {
            name: self.name@,
            last_air: air_day(self.last_air),
            next_air: air_day(self.next_air),
        }
    }
}

/// The Julian day of a date that may be absent.
pub open spec fn air_day(date: Option<Date>) -> Option<int> {
    match date {
        Some(d) => Some(d@),
        None => None,
    }
}

/// The Julian day on which an episode is reported to air, if there is an
/// episode.
pub open spec fn reported_air_day(episode: Option<Episode>) -> Option<int> {
    match episode {
        Some(ep) => Some(ep.air_date@),
        None => None,
    }
}

/// What a list of weekly episodes holds.
pub open spec fn episode_views(episodes: Seq<WeeklyEpisode>) -> Seq<WeeklyEpisodeView> {
    episodes.map_values(|e: WeeklyEpisode| e@)
}

/// What a list of index lines holds.
pub open spec fn summary_views(summaries: Seq<SeriesSummary>) -> Seq<SeriesSummaryView> {
    summaries.map_values(|s: SeriesSummary| s@)
}

/// Whether one of `networks` is among the streaming networks.
pub open spec fn streams(networks: Seq<Network>, streaming_networks: Seq<u32>) -> bool {
    exists|i: int|
        0 <= i < networks.len() && streaming_networks.contains(#[trigger] networks[i].id)
}

/// The day on which an episode is expected to be watched: the day reported for
/// a series that streams; the day after for any other, which is broadcast a
/// day later, but never a day beyond the last representable date.
pub open spec fn effective_air_day(streaming: bool, reported: int) -> int {
    if streaming {
        reported
    } else {
        saturate(reported + 1)
    }
}

/// The entry that an episode of a series makes in a week.
pub open spec fn weekly_episode(
    tv: TV,
    ep: Episode,
    streaming_networks: Seq<u32>,
) -> WeeklyEpisodeView {
    WeeklyEpisodeView {
        series_name: tv.name@,
        air_date: effective_air_day(streams(tv.networks@, streaming_networks), ep.air_date@),
        season: ep.season_number,
        episode: ep.episode_number,
    }
}

/// The entry of an episode that may be absent: one entry or none.
pub open spec fn weekly_episode_slot(
    tv: TV,
    ep: Option<Episode>,
    streaming_networks: Seq<u32>,
) -> Seq<WeeklyEpisodeView> {
    match ep {
        Some(ep) => seq![weekly_episode(tv, ep, streaming_networks)],
        None => Seq::empty(),
    }
}

/// The entries of a series: that of its last episode, then that of its next.
pub open spec fn weekly_episodes(tv: TV, streaming_networks: Seq<u32>) -> Seq<WeeklyEpisodeView> {
    weekly_episode_slot(tv, tv.last_episode_to_air, streaming_networks) + weekly_episode_slot(
        tv,
        tv.next_episode_to_air,
        streaming_networks,
    )
}

/// The line of a series in the index. The dates are those reported: no day is
/// added here.
pub open spec fn series_summary(tv: TV) -> SeriesSummaryView {
    SeriesSummaryView {
        name: tv.name@,
        last_air: reported_air_day(tv.last_episode_to_air),
        next_air: reported_air_day(tv.next_episode_to_air),
    }
}

/// Whether `id` is among `ids`.
fn contains_id(ids: &[u32], id: u32) -> (found: bool)
    ensures
        found == ids@.contains(id),
{
    let mut j: usize = 0;
    while j < ids.len()
        invariant
            j <= ids.len(),
            forall|k: int| 0 <= k < j ==> ids[k] != id,
        decreases ids.len() - j,
    {
        if ids[j] == id {
            return true;
        }
        j += 1;
    }
    false
}

/// Whether the series is distributed on one of the streaming networks.
pub fn is_streaming(tv: &TV, streaming_networks: &[u32]) -> (streaming: bool)
    ensures
        streaming == streams(tv.networks@, streaming_networks@),
{
    let mut i: usize = 0;
    while i < tv.networks.len()
        invariant
            i <= tv.networks.len(),
            forall|k: int| 0 <= k < i ==> !streaming_networks@.contains(tv.networks[k].id),
        decreases tv.networks.len() - i,
    {
        if contains_id(streaming_networks, tv.networks[i].id) {
            return true;
        }
        i += 1;
    }
    false
}

/// The entry that an episode of a series makes in a week.
pub fn to_weekly_episode(tv: &TV, ep: &Episode, streaming_networks: &[u32]) -> (episode:
    WeeklyEpisode)
    ensures
        episode@ == weekly_episode(*tv, *ep, streaming_networks@),
{
    let air_date = if is_streaming(tv, streaming_networks) {
        ep.air_date
    } else {
        ep.air_date.saturating_add_days(1)
    };
    WeeklyEpisode {
        series_name: tv.name.clone(),
        air_date,
        season: ep.season_number,
        episode: ep.episode_number,
    }
}

/// The entries of a series: that of its last episode, then that of its next.
pub fn to_weekly_episodes(tv: &TV, streaming_networks: &[u32]) -> (episodes: Vec<WeeklyEpisode>)
    ensures
        episode_views(episodes@) == weekly_episodes(*tv, streaming_networks@),
        episodes@.len() == weekly_episodes(*tv, streaming_networks@).len(),
        episodes@.len() <= 2,
{
    let mut episodes: Vec<WeeklyEpisode> = Vec::new();
    match &tv.last_episode_to_air {
        Some(ep) => {
            episodes.push(to_weekly_episode(tv, ep, streaming_networks));
        },
        None => {},
    }
    match &tv.next_episode_to_air {
        Some(ep) => {
            episodes.push(to_weekly_episode(tv, ep, streaming_networks));
        },
        None => {},
    }
    episodes
}

/// The line of a series in the index.
pub fn to_serires_summary(tv: &TV) -> (summary: SeriesSummary)
    ensures
        summary@ == series_summary(*tv),
{
    SeriesSummary {
        name: tv.name.clone(),
        last_air: match &tv.last_episode_to_air {
            Some(ep) => Some(ep.air_date),
            None => None,
        },
        next_air: match &tv.next_episode_to_air {
            Some(ep) => Some(ep.air_date),
            None => None,
        },
    }
}

/// The lines of the series `tv`, in the order of the series.
pub open spec fn series_summaries(tv: Seq<TV>) -> Seq<SeriesSummaryView> {
    tv.map_values(|t: TV| series_summary(t))
}

/// The test whether a line of the index bears the name `name`.
pub open spec fn has_name(name: Seq<char>) -> spec_fn(SeriesSummaryView) -> bool {
    |summary: SeriesSummaryView| summary.name == name
}

/// Whether no line comes after a line that its name precedes.
pub open spec fn is_ordered_by_name(index: Seq<SeriesSummaryView>) -> bool {
    forall|i: int, j: int| 0 <= i < j < index.len() ==> !precedes(index[j].name, index[i].name)
}

/// Whether `index` is the index of the series `tv`: the lines of the series,
/// one for each, ordered by name, those of one name in the order in which
/// their series stand in `tv`.
pub open spec fn is_index_of(index: Seq<SeriesSummaryView>, tv: Seq<TV>) -> bool {
    &&& index.len() == tv.len()
    &&& is_ordered_by_name(index)
    &&& forall|name: Seq<char>|
        #[trigger] index.filter(has_name(name)) == series_summaries(tv).filter(has_name(name))
}

/// An index that takes one more line, at a place behind which all lines have
/// later names, is the index of one more series.
proof fn lemma_index_grows(
    index: Seq<SeriesSummaryView>,
    tv: Seq<TV>,
    next: TV,
    position: int,
)
    requires
        is_index_of(index, tv),
        0 <= position <= index.len(),
        is_ordered_by_name(index.insert(position, series_summary(next))),
        forall|k: int|
            position <= k < index.len() ==> precedes(series_summary(next).name, index[k].name),
    ensures
        is_index_of(index.insert(position, series_summary(next)), tv.push(next)),
{
    let line = series_summary(next);
    let grown = index.insert(position, line);
    let front = index.subrange(0, position);
    let back = index.subrange(position, index.len() as int);
    assert(index =~= front + back);
    assert(series_summaries(tv.push(next)) =~= series_summaries(tv).push(line));
    assert forall|name: Seq<char>|
        #[trigger] grown.filter(has_name(name)) == series_summaries(tv.push(next)).filter(
            has_name(name),
        ) by {
        let test = has_name(name);
        Seq::filter_distributes_over_add(front.push(line), back, test);
        Seq::filter_distributes_over_add(front, back, test);
        front.lemma_filter_push(line, test);
        series_summaries(tv).lemma_filter_push(line, test);
        assert(index.filter(test) == series_summaries(tv).filter(test));
        if test(line) {
            assert forall|k: int| 0 <= k < back.len() implies !test(#[trigger] back[k]) by {
                lemma_precedes_irreflexive(name);
            }
            assert(back.all(|summary: SeriesSummaryView| !test(summary)));
            back.lemma_all_neg_filter_empty(test);
            assert(back.filter(test) =~= Seq::empty());
            assert(front.filter(test).push(line) + back.filter(test) =~= (front.filter(test)
                + back.filter(test)).push(line));
        }
    }
}

/// Puts a line into an index that is ordered by name: behind the lines whose
/// names do not come after its own, before all others.
fn insert_summary(index: &mut Vec<SeriesSummary>, summary: SeriesSummary) -> (position: usize)
    requires
        is_ordered_by_name(summary_views(old(index)@)),
    ensures
        position <= old(index)@.len(),
        final(index)@ == old(index)@.insert(position as int, summary),
        is_ordered_by_name(summary_views(final(index)@)),
        forall|k: int|
            position <= k < old(index)@.len() ==> precedes(summary.name@, old(index)@[k].name@),
{
    let mut position: usize = 0;
    while position < index.len() && !name_precedes(
        summary.name.as_str(),
        index[position].name.as_str(),
    )
        invariant
            position <= index.len(),
            forall|k: int| 0 <= k < position ==> !precedes(summary.name@, index@[k].name@),
        decreases index.len() - position,
    {
        position += 1;
    }
    proof {
        let lines = summary_views(index@);
        let name = summary.name@;
        assert forall|k: int| position <= k < index@.len() implies precedes(
            name,
            index@[k].name@,
        ) by {
            let first = lines[position as int].name;
            let other = lines[k].name;
            lemma_precedes_total(name, other);
            if precedes(other, name) {
                lemma_precedes_transitive(other, name, first);
            }
        }
        let grown = summary_views(index@.insert(position as int, summary));
        assert(grown =~= lines.insert(position as int, summary@));
        assert forall|i: int, j: int| 0 <= i < j < grown.len() implies !precedes(
            grown[j].name,
            grown[i].name,
        ) by {
            if i == position {
                let other = lines[j - 1].name;
                assert(grown[i].name == name);
                assert(grown[j] == lines[j - 1]);
                assert(lines[j - 1] == index@[j - 1]@);
                assert(precedes(name, other));
                if precedes(other, name) {
                    lemma_precedes_transitive(name, other, name);
                    lemma_precedes_irreflexive(name);
                }
            } else if j == position {
                assert(grown[j].name == name);
                assert(grown[i] == lines[i]);
                assert(lines[i] == index@[i]@);
                assert(!precedes(name, index@[i].name@));
            } else {
                let before = if i < position { i } else { i - 1 };
                let after = if j < position { j } else { j - 1 };
                assert(grown[i] == lines[before]);
                assert(grown[j] == lines[after]);
                assert(0 <= before < after < lines.len());
                assert(!precedes(lines[after].name, lines[before].name));
            }
        }
    }
    index.insert(position, summary);
    position
}

/// The index of the series: a line for each, ordered by name. Series of one
/// name keep the order in which they stand in `tv`.
pub fn to_all(tv: &[TV]) -> (all: Vec<SeriesSummary>)
    ensures
        is_index_of(summary_views(all@), tv@),
        all@.len() == tv@.len(),
{
    let mut all: Vec<SeriesSummary> = Vec::new();
    proof {
        assert(series_summaries(tv@.take(0)) =~= summary_views(all@));
    }
    for i in 0..tv.len()
        invariant
            is_index_of(summary_views(all@), tv@.take(i as int)),
    {
        let summary = to_serires_summary(&tv[i]);
        let ghost lines = summary_views(all@);
        let position = insert_summary(&mut all, summary);
        proof {
            assert(summary_views(all@) =~= lines.insert(
                position as int,
                series_summary(tv@[i as int]),
            ));
            lemma_index_grows(lines, tv@.take(i as int), tv@[i as int], position as int);
            assert(tv@.take(i + 1) =~= tv@.take(i as int).push(tv@[i as int]));
        }
    }
    proof {
        assert(tv@.take(tv@.len() as int) =~= tv@);
    }
    all
}

/// The order of the entries of one day: by the name of the series, then by
/// season, then by episode.
pub open spec fn episode_precedes(a: WeeklyEpisodeView, b: WeeklyEpisodeView) -> bool {
    ||| precedes(a.series_name, b.series_name)
    ||| a.series_name == b.series_name && a.season < b.season
    ||| a.series_name == b.series_name && a.season == b.season && a.episode < b.episode
}

/// Whether no entry comes after an entry that it precedes.
pub open spec fn is_ordered(episodes: Seq<WeeklyEpisodeView>) -> bool {
    forall|i: int, j: int|
        0 <= i < j < episodes.len() ==> !episode_precedes(episodes[j], episodes[i])
}

/// The test whether an entry falls on the day `day`.
pub open spec fn aired_on(day: int) -> spec_fn(WeeklyEpisodeView) -> bool {
    |episode: WeeklyEpisodeView| episode.air_date == day
}

/// The function from a series to its entries.
pub open spec fn episodes_with(streaming_networks: Seq<u32>) -> spec_fn(TV) -> Seq<
    WeeklyEpisodeView,
> {
    |tv: TV| weekly_episodes(tv, streaming_networks)
}

/// The entries of all the series `tv`, whatever their day.
pub open spec fn week_candidates(tv: Seq<TV>, streaming_networks: Seq<u32>) -> Seq<
    WeeklyEpisodeView,
> {
    tv.flat_map(episodes_with(streaming_networks))
}

/// The entries that a week has on the day `day`: none where it does not list
/// the day.
pub open spec fn day_entries(week: Map<i32, Vec<WeeklyEpisode>>, day: i32) -> Seq<
    WeeklyEpisodeView,
> {
    if week.contains_key(day) {
        episode_views(week[day]@)
    } else {
        Seq::empty()
    }
}

/// Whether `entries` are the entries of the day `day` among `candidates`: all
/// of them, each as often as it is there, and in order.
pub open spec fn is_day_of(
    entries: Seq<WeeklyEpisodeView>,
    candidates: Seq<WeeklyEpisodeView>,
    day: int,
) -> bool {
    &&& is_ordered(entries)
    &&& entries.to_multiset() == candidates.filter(aired_on(day)).to_multiset()
}

/// Whether `week` is the week from `start` to `end` of `candidates`: it lists
/// the days from `start` to `end` on which a candidate falls, and no others,
/// each with its entries.
pub open spec fn is_week_of(
    week: Map<i32, Vec<WeeklyEpisode>>,
    candidates: Seq<WeeklyEpisodeView>,
    start: int,
    end: int,
) -> bool {
    &&& forall|day: i32| #[trigger]
        week.contains_key(day) <==> start <= day <= end && candidates.filter(
            aired_on(day as int),
        ).len() > 0
    &&& forall|day: i32| #[trigger]
        week.contains_key(day) ==> is_day_of(day_entries(week, day), candidates, day as int)
}

/// No entry precedes itself.
pub proof fn lemma_episode_precedes_irreflexive(a: WeeklyEpisodeView)
    ensures
        !episode_precedes(a, a),
{
    lemma_precedes_irreflexive(a.series_name);
}

/// What precedes an entry precedes all that the entry precedes.
pub proof fn lemma_episode_precedes_transitive(
    a: WeeklyEpisodeView,
    b: WeeklyEpisodeView,
    c: WeeklyEpisodeView,
)
    requires
        episode_precedes(a, b),
        episode_precedes(b, c),
    ensures
        episode_precedes(a, c),
{
    if precedes(a.series_name, b.series_name) && precedes(b.series_name, c.series_name) {
        lemma_precedes_transitive(a.series_name, b.series_name, c.series_name);
    }
}

/// Of two entries that differ in name, season or episode, one precedes the
/// other.
pub proof fn lemma_episode_precedes_total(a: WeeklyEpisodeView, b: WeeklyEpisodeView)
    ensures
        episode_precedes(a, b) || episode_precedes(b, a) || (a.series_name == b.series_name
            && a.season == b.season && a.episode == b.episode),
{
    lemma_precedes_total(a.series_name, b.series_name);
}

/// Whether the entry `a` precedes the entry `b`.
fn comes_before(a: &WeeklyEpisode, b: &WeeklyEpisode) -> (before: bool)
    ensures
        before == episode_precedes(a@, b@),
{
    if a.series_name == b.series_name {
        proof {
            lemma_precedes_irreflexive(a.series_name@);
        }
        a.season < b.season || (a.season == b.season && a.episode < b.episode)
    } else {
        name_precedes(a.series_name.as_str(), b.series_name.as_str())
    }
}

/// Puts an entry into the ordered entries of a day, before the first entry
/// that it precedes.
fn insert_episode(episodes: &mut Vec<WeeklyEpisode>, episode: WeeklyEpisode) -> (position: usize)
    requires
        is_ordered(episode_views(old(episodes)@)),
    ensures
        position <= old(episodes)@.len(),
        episode_views(final(episodes)@) == episode_views(old(episodes)@).insert(
            position as int,
            episode@,
        ),
        is_ordered(episode_views(final(episodes)@)),
{
    let mut position: usize = 0;
    while position < episodes.len() && !comes_before(&episode, &episodes[position])
        invariant
            position <= episodes.len(),
            forall|k: int| 0 <= k < position ==> !episode_precedes(episode@, episodes@[k]@),
        decreases episodes.len() - position,
    {
        position += 1;
    }
    proof {
        let entries = episode_views(episodes@);
        let grown = entries.insert(position as int, episode@);
        assert(episode_views(episodes@.insert(position as int, episode)) =~= grown);
        assert forall|i: int, j: int| 0 <= i < j < grown.len() implies !episode_precedes(
            grown[j],
            grown[i],
        ) by {
            if i == position {
                let first = entries[position as int];
                let other = entries[j - 1];
                assert(grown[i] == episode@);
                assert(grown[j] == other);
                assert(first == episodes@[position as int]@);
                assert(episode_precedes(episode@, first));
                if episode_precedes(other, episode@) {
                    lemma_episode_precedes_transitive(other, episode@, first);
                    lemma_episode_precedes_irreflexive(first);
                    assert(j - 1 == position || !episode_precedes(other, first));
                }
            } else if j == position {
                assert(grown[j] == episode@);
                assert(grown[i] == entries[i]);
                assert(entries[i] == episodes@[i]@);
                assert(!episode_precedes(episode@, episodes@[i]@));
            } else {
                let before = if i < position { i } else { i - 1 };
                let after = if j < position { j } else { j - 1 };
                assert(grown[i] == entries[before]);
                assert(grown[j] == entries[after]);
                assert(0 <= before < after < entries.len());
                assert(!episode_precedes(entries[after], entries[before]));
            }
        }
    }
    episodes.insert(position, episode);
    position
}

/// Files an entry under its day, in its place among the entries of that day.
fn add_to_week(week: &mut BTreeMap<i32, Vec<WeeklyEpisode>>, episode: WeeklyEpisode) -> (position:
    usize)
    requires
        forall|day: i32| #[trigger]
            old(week)@.contains_key(day) ==> is_ordered(day_entries(old(week)@, day)),
    ensures
        final(week)@.dom() == old(week)@.dom().insert(episode.air_date@ as i32),
        forall|day: i32|
            day != episode.air_date@ ==> #[trigger] day_entries(final(week)@, day) == day_entries(
                old(week)@,
                day,
            ),
        position <= day_entries(old(week)@, episode.air_date@ as i32).len(),
        day_entries(final(week)@, episode.air_date@ as i32) == day_entries(
            old(week)@,
            episode.air_date@ as i32,
        ).insert(position as int, episode@),
        is_ordered(day_entries(final(week)@, episode.air_date@ as i32)),
{
    let day = episode.air_date.to_julian_day();
    let mut episodes = match week.remove(&day) {
        Some(episodes) => episodes,
        None => Vec::new(),
    };
    assert(episode_views(episodes@) =~= day_entries(old(week)@, day));
    let position = insert_episode(&mut episodes, episode);
    week.insert(day, episodes);
    assert(final(week)@.dom() =~= old(week)@.dom().insert(day));
    position
}

/// A week stays the week of its candidates when a candidate is added that
/// falls on none of its days.
proof fn lemma_week_skips(
    week: Map<i32, Vec<WeeklyEpisode>>,
    candidates: Seq<WeeklyEpisodeView>,
    start: int,
    end: int,
    episode: WeeklyEpisodeView,
)
    requires
        is_week_of(week, candidates, start, end),
        !(start <= episode.air_date <= end),
    ensures
        is_week_of(week, candidates.push(episode), start, end),
{
    assert forall|day: i32|
        candidates.push(episode).filter(aired_on(day as int)) == if episode.air_date == day {
            candidates.filter(aired_on(day as int)).push(episode)
        } else {
            #[trigger] candidates.filter(aired_on(day as int))
        } by {
        candidates.lemma_filter_push(episode, aired_on(day as int));
    }
}

/// A week that files one more candidate under its day, in order, is the week
/// of one more candidate.
proof fn lemma_week_grows(
    week: Map<i32, Vec<WeeklyEpisode>>,
    grown: Map<i32, Vec<WeeklyEpisode>>,
    candidates: Seq<WeeklyEpisodeView>,
    start: int,
    end: int,
    episode: WeeklyEpisodeView,
    day: i32,
    position: int,
)
    requires
        is_week_of(week, candidates, start, end),
        episode.air_date == day,
        start <= day <= end,
        grown.dom() == week.dom().insert(day),
        forall|other: i32|
            other != day ==> #[trigger] day_entries(grown, other) == day_entries(week, other),
        0 <= position <= day_entries(week, day).len(),
        day_entries(grown, day) == day_entries(week, day).insert(position, episode),
        is_ordered(day_entries(grown, day)),
    ensures
        is_week_of(grown, candidates.push(episode), start, end),
{
    assert forall|other: i32|
        candidates.push(episode).filter(aired_on(other as int)) == if other == day {
            candidates.filter(aired_on(other as int)).push(episode)
        } else {
            #[trigger] candidates.filter(aired_on(other as int))
        } by {
        candidates.lemma_filter_push(episode, aired_on(other as int));
    }
    let on_day = candidates.filter(aired_on(day as int));
    let entries = day_entries(week, day);
    if week.contains_key(day) {
        assert(is_day_of(entries, candidates, day as int));
    } else {
        assert(on_day =~= entries);
    }
    vstd::seq_lib::to_multiset_insert(entries, position, episode);
    vstd::seq_lib::to_multiset_build(on_day, episode);
    assert(is_day_of(day_entries(grown, day), candidates.push(episode), day as int));
    assert forall|other: i32| #[trigger] grown.contains_key(other) implies is_day_of(
        day_entries(grown, other),
        candidates.push(episode),
        other as int,
    ) by {
        if other != day {
            assert(week.contains_key(other));
            assert(day_entries(grown, other) == day_entries(week, other));
        }
    }
}

/// The entries of two lists of series, one after the other, are the entries
/// of the first list, then those of the second.
pub proof fn lemma_week_candidates_of_lists(
    front: Seq<TV>,
    back: Seq<TV>,
    streaming_networks: Seq<u32>,
)
    ensures
        week_candidates(front + back, streaming_networks) == week_candidates(
            front,
            streaming_networks,
        ) + week_candidates(back, streaming_networks),
    decreases back.len(),
{
    let entries = episodes_with(streaming_networks);
    if back.len() == 0 {
        assert(front + back =~= front);
        assert(week_candidates(back, streaming_networks) =~= Seq::empty());
        assert(week_candidates(front, streaming_networks) + week_candidates(
            back,
            streaming_networks,
        ) =~= week_candidates(front, streaming_networks));
    } else {
        let rest = back.drop_last();
        let last = back.last();
        lemma_week_candidates_of_lists(front, rest, streaming_networks);
        assert(back =~= rest.push(last));
        assert(front + back =~= (front + rest).push(last));
        (front + rest).lemma_flat_map_push(entries, last);
        rest.lemma_flat_map_push(entries, last);
        assert(week_candidates(front + back, streaming_networks) =~= week_candidates(
            front,
            streaming_networks,
        ) + week_candidates(back, streaming_networks));
    }
}

/// A series without a last and without a next episode has no entry in any
/// week: wherever it stands in a list of series, the entries of the list are
/// the same with it and without it. In the index it has one line, with its
/// name and no date.
pub proof fn lemma_series_without_episodes(
    tv: TV,
    others: Seq<TV>,
    position: int,
    streaming_networks: Seq<u32>,
)
    requires
        tv.last_episode_to_air is None,
        tv.next_episode_to_air is None,
        0 <= position <= others.len(),
    ensures
        weekly_episodes(tv, streaming_networks).len() == 0,
        week_candidates(others.insert(position, tv), streaming_networks) == week_candidates(
            others,
            streaming_networks,
        ),
        series_summary(tv) == (SeriesSummaryView {
            name: tv.name@,
            last_air: None,
            next_air: None,
        }),
        series_summaries(others.insert(position, tv)) == series_summaries(others).insert(
            position,
            series_summary(tv),
        ),
{
    let front = others.subrange(0, position);
    let back = others.subrange(position, others.len() as int);
    assert(others =~= front + back);
    assert(others.insert(position, tv) =~= front.push(tv) + back);
    assert(weekly_episodes(tv, streaming_networks) =~= Seq::empty());
    front.lemma_flat_map_push(episodes_with(streaming_networks), tv);
    assert(week_candidates(front.push(tv), streaming_networks) =~= week_candidates(
        front,
        streaming_networks,
    ));
    lemma_week_candidates_of_lists(front.push(tv), back, streaming_networks);
    lemma_week_candidates_of_lists(front, back, streaming_networks);
    assert(series_summaries(others.insert(position, tv)) =~= series_summaries(others).insert(
        position,
        series_summary(tv),
    ));
}

/// Every day that a week lists lies between the first and the last day of the
/// week and has an entry, and every entry under a day falls on that day.
pub proof fn lemma_week_entries_fall_in_week(
    week: Map<i32, Vec<WeeklyEpisode>>,
    candidates: Seq<WeeklyEpisodeView>,
    start: int,
    end: int,
    day: i32,
)
    requires
        is_week_of(week, candidates, start, end),
        week.contains_key(day),
    ensures
        start <= day <= end,
        week[day]@.len() > 0,
        forall|i: int| 0 <= i < week[day]@.len() ==> (#[trigger] week[day]@[i]).air_date@ == day,
{
    let entries = day_entries(week, day);
    assert(is_day_of(entries, candidates, day as int));
    lemma_day_entries_fall_on_day(entries, candidates, day as int);
    assert forall|i: int| 0 <= i < week[day]@.len() implies (#[trigger] week[day]@[i]).air_date@
        == day by {
        assert(entries[i] == week[day]@[i]@);
    }
}

/// The entries of a day all fall on that day.
pub proof fn lemma_day_entries_fall_on_day(
    entries: Seq<WeeklyEpisodeView>,
    candidates: Seq<WeeklyEpisodeView>,
    day: int,
)
    requires
        entries.to_multiset() == candidates.filter(aired_on(day)).to_multiset(),
    ensures
        entries.len() == candidates.filter(aired_on(day)).len(),
        forall|i: int| 0 <= i < entries.len() ==> (#[trigger] entries[i]).air_date == day,
{
    let on_day = candidates.filter(aired_on(day));
    vstd::seq_lib::to_multiset_len(entries);
    vstd::seq_lib::to_multiset_len(on_day);
    assert forall|i: int| 0 <= i < entries.len() implies (#[trigger] entries[i]).air_date
        == day by {
        let entry = entries[i];
        assert(entries.contains(entry));
        vstd::seq_lib::to_multiset_contains(entries, entry);
        vstd::seq_lib::to_multiset_contains(on_day, entry);
        let j = choose|j: int| 0 <= j < on_day.len() && on_day[j] == entry;
        candidates.lemma_filter_pred(aired_on(day), j);
    }
}

/// Two lists of entries of one day that are both in order and hold the same
/// entries, each as often, are one list.
pub proof fn lemma_ordered_entries_agree(
    entries: Seq<WeeklyEpisodeView>,
    others: Seq<WeeklyEpisodeView>,
    day: int,
)
    requires
        is_ordered(entries),
        is_ordered(others),
        entries.to_multiset() == others.to_multiset(),
        forall|i: int| 0 <= i < entries.len() ==> (#[trigger] entries[i]).air_date == day,
        forall|i: int| 0 <= i < others.len() ==> (#[trigger] others[i]).air_date == day,
    ensures
        entries == others,
    decreases entries.len(),
{
    vstd::seq_lib::to_multiset_len(entries);
    vstd::seq_lib::to_multiset_len(others);
    if entries.len() == 0 {
        assert(entries =~= others);
    } else {
        let end = entries.len() - 1;
        let x = entries[end];
        let y = others[end];
        assert(entries.contains(x));
        assert(others.contains(y));
        vstd::seq_lib::to_multiset_contains(entries, x);
        vstd::seq_lib::to_multiset_contains(others, x);
        vstd::seq_lib::to_multiset_contains(entries, y);
        vstd::seq_lib::to_multiset_contains(others, y);
        let i = choose|i: int| 0 <= i < others.len() && others[i] == x;
        let k = choose|k: int| 0 <= k < entries.len() && entries[k] == y;
        lemma_episode_precedes_irreflexive(x);
        assert(!episode_precedes(y, x)) by {
            if i < end {
                assert(!episode_precedes(others[end], others[i]));
            }
        }
        assert(!episode_precedes(x, y)) by {
            if k < end {
                assert(!episode_precedes(entries[end], entries[k]));
            }
        }
        lemma_episode_precedes_total(x, y);
        assert(x == y);
        vstd::seq_lib::to_multiset_remove(entries, end);
        vstd::seq_lib::to_multiset_remove(others, end);
        assert(entries.remove(end) =~= entries.drop_last());
        assert(others.remove(end) =~= others.drop_last());
        lemma_ordered_entries_agree(entries.drop_last(), others.drop_last(), day);
        assert(entries =~= entries.drop_last().push(x));
        assert(others =~= others.drop_last().push(y));
    }
}

/// The week of a list of candidates is determined: two weeks of them list the
/// same days, and the same entries in the same order under each.
pub proof fn lemma_week_is_determined(
    week: Map<i32, Vec<WeeklyEpisode>>,
    other: Map<i32, Vec<WeeklyEpisode>>,
    candidates: Seq<WeeklyEpisodeView>,
    start: int,
    end: int,
)
    requires
        is_week_of(week, candidates, start, end),
        is_week_of(other, candidates, start, end),
    ensures
        week.dom() == other.dom(),
        forall|day: i32| #[trigger]
            week.contains_key(day) ==> day_entries(week, day) == day_entries(other, day),
{
    assert forall|day: i32| week.contains_key(day) == other.contains_key(day) by {}
    assert(week.dom() =~= other.dom());
    assert forall|day: i32| #[trigger] week.contains_key(day) implies day_entries(week, day)
        == day_entries(other, day) by {
        assert(other.contains_key(day));
        lemma_day_entries_fall_on_day(day_entries(week, day), candidates, day as int);
        lemma_day_entries_fall_on_day(day_entries(other, day), candidates, day as int);
        lemma_ordered_entries_agree(day_entries(week, day), day_entries(other, day), day as int);
    }
}

/// Two lists of lines that are both ordered by name and hold, for each name,
/// the same lines in the same order, are one list.
pub proof fn lemma_ordered_lines_agree(index: Seq<SeriesSummaryView>, other: Seq<SeriesSummaryView>)
    requires
        is_ordered_by_name(index),
        is_ordered_by_name(other),
        index.len() == other.len(),
        forall|name: Seq<char>|
            #[trigger] index.filter(has_name(name)) == other.filter(has_name(name)),
    ensures
        index == other,
    decreases index.len(),
{
    if index.len() == 0 {
        assert(index =~= other);
    } else {
        let end = index.len() - 1;
        let x = index[end];
        let y = other[end];
        let front = index.drop_last();
        let rest = other.drop_last();
        assert(index =~= front.push(x));
        assert(other =~= rest.push(y));
        assert forall|name: Seq<char>|
            index.filter(has_name(name)) == (if x.name == name {
                front.filter(has_name(name)).push(x)
            } else {
                #[trigger] front.filter(has_name(name))
            }) by {
            front.lemma_filter_push(x, has_name(name));
        }
        assert forall|name: Seq<char>|
            other.filter(has_name(name)) == (if y.name == name {
                rest.filter(has_name(name)).push(y)
            } else {
                #[trigger] rest.filter(has_name(name))
            }) by {
            rest.lemma_filter_push(y, has_name(name));
        }
        // A line of the name of `x` stands in `other`, so `y` does not precede it.
        let of_x = other.filter(has_name(x.name));
        assert(of_x == front.filter(has_name(x.name)).push(x));
        assert(of_x[of_x.len() - 1] == x);
        assert(of_x.contains(x));
        other.lemma_filter_contains_rev(has_name(x.name), x);
        let i = choose|i: int| 0 <= i < other.len() && other[i] == x;
        lemma_precedes_irreflexive(x.name);
        assert(!precedes(y.name, x.name)) by {
            if i < end {
                assert(!precedes(other[end].name, other[i].name));
            }
        }
        // And the other way round.
        let of_y = index.filter(has_name(y.name));
        assert(of_y == rest.filter(has_name(y.name)).push(y));
        assert(of_y[of_y.len() - 1] == y);
        assert(of_y.contains(y));
        index.lemma_filter_contains_rev(has_name(y.name), y);
        let k = choose|k: int| 0 <= k < index.len() && index[k] == y;
        assert(!precedes(x.name, y.name)) by {
            if k < end {
                assert(!precedes(index[end].name, index[k].name));
            }
        }
        lemma_precedes_total(x.name, y.name);
        assert(x.name == y.name);
        assert(x == y);
        assert forall|name: Seq<char>|
            #[trigger] front.filter(has_name(name)) == rest.filter(has_name(name)) by {
            let a = front.filter(has_name(name));
            let b = rest.filter(has_name(name));
            assert(index.filter(has_name(name)) == other.filter(has_name(name)));
            if x.name == name {
                assert(a.push(x) == b.push(x));
                assert(a =~= a.push(x).drop_last());
                assert(b =~= b.push(x).drop_last());
            }
        }
        lemma_ordered_lines_agree(front, rest);
    }
}

/// The index of a list of series is determined: two indexes of it are one
/// list.
pub proof fn lemma_index_is_determined(
    index: Seq<SeriesSummaryView>,
    other: Seq<SeriesSummaryView>,
    tv: Seq<TV>,
)
    requires
        is_index_of(index, tv),
        is_index_of(other, tv),
    ensures
        index == other,
{
    lemma_ordered_lines_agree(index, other);
}

/// The episodes of the week of `date`, day by day.
///
/// Each series enters with its last and its next episode, as far as it has
/// them, each on the day on which it is expected to be watched. The week lists
/// the days between its Sunday and its Saturday on which such an episode
/// falls, by Julian day, each with its episodes ordered by the name of the
/// series, then by season and episode.
pub fn to_this_week(date: Date, tv: &[TV], streaming_networks: &[u32]) -> (this_week: BTreeMap<
    i32,
    Vec<WeeklyEpisode>,
>)
    ensures
        is_week_of(
            this_week@,
            week_candidates(tv@, streaming_networks@),
            week_start(date@),
            week_end(date@),
        ),
{
    let (start, end) = get_week(date);
    let first = start.to_julian_day();
    let last = end.to_julian_day();
    let mut this_week: BTreeMap<i32, Vec<WeeklyEpisode>> = BTreeMap::new();
    proof {
        reveal(Seq::filter);
        assert(week_candidates(tv@.take(0), streaming_networks@) =~= Seq::empty());
    }
    for i in 0..tv.len()
        invariant
            first == week_start(date@),
            last == week_end(date@),
            is_week_of(
                this_week@,
                week_candidates(tv@.take(i as int), streaming_networks@),
                first as int,
                last as int,
            ),
    {
        let episodes = to_weekly_episodes(&tv[i], streaming_networks);
        let ghost before = week_candidates(tv@.take(i as int), streaming_networks@);
        let ghost added = episode_views(episodes@);
        let ghost items = episodes@;
        for episode in it: episodes.into_iter()
            invariant
                it.seq() == items,
                added == episode_views(items),
                is_week_of(this_week@, before + added.take(it.index()), first as int, last as int),
        {
            let ghost done = before + added.take(it.index());
            let ghost week = this_week@;
            let day = episode.air_date.to_julian_day();
            proof {
                assert(added.take(it.index() + 1) =~= added.take(it.index()).push(episode@));
                assert(before + added.take(it.index() + 1) =~= done.push(episode@));
            }
            if first <= day && day <= last {
                let ghost shown = episode@;
                let position = add_to_week(&mut this_week, episode);
                proof {
                    lemma_week_grows(
                        week,
                        this_week@,
                        done,
                        first as int,
                        last as int,
                        shown,
                        day,
                        position as int,
                    );
                }
            } else {
                proof {
                    lemma_week_skips(week, done, first as int, last as int, episode@);
                }
            }
        }
        proof {
            let rest = tv@.take(i as int);
            rest.lemma_flat_map_push(episodes_with(streaming_networks@), tv@[i as int]);
            assert(tv@.take(i + 1) =~= rest.push(tv@[i as int]));
            assert(added.take(added.len() as int) =~= added);
        }
    }
    proof {
        assert(tv@.take(tv@.len() as int) =~= tv@);
    }
    this_week
}

/// The digest: the episodes of one week, and the index of all series.
#[derive(Debug)]
pub struct Summary {
    /// The days of the week on which an episode falls, by Julian day, each
    /// with its episodes.
    pub this_week: BTreeMap<i32, Vec<WeeklyEpisode>>,
    /// A line for each series, ordered by name.
    pub all: Vec<SeriesSummary>,
}

impl Summary {
    /// The digest of the series `tv` for the week of `date`.
    pub fn new(date: Date, tv: Vec<TV>, streaming_networks: &[u32]) -> (summary: Summary)
        ensures
            is_week_of(
                summary.this_week@,
                week_candidates(tv@, streaming_networks@),
                week_start(date@),
                week_end(date@),
            ),
            is_index_of(summary_views(summary.all@), tv@),
            summary.all@.len() == tv@.len(),
    {
        Summary {
            this_week: to_this_week(date, tv.as_slice(), streaming_networks),
            all: to_all(tv.as_slice()),
        }
    }
}

} // verus!
