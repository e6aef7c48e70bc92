//! Series, episodes and networks, in the shape in which The Movie Database
//! reports them.

use crate::calendar::Date;
use vstd::prelude::*;

verus! {

/// A television series.
#[derive(Debug, Eq, PartialEq)]
pub struct TV {
    pub id: u32,
    pub name: String,
    pub last_episode_to_air: Option<Episode>,
    pub next_episode_to_air: Option<Episode>,
    pub networks: Vec<Network>,
}

/// An episode of a series.
#[derive(Debug, Eq, PartialEq)]
pub struct Episode {
    /// The day on which the episode is reported to air.
    pub air_date: Date,
    pub episode_number: u32,
    pub id: u32,
    pub name: String,
    pub overview: String,
    pub season_number: u32,
    pub runtime: Option<u32>,
}

/// A network that distributes a series.
#[derive(Debug, Eq, PartialEq)]
pub struct Network {
    pub id: u32,
    pub name: String,
}

} // verus!
