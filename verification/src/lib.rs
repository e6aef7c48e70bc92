//! A weekly digest of tracked television series.
//!
//! Given a reference date and a list of series, the library works out the
//! Sunday-to-Saturday week around that date, the day on which each episode is
//! expected to be watched, the episodes of that week grouped by day, and an
//! index of all series ordered by name. It writes the result as Markdown.
//!
//! Dates are days of the proleptic Gregorian calendar as the `time` crate
//! counts them; the contracts speak of them by their Julian day.

pub mod calendar;
pub mod markdown;
pub mod names;
pub mod schedule;
pub mod summary;
pub mod the_movie_db;
