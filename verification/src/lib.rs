//! Estimates the time that the authors of a repository spent on it, from the
//! times of their commits alone.
//!
//! Commits by one author that follow each other closely form a coding session.
//! A session is credited with the time between its commits, and with a fixed
//! addition for the work that went before its first commit.
//!
//! The way through the library, for one run:
//!
//! - `config` reads the settings from the texts of the command line, with
//!   `time_bound` for the bounds of the time window and `aliases` for the
//!   addresses that stand for one author;
//! - `references` says which references of the repository are looked at;
//! - `filter` keeps the commits that count;
//! - `authors` gathers them author by author, and ranks the authors;
//! - `estimate` turns the commits of one author into sessions and time, which
//!   `breakdown` holds day by day;
//! - `pipeline` does all of it in one call.
//!
//! `stable_sort` holds the order that commits and authors are put in.
//! `calendar`, `pattern` and `text` hold what is asked of other crates and of
//! the standard library; what they answer is taken on trust.
//!
//! The library does not read the clock: the caller gives the day of the run.
pub mod aliases;
pub mod authors;
pub mod breakdown;
pub mod calendar;
pub mod commit;
pub mod config;
pub mod error;
pub mod estimate;
pub mod filter;
pub mod pattern;
pub mod pipeline;
pub mod references;
pub mod stable_sort;
pub mod text;
pub mod time_bound;
