//! A whole run: from the commits of the repository and the settings to the
//! authors with their time, and the exit code.
use vstd::prelude::*;
use crate::authors::{
    author_count,
    authors_seen,
    commit_total,
    commits_of,
    estimate_author_times,
    estimates,
    gathered_under,
    get_totals,
    lemma_seen_iff_gathered,
    minute_total,
    of_author,
};
use crate::calendar::{
    local_offset_at_midnight,
    utc_midnight,
    utc_midnight_of,
    CalendarDate,
    MAX_TIMESTAMP,
    MIN_TIMESTAMP,
};
use crate::commit::{all_datable, check_datable, CommitRecord};
use crate::config::{to_config, rejects, Arguments, BranchType, Config};
use crate::error::{Error, ErrorKind};
use crate::estimate::CommitHours;
use crate::filter::{filter_between, kept};
use crate::stable_sort::ordered;
use crate::text::enclose;
use crate::time_bound::{day_error_text, CommitTimeBound};

verus! {

/// What a run gives.
#[derive(Clone, Debug, PartialEq, Eq)]
pub struct Report {
    /// 0 where some author has commits that count, else 1.
    pub exit_code: i32,
    /// The authors with their time, the longest first.
    pub authors: Vec<CommitHours>,
    /// What to tell the user where no commit counts.
    pub notice: Option<String>,
    /// The whole minutes of all the authors together.
    pub total_minutes: u128,
    /// The commits of all the authors together.
    pub total_commits: usize,
}

/// The message for a bound whose day does not begin at one moment in the
/// time zone of the machine, or begins outside the calendar.
pub open spec fn midnight_error_text(bound: Seq<char>) -> Seq<char> {
    "Could not find the first moment of '"@ + bound + "'"@
}

/// The message for a commit that counts and has no day.
pub open spec fn timestamp_error_text() -> Seq<char> {
    "A commit was made at a time that the calendar does not hold"@
}

/// The second at which a day begins where the clocks are `offset` seconds
/// ahead of UTC, the day beginning at the second `midnight` in UTC: none
/// where that second lies outside the calendar.
pub open spec fn moment_at(midnight: i64, offset: i32) -> Option<i64> {
    if MIN_TIMESTAMP <= midnight - offset <= MAX_TIMESTAMP {
        Some((midnight - offset) as i64)
    } else {
        None
    }
}

/// Whether `moment` can be the second at which `day` begins somewhere: it
/// lies less than a day from the second at which the day begins in UTC.
pub open spec fn begins_day(moment: i64, day: (i32, u32, u32)) -> bool {
    utc_midnight(day.0, day.1, day.2) - 86400 < moment < utc_midnight(day.0, day.1, day.2) + 86400
}

/// Whether `moment` can be the moment of `bound` when the run is on the day
/// `today`: none where there is no bound; else a second of the calendar at
/// which the day of the bound begins somewhere.
pub open spec fn moment_of(bound: CommitTimeBound, today: CalendarDate, moment: Option<i64>) -> bool {
    match moment {
        None => bound == CommitTimeBound::Always,
        Some(s) => {
            &&& bound.resolved(today) matches Some(Some(day)) && begins_day(s, day)
            &&& MIN_TIMESTAMP <= s <= MAX_TIMESTAMP
        },
    }
}

/// Whether `e` can be the error for the moment of `bound` when the run is on
/// the day `today`: the error of `to_date_time` where the calendar has no
/// day for the bound; else, for a bound that has a day, the message that the
/// day does not begin at one moment of the calendar in the time zone of the
/// machine.
pub open spec fn fails_with(bound: CommitTimeBound, today: CalendarDate, e: Error) -> bool {
    &&& e.0 is Calendar
    &&& match bound.resolved(today) {
        None => e.text() == day_error_text(bound.text()),
        Some(Some(_)) => e.text() == midnight_error_text(bound.text()),
        Some(None) => false,
    }
}

/// The second at which a day begins where the clocks are `offset` seconds
/// ahead of UTC, if it lies in the calendar.
pub fn moment_of_day(midnight: i64, offset: i32) -> (moment: Option<i64>)
    ensures
        moment == moment_at(midnight, offset),
{
    let moment: i128 = (midnight as i128) - (offset as i128);
    if (MIN_TIMESTAMP as i128) <= moment && moment <= (MAX_TIMESTAMP as i128) {
        Some(moment as i64)
    } else {
        None
    }
}

/// The moment of a bound when the run is on the day `today`: the first
/// second of the day of the bound in the time zone of the machine, counted
/// from the start of 1970 in UTC.
pub fn local_bound(bound: &CommitTimeBound, today: CalendarDate) -> (moment: Result<Option<i64>, Error>)
    requires
        bound.well_formed(),
        today.is_valid(),
    ensures
        match moment {
            Ok(m) => moment_of(*bound, today, m),
            Err(e) => fails_with(*bound, today, e),
        },
{
    match bound.to_date_time(today) {
        Ok(Some(day)) => {
            let midnight = utc_midnight_of(day);
            let moment = match local_offset_at_midnight(day) {
                Some(offset) => moment_of_day(midnight, offset),
                None => None,
            };
            match moment {
                Some(seconds) => Ok(Some(seconds)),
                None => {
                    let text = bound.to_string();
                    Err(
                        Error(
                            ErrorKind::Calendar(enclose("Could not find the first moment of '", text.as_str(), "'")),
                        ),
                    )
                },
            }
        },
        Ok(None) => Ok(None),
        Err(e) => Err(e),
    }
}

/// Whether `since` and `until` can be the moments of the time window of
/// `config` when the run is on the day `today`.
pub open spec fn window_of(config: &Config, today: CalendarDate, since: Option<i64>, until: Option<i64>) -> bool {
    moment_of(config.since, today, since) && moment_of(config.until, today, until)
}

/// Whether `e` can be the error for the time window of `config` when the run
/// is on the day `today`: that of the first bound that has no moment.
pub open spec fn window_fails_with(config: &Config, today: CalendarDate, e: Error) -> bool {
    ||| fails_with(config.since, today, e)
    ||| (exists|since: Option<i64>| #[trigger] moment_of(config.since, today, since)) && fails_with(
        config.until,
        today,
        e,
    )
}

/// Keeps the commits that count by the settings when the run is on the day
/// `today`: those inside the time window, and merges only where they are
/// asked for. The moments of the window depend on the time zone of the
/// machine.
pub fn filter_commits(config: &Config, commits: Vec<CommitRecord>, today: CalendarDate) -> (out: Result<
    Vec<CommitRecord>,
    Error,
>)
    requires
        config.well_formed(),
        today.is_valid(),
    ensures
        match out {
            Ok(v) => exists|since: Option<i64>, until: Option<i64>|
                window_of(config, today, since, until) && v@ == #[trigger] kept(
                    commits@,
                    since,
                    until,
                    config.merge_requests,
                ),
            Err(e) => window_fails_with(config, today, e),
        },
{
    let since = match local_bound(&config.since, today) {
        Ok(moment) => moment,
        Err(e) => {
            return Err(e);
        },
    };
    let until = match local_bound(&config.until, today) {
        Ok(moment) => moment,
        Err(e) => {
            proof {
                assert(moment_of(config.since, today, since));
            }
            return Err(e);
        },
    };
    Ok(filter_between(commits, since, until, config.merge_requests))
}

/// The message where no commit counts.
pub open spec fn empty_notice(config: &Config) -> Seq<char> {
    match config.branch {
        Some(branch) => "No commits found for branch '"@ + branch@ + "' ("@ + (match config.branch_type {
            BranchType::Local => "local"@,
            BranchType::Remote => "remote"@,
        }) + ")."@,
        None => "No commits found."@,
    }
}

impl Report {
    /// Whether this is the report on `counted`, the commits that count:
    /// the estimate for each author, the authors ranked, their totals, and
    /// exit code 1 with a notice where there is no author.
    pub open spec fn answers(&self, config: &Config, counted: Seq<CommitRecord>) -> bool {
        &&& exists|unranked: Seq<CommitHours>|
            self.authors@ == ordered(unranked) && #[trigger] estimates(
                unranked,
                counted,
                config.email_aliases@,
                config.max_commit_diff,
                config.first_commit_addition,
            )
        &&& self.authors@.len() == author_count(counted, config.email_aliases@)
        &&& self.total_minutes == minute_total(self.authors@)
        &&& self.total_commits == commit_total(self.authors@)
        &&& self.total_commits == counted.len()
        &&& self.exit_code == if counted.len() == 0 {
            1i32
        } else {
            0i32
        }
        &&& match self.notice {
            Some(text) => counted.len() == 0 && text@ == empty_notice(config),
            None => counted.len() > 0,
        }
    }
}

/// There is an author exactly where there is a commit.
pub proof fn lemma_no_authors(commits: Seq<CommitRecord>, aliases: Map<Seq<char>, Seq<char>>)
    ensures
        author_count(commits, aliases) == 0 <==> commits.len() == 0,
{
    if commits.len() == 0 {
        assert(commits_of(commits, aliases, None).len() == 0) by {
            commits.lemma_filter_len(of_author(aliases, None));
        }
    } else {
        let first = commits[0];
        match gathered_under(first, aliases) {
            Some(email) => {
                commits.lemma_filter_contains(of_author(aliases, Some(email)), 0);
                assert(commits_of(commits, aliases, Some(email)).len() > 0);
                lemma_seen_iff_gathered(commits, aliases, email);
                assert(authors_seen(commits, aliases).len() > 0);
            },
            None => {
                commits.lemma_filter_contains(of_author(aliases, None), 0);
                assert(commits_of(commits, aliases, None).len() > 0);
            },
        }
    }
}

/// Whether `report` is what `summarize` gives for the commits between two
/// moments: the report on the commits that count where each of them has a
/// day, else the error of the kind `Timestamp`.
pub open spec fn sums_to(
    config: &Config,
    commits: Seq<CommitRecord>,
    since: Option<i64>,
    until: Option<i64>,
    report: Result<Report, Error>,
) -> bool {
    let counted = kept(commits, since, until, config.merge_requests);
    match report {
        Ok(r) => all_datable(counted) && r.answers(config, counted),
        Err(e) => !all_datable(counted) && e.0 is Timestamp && e.text() == timestamp_error_text(),
    }
}

/// Estimates the time of every author from the commits between two
/// moments. A commit that counts and was made at a time that the calendar
/// does not hold is an error.
pub fn summarize(config: &Config, commits: Vec<CommitRecord>, since: Option<i64>, until: Option<i64>) -> (report:
    Result<Report, Error>)
    ensures
        sums_to(config, commits@, since, until, report),
{
    let ghost counted = kept(commits@, since, until, config.merge_requests);
    let filtered = filter_between(commits, since, until, config.merge_requests);
    if !check_datable(&filtered) {
        return Err(
            Error(
                ErrorKind::Timestamp(String::from_str("A commit was made at a time that the calendar does not hold")),
            ),
        );
    }
    proof {
        lemma_no_authors(counted, config.email_aliases@);
    }
    assert(filtered@.len() <= usize::MAX) by {
        assert(filtered@.len() == filtered.len());
    }
    let authors = estimate_author_times(config, filtered);
    let (total_minutes, total_commits) = get_totals(&authors);
    if authors.len() == 0 {
        let notice = match &config.branch {
            Some(branch) => {
                let kind = match config.branch_type {
                    BranchType::Local => "local",
                    BranchType::Remote => "remote",
                };
                let mut text = enclose("No commits found for branch '", branch.as_str(), "' (");
                text.append(kind);
                text.append(").");
                text
            },
            None => String::from_str("No commits found."),
        };
        Ok(Report { exit_code: 1, authors, notice: Some(notice), total_minutes, total_commits })
    } else {
        Ok(Report { exit_code: 0, authors, notice: None, total_minutes, total_commits })
    }
}

/// Whether `report` can be what `jikyuu` gives for the settings and the
/// commits when the run is on the day `today`: the error of the first bound
/// that has no moment, or what `summarize` gives for two moments that the
/// time window of the settings can have.
pub open spec fn runs_to(
    config: &Config,
    today: CalendarDate,
    commits: Seq<CommitRecord>,
    report: Result<Report, Error>,
) -> bool {
    ||| report matches Err(e) && window_fails_with(config, today, e)
    ||| exists|since: Option<i64>, until: Option<i64>|
        window_of(config, today, since, until) && #[trigger] sums_to(config, commits, since, until, report)
}

/// A run on the commits of the repository, on the day `today`: keeps the
/// commits that count, estimates the time of every author, and ranks the
/// authors.
pub fn jikyuu(config: &Config, commits: Vec<CommitRecord>, today: CalendarDate) -> (report: Result<Report, Error>)
    requires
        config.well_formed(),
        today.is_valid(),
    ensures
        runs_to(config, today, commits@, report),
{
    let since = match local_bound(&config.since, today) {
        Ok(moment) => moment,
        Err(e) => {
            return Err(e);
        },
    };
    let until = match local_bound(&config.until, today) {
        Ok(moment) => moment,
        Err(e) => {
            proof {
                assert(moment_of(config.since, today, since));
            }
            return Err(e);
        },
    };
    let report = summarize(config, commits, since, until);
    proof {
        assert(window_of(config, today, since, until));
        assert(sums_to(config, commits@, since, until, report));
    }
    report
}

/// A run from the texts of the command line, on the day `today`: reads the
/// settings, then runs on the commits.
pub fn run_app(args: Arguments, commits: Vec<CommitRecord>, today: CalendarDate) -> (report: Result<Report, Error>)
    requires
        today.is_valid(),
    ensures
        (report matches Err(e) && rejects(args, e)) || exists|config: Config|
            config.reads(args) && config.well_formed() && #[trigger] runs_to(&config, today, commits@, report),
{
    let config = match to_config(args) {
        Ok(config) => config,
        Err(e) => {
            return Err(e);
        },
    };
    let report = jikyuu(&config, commits, today);
    proof {
        assert(runs_to(&config, today, commits@, report));
    }
    report
}

} // verus!
