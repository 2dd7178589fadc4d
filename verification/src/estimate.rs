//! The estimate of the time of one author, from the moments of the commits.
//!
//! Commits follow each other in sessions. A commit that comes less than the
//! largest gap after the one before it continues the session, and the time
//! between the two is credited to the day on which the session began. Any other
//! commit begins a session, and a fixed addition is credited to its own day.
use vstd::prelude::*;
use crate::breakdown::Breakdown;
use crate::calendar::{utc_day, utc_day_of};
use crate::commit::{all_datable, copy_text, moments, CommitRecord};
use crate::stable_sort::{
    lemma_ordered_is_sorted,
    lemma_ordered_len,
    lemma_ordered_permutes,
    ordered,
    rank_less,
    sort_stably,
    Ranked,
};

verus! {

/// Whether the commit at `i` begins a session: it is the first commit, or it
/// comes `max_gap` seconds or more after the commit before it.
pub open spec fn opens_session(times: Seq<i64>, i: int, max_gap: int) -> bool {
    i <= 0 || times[i] - times[i - 1] >= max_gap
}

/// The place of the commit that began the session of the commit at `i`.
pub open spec fn session_opening(times: Seq<i64>, i: int, max_gap: int) -> int
    decreases i,
{
    if i <= 0 {
        0
    } else if opens_session(times, i, max_gap) {
        i
    } else {
        session_opening(times, i - 1, max_gap)
    }
}

/// The day to which the commit at `i` credits its time: the day, in UTC, on
/// which its session began.
pub open spec fn session_day(times: Seq<i64>, i: int, max_gap: int) -> Seq<char> {
    utc_day(times[session_opening(times, i, max_gap)])
}

/// The seconds that the commit at `i` adds: the addition where it begins a
/// session, else the time since the commit before it.
pub open spec fn credit(times: Seq<i64>, i: int, max_gap: int, addition: int) -> int {
    if opens_session(times, i, max_gap) {
        addition
    } else {
        times[i] - times[i - 1]
    }
}

/// The seconds that the first `n` commits credit to `day`.
pub open spec fn time_on_day(times: Seq<i64>, n: int, day: Seq<char>, max_gap: int, addition: int) -> int
    decreases n,
{
    if n <= 0 {
        0
    } else {
        time_on_day(times, n - 1, day, max_gap, addition) + if session_day(times, n - 1, max_gap) == day {
            credit(times, n - 1, max_gap, addition)
        } else {
            0
        }
    }
}

/// The seconds that the first `n` commits credit in all.
pub open spec fn total_time(times: Seq<i64>, n: int, max_gap: int, addition: int) -> int
    decreases n,
{
    if n <= 0 {
        0
    } else {
        total_time(times, n - 1, max_gap, addition) + credit(times, n - 1, max_gap, addition)
    }
}

/// Whether the commit at `i` begins a session on `day`.
pub open spec fn opens_on(times: Seq<i64>, i: int, max_gap: int, day: Seq<char>) -> bool {
    opens_session(times, i, max_gap) && utc_day(times[i]) == day
}

/// The days on which a session of the first `n` commits began.
pub open spec fn session_days(times: Seq<i64>, n: int, max_gap: int) -> Set<Seq<char>> {
    Set::new(|day: Seq<char>| exists|i: int| 0 <= i < n && #[trigger] opens_on(times, i, max_gap, day))
}

/// Whether the moments never go back in time.
pub open spec fn chronological(times: Seq<i64>) -> bool {
    forall|i: int, j: int| 0 <= i <= j < times.len() ==> times[i] <= times[j]
}

/// The characters of a text that may be absent.
pub open spec fn text_of(text: Option<String>) -> Option<Seq<char>> {
    match text {
        Some(t) => Some(t@),
        None => None,
    }
}

/// The estimate for one author.
#[derive(Clone, Debug, PartialEq, Eq)]
pub struct CommitHours {
    /// The email address under which the commits were gathered, if any.
    pub email: Option<String>,
    /// The name of the author of the first commit in time, if it gives one.
    pub author_name: Option<String>,
    /// The estimated time, day by day.
    pub breakdown: Breakdown,
    /// The estimated time in all, in seconds.
    pub duration: u128,
    /// The number of commits.
    pub commit_count: usize,
}

impl CommitHours {
    /// Whether the days are distinct, their times add up to the duration,
    /// there is a commit, and no commit stands for more time than 64 bits of
    /// seconds.
    pub open spec fn well_formed(&self) -> bool {
        &&& self.breakdown.well_formed()
        &&& self.breakdown.total() == self.duration
        &&& self.commit_count >= 1
        &&& self.duration <= self.commit_count * u64::MAX
    }

    /// Whether the estimate is well formed.
    pub fn check(&self) -> (valid: bool)
        ensures
            valid == self.well_formed(),
    {
        if !self.breakdown.check() || self.commit_count < 1 {
            return false;
        }
        let limit: u128 = (self.commit_count as u128) * (u64::MAX as u128);
        match self.breakdown.sum() {
            Some(total) => total == self.duration && self.duration <= limit,
            None => false,
        }
    }

    /// The address under which the commits were gathered, as characters.
    pub open spec fn identity(&self) -> Option<Seq<char>> {
        text_of(self.email)
    }

    /// Whether this is the estimate for `commits`, which stand in the order of
    /// their time, gathered under `email`.
    pub open spec fn describes(
        &self,
        commits: Seq<CommitRecord>,
        email: Option<Seq<char>>,
        max_gap: u64,
        addition: u64,
    ) -> bool {
        let times = moments(commits);
        let n = commits.len() as int;
        &&& self.identity() == email
        &&& self.author_name == commits[0].author_name
        &&& self.commit_count == n
        &&& self.duration == total_time(times, n, max_gap as int, addition as int)
        &&& self.breakdown@.dom() == session_days(times, n, max_gap as int)
        &&& forall|day: Seq<char>| #[trigger]
            self.breakdown.time_on(day) == time_on_day(times, n, day, max_gap as int, addition as int)
    }
}

/// What one more commit adds to the days on which a session began: its own
/// day where it begins a session, else nothing.
pub proof fn lemma_session_days_step(times: Seq<i64>, n: int, max_gap: int)
    requires
        0 <= n,
    ensures
        session_days(times, n + 1, max_gap) == if opens_session(times, n, max_gap) {
            session_days(times, n, max_gap).insert(utc_day(times[n]))
        } else {
            session_days(times, n, max_gap)
        },
{
    let before = session_days(times, n, max_gap);
    let after = session_days(times, n + 1, max_gap);
    assert forall|d: Seq<char>| before.contains(d) implies after.contains(d) by {
        let i = choose|i: int| 0 <= i < n && #[trigger] opens_on(times, i, max_gap, d);
        assert(0 <= i < n + 1 && opens_on(times, i, max_gap, d));
    }
    assert forall|d: Seq<char>| after.contains(d) implies before.contains(d) || (opens_session(times, n, max_gap)
        && d == utc_day(times[n])) by {
        let i = choose|i: int| 0 <= i < n + 1 && #[trigger] opens_on(times, i, max_gap, d);
        if i < n {
            assert(0 <= i < n && opens_on(times, i, max_gap, d));
        }
    }
    if opens_session(times, n, max_gap) {
        assert(opens_on(times, n, max_gap, utc_day(times[n])));
        assert(after =~= before.insert(utc_day(times[n])));
    } else {
        assert(after =~= before);
    }
}

/// A day on which no session began is credited nothing.
pub proof fn lemma_only_session_days_credited(times: Seq<i64>, n: int, day: Seq<char>, max_gap: int, addition: int)
    requires
        0 <= n,
        !session_days(times, n, max_gap).contains(day),
    ensures
        time_on_day(times, n, day, max_gap, addition) == 0,
    decreases n,
{
    if n > 0 {
        lemma_session_days_step(times, n - 1, max_gap);
        lemma_only_session_days_credited(times, n - 1, day, max_gap, addition);
        lemma_session_opening(times, n - 1, max_gap);
        let o = session_opening(times, n - 1, max_gap);
        if utc_day(times[o]) == day {
            assert(0 <= o < n && opens_on(times, o, max_gap, day));
        }
    }
}

/// A session began at the commit that `session_opening` gives, which is not
/// later than the commit asked for.
pub proof fn lemma_session_opening(times: Seq<i64>, i: int, max_gap: int)
    requires
        0 <= i,
    ensures
        0 <= session_opening(times, i, max_gap) <= i,
        opens_session(times, session_opening(times, i, max_gap), max_gap),
    decreases i,
{
    if i > 0 && !opens_session(times, i, max_gap) {
        lemma_session_opening(times, i - 1, max_gap);
    }
}

/// Whether the commits stand in the order of their time.
pub fn check_chronological(commits: &Vec<CommitRecord>) -> (in_order: bool)
    ensures
        in_order == chronological(moments(commits@)),
{
    let ghost times = moments(commits@);
    let mut i: usize = 1;
    while i < commits.len()
        invariant
            1 <= i,
            times == moments(commits@),
            forall|a: int, b: int| 0 <= a <= b < i && b < times.len() ==> times[a] <= times[b],
        decreases commits.len() - i,
    {
        assert(times[i as int] == commits@[i as int].timestamp && times[i - 1] == commits@[i - 1].timestamp);
        if commits[i].timestamp < commits[i - 1].timestamp {
            return false;
        }
        assert forall|a: int, b: int| 0 <= a <= b < i + 1 && b < times.len() implies times[a] <= times[b] by {
            if b == i && a < i {
                assert(times[a] <= times[i - 1]);
            }
        }
        i = i + 1;
    }
    true
}

/// Estimates the time of one author from commits that stand in the order of
/// their time.
pub fn estimate_sorted(
    commits: &Vec<CommitRecord>,
    email: Option<String>,
    max_commit_diff: u64,
    first_commit_addition: u64,
) -> (hours: CommitHours)
    requires
        commits.len() > 0,
        all_datable(commits@),
        chronological(moments(commits@)),
    ensures
        hours.well_formed(),
        hours.describes(commits@, text_of(email), max_commit_diff, first_commit_addition),
{
    let ghost times = moments(commits@);
    let ghost max_gap = max_commit_diff as int;
    let ghost addition = first_commit_addition as int;
    let ghost limit: int = if max_gap > addition { max_gap } else { addition };
    let n = commits.len();
    let author_name = copy_text(&commits[0].author_name);

    assert(commits@[0].datable());
    let mut day = utc_day_of(commits[0].timestamp);
    let mut breakdown = Breakdown::new();
    let mut place = breakdown.credit(&day, first_commit_addition as u128);
    let mut duration: u128 = first_commit_addition as u128;
    proof {
        assert(times[0] == commits@[0].timestamp);
        assert(total_time(times, 0, max_gap, addition) == 0);
        lemma_session_days_step(times, 0, max_gap);
        assert(session_days(times, 0, max_gap) =~= Set::<Seq<char>>::empty());
        assert(breakdown@.dom() =~= session_days(times, 1, max_gap));
        assert forall|d: Seq<char>| #[trigger] breakdown.time_on(d) == time_on_day(times, 1, d, max_gap, addition) by {
            assert(time_on_day(times, 0, d, max_gap, addition) == 0);
        }
    }

    let mut k: usize = 1;
    while k < n
        invariant
            1 <= k <= n,
            n == commits.len(),
            times == moments(commits@),
            max_gap == max_commit_diff as int,
            addition == first_commit_addition as int,
            limit == if max_gap > addition { max_gap } else { addition },
            all_datable(commits@),
            chronological(times),
            breakdown.well_formed(),
            breakdown.total() == duration,
            duration == total_time(times, k as int, max_gap, addition),
            duration <= k * limit,
            day@ == session_day(times, k - 1, max_gap),
            breakdown@.dom().contains(day@),
            place < breakdown.entries@.len(),
            breakdown.entries@[place as int].day@ == day@,
            breakdown@.dom() == session_days(times, k as int, max_gap),
            forall|d: Seq<char>| #[trigger]
                breakdown.time_on(d) == time_on_day(times, k as int, d, max_gap, addition),
        decreases n - k,
    {
        let ghost before = breakdown;
        assert(commits@[k as int].datable() && commits@[k - 1].datable());
        assert(times[k as int] == commits@[k as int].timestamp && times[k - 1] == commits@[k - 1].timestamp);
        assert(times[k - 1] <= times[k as int]);
        let gap: i64 = commits[k].timestamp - commits[k - 1].timestamp;
        let added: u128;
        proof {
            assert((k + 1) * limit == k * limit + limit) by (nonlinear_arith);
            assert((k + 1) * limit <= u128::MAX) by (nonlinear_arith)
                requires
                    k + 1 <= usize::MAX,
                    0 <= limit <= u64::MAX,
            ;
        }
        if (gap as u64) < max_commit_diff {
            added = gap as u128;
            proof {
                lemma_short_gap_continues(times, k as int, max_gap, addition);
            }
            breakdown.credit_at(place, added);
        } else {
            day = utc_day_of(commits[k].timestamp);
            added = first_commit_addition as u128;
            proof {
                lemma_long_gap_opens_session(times, k as int, max_gap, addition);
            }
            place = breakdown.credit(&day, added);
        }
        proof {
            assert(breakdown@.dom() =~= session_days(times, k + 1, max_gap));
            assert forall|d: Seq<char>| #[trigger]
                breakdown.time_on(d) == time_on_day(times, k + 1, d, max_gap, addition) by {
                assert(before.time_on(d) == time_on_day(times, k as int, d, max_gap, addition));
            }
        }
        duration = duration + added;
        k = k + 1;
    }
    proof {
        assert(n * limit <= n * u64::MAX) by (nonlinear_arith)
            requires
                0 <= limit <= u64::MAX,
                0 <= n,
        ;
    }
    CommitHours { email, author_name, breakdown, duration, commit_count: n }
}

/// Sorting keeps every commit datable and puts the moments in order.
pub proof fn lemma_ordered_commits(commits: Seq<CommitRecord>)
    ensures
        ordered(commits).len() == commits.len(),
        chronological(moments(ordered(commits))),
        all_datable(commits) ==> all_datable(ordered(commits)),
{
    broadcast use vstd::seq_lib::group_to_multiset_ensures;

    let sorted = ordered(commits);
    lemma_ordered_len(commits);
    lemma_ordered_is_sorted(commits);
    lemma_ordered_permutes(commits);
    assert forall|i: int, j: int| 0 <= i <= j < moments(sorted).len() implies moments(sorted)[i] <= moments(
        sorted,
    )[j] by {
        if i < j {
            assert(!rank_less(sorted[j].rank(), sorted[i].rank()));
        }
    }
    if all_datable(commits) {
        assert forall|i: int| 0 <= i < sorted.len() implies (#[trigger] sorted[i]).datable() by {
            assert(sorted.contains(sorted[i]));
            assert(sorted.to_multiset().count(sorted[i]) > 0);
            assert(commits.contains(sorted[i]));
            let k = choose|k: int| 0 <= k < commits.len() && commits[k] == sorted[i];
            assert(commits[k].datable());
        }
    }
}

/// Estimates the time of one author: puts the commits in the order of their
/// time, commits of the same second in the order given, and credits every
/// session to the day on which it began.
pub fn estimate_author_time(
    commits: Vec<CommitRecord>,
    email: Option<String>,
    max_commit_diff: u64,
    first_commit_addition: u64,
) -> (hours: CommitHours)
    requires
        commits.len() > 0,
        all_datable(commits@),
    ensures
        hours.well_formed(),
        hours.breakdown.total() == hours.duration,
        hours.describes(ordered(commits@), text_of(email), max_commit_diff, first_commit_addition),
{
    let mut commits = commits;
    let ghost given = commits@;
    sort_stably(&mut commits);
    proof {
        lemma_ordered_commits(given);
    }
    estimate_sorted(&commits, email, max_commit_diff, first_commit_addition)
}

/// One commit alone is one session: the addition is all the time, and it is
/// credited to the day of the commit and to no other.
pub proof fn lemma_single_commit(times: Seq<i64>, max_gap: int, addition: int)
    requires
        times.len() == 1,
    ensures
        total_time(times, 1, max_gap, addition) == addition,
        session_days(times, 1, max_gap) == set![utc_day(times[0])],
        time_on_day(times, 1, utc_day(times[0]), max_gap, addition) == addition,
{
    assert(total_time(times, 0, max_gap, addition) == 0);
    assert(time_on_day(times, 0, utc_day(times[0]), max_gap, addition) == 0);
    lemma_session_days_step(times, 0, max_gap);
    assert(session_days(times, 0, max_gap) =~= Set::<Seq<char>>::empty());
    assert(session_days(times, 1, max_gap) =~= set![utc_day(times[0])]);
}

/// The estimate for one commit alone: its duration is the addition, and its
/// breakdown holds the day of the commit, with the addition, and no other
/// day.
pub proof fn lemma_single_commit_estimate(
    hours: CommitHours,
    commits: Seq<CommitRecord>,
    email: Option<Seq<char>>,
    max_gap: u64,
    addition: u64,
)
    requires
        commits.len() == 1,
        hours.describes(commits, email, max_gap, addition),
    ensures
        hours.commit_count == 1,
        hours.duration == addition,
        hours.breakdown@ == Map::<Seq<char>, int>::empty().insert(utc_day(commits[0].timestamp), addition as int),
{
    let times = moments(commits);
    let day = utc_day(commits[0].timestamp);
    lemma_single_commit(times, max_gap as int, addition as int);
    assert(times[0] == commits[0].timestamp);
    assert(hours.breakdown.time_on(day) == addition);
    assert(hours.breakdown@.dom().contains(day));
    assert(hours.breakdown@ =~= Map::<Seq<char>, int>::empty().insert(day, addition as int));
}

/// A gap shorter than the largest gap continues the session: all of it is
/// credited to the day on which the session began, whatever the days of the
/// two commits, and no session day is added.
pub proof fn lemma_short_gap_continues(times: Seq<i64>, i: int, max_gap: int, addition: int)
    requires
        1 <= i < times.len(),
        times[i] - times[i - 1] < max_gap,
    ensures
        session_opening(times, i, max_gap) == session_opening(times, i - 1, max_gap),
        session_day(times, i, max_gap) == session_day(times, i - 1, max_gap),
        total_time(times, i + 1, max_gap, addition) == total_time(times, i, max_gap, addition) + (times[i]
            - times[i - 1]),
        forall|day: Seq<char>|
            #[trigger] time_on_day(times, i + 1, day, max_gap, addition) == time_on_day(
                times,
                i,
                day,
                max_gap,
                addition,
            ) + if day == session_day(times, i - 1, max_gap) {
                times[i] - times[i - 1]
            } else {
                0
            },
        session_days(times, i + 1, max_gap) == session_days(times, i, max_gap),
{
    lemma_session_days_step(times, i, max_gap);
}

/// A gap of the largest gap or more begins a session: the addition, and
/// nothing of the gap, is credited, and it goes to the day of the commit that
/// follows the gap.
pub proof fn lemma_long_gap_opens_session(times: Seq<i64>, i: int, max_gap: int, addition: int)
    requires
        1 <= i < times.len(),
        times[i] - times[i - 1] >= max_gap,
    ensures
        session_opening(times, i, max_gap) == i,
        session_day(times, i, max_gap) == utc_day(times[i]),
        total_time(times, i + 1, max_gap, addition) == total_time(times, i, max_gap, addition) + addition,
        forall|day: Seq<char>|
            #[trigger] time_on_day(times, i + 1, day, max_gap, addition) == time_on_day(
                times,
                i,
                day,
                max_gap,
                addition,
            ) + if day == utc_day(times[i]) {
                addition
            } else {
                0
            },
        session_days(times, i + 1, max_gap) == session_days(times, i, max_gap).insert(utc_day(times[i])),
{
    lemma_session_days_step(times, i, max_gap);
}

} // verus!
