//! The commits gathered author by author, the estimate for each author, and
//! the authors in the order of their time.
use vstd::prelude::*;
use crate::aliases::{canonical, AliasTable};
use crate::commit::{all_datable, CommitRecord};
use crate::config::Config;
use crate::estimate::{estimate_author_time, CommitHours};
use crate::stable_sort::{
    agree_throughout,
    insertion_point,
    lemma_ordered_agree,
    lemma_insertion_point,
    lemma_ordered_is_sorted,
    lemma_ordered_is_stable,
    lemma_ordered_len,
    lemma_ordered_permutes,
    of_rank,
    ordered,
    rank_less,
    sort_stably,
    Rank,
    Ranked,
};

verus! {

/// The commits gathered under one address.
#[derive(Clone, Debug, PartialEq, Eq)]
pub struct AuthorCommits {
    pub email: String,
    pub commits: Vec<CommitRecord>,
}

/// The commits of a repository, gathered by the address of their author.
#[derive(Clone, Debug, PartialEq, Eq)]
pub struct GroupedCommits {
    /// The commits that give no address.
    pub no_email: Vec<CommitRecord>,
    /// The other commits, one entry for each address, in the order in which
    /// the addresses first occur.
    pub by_email: Vec<AuthorCommits>,
}

/// The address under which a commit is gathered: that of its author, or
/// what that address is an alias of; none where the commit gives none.
pub open spec fn gathered_under(commit: CommitRecord, aliases: Map<Seq<char>, Seq<char>>) -> Option<Seq<char>> {
    match commit.author_email {
        Some(email) => Some(canonical(aliases, email@)),
        None => None,
    }
}

/// The test that a commit is gathered under `email`.
pub open spec fn of_author(aliases: Map<Seq<char>, Seq<char>>, email: Option<Seq<char>>) -> spec_fn(
    CommitRecord,
) -> bool {
    |commit: CommitRecord| gathered_under(commit, aliases) == email
}

/// The commits that are gathered under `email`, in their order.
pub open spec fn commits_of(
    commits: Seq<CommitRecord>,
    aliases: Map<Seq<char>, Seq<char>>,
    email: Option<Seq<char>>,
) -> Seq<CommitRecord> {
    commits.filter(of_author(aliases, email))
}

/// The addresses under which commits are gathered, each once, in the order
/// in which they first occur.
pub open spec fn authors_seen(commits: Seq<CommitRecord>, aliases: Map<Seq<char>, Seq<char>>) -> Seq<Seq<char>>
    decreases commits.len(),
{
    if commits.len() == 0 {
        Seq::empty()
    } else {
        let before = authors_seen(commits.drop_last(), aliases);
        match gathered_under(commits.last(), aliases) {
            Some(email) => if before.contains(email) {
                before
            } else {
                before.push(email)
            },
            None => before,
        }
    }
}

/// The number of commits in all the groups.
pub open spec fn group_sizes(groups: Seq<AuthorCommits>) -> int
    decreases groups.len(),
{
    if groups.len() == 0 {
        0
    } else {
        group_sizes(groups.drop_last()) + groups.last().commits@.len()
    }
}

impl GroupedCommits {
    /// Whether these are the groups of `commits`: the commits without an
    /// address apart, and one group for each address that occurs, in the
    /// order of first occurrence, each with its commits in their order.
    pub open spec fn groups(&self, commits: Seq<CommitRecord>, aliases: Map<Seq<char>, Seq<char>>) -> bool {
        let seen = authors_seen(commits, aliases);
        &&& self.no_email@ == commits_of(commits, aliases, None)
        &&& self.by_email@.len() == seen.len()
        &&& forall|j: int|
            0 <= j < seen.len() ==> (#[trigger] self.by_email@[j]).email@ == seen[j] && self.by_email@[j].commits@
                == commits_of(commits, aliases, Some(seen[j]))
    }
}

/// What one more commit adds to the commits of an author.
pub proof fn lemma_commits_of_push(
    commits: Seq<CommitRecord>,
    commit: CommitRecord,
    aliases: Map<Seq<char>, Seq<char>>,
    email: Option<Seq<char>>,
)
    ensures
        commits_of(commits.push(commit), aliases, email) == if gathered_under(commit, aliases) == email {
            commits_of(commits, aliases, email).push(commit)
        } else {
            commits_of(commits, aliases, email)
        },
{
    reveal(Seq::filter);
    assert(commits.push(commit).drop_last() =~= commits);
}

/// What one more commit adds to the addresses seen.
pub proof fn lemma_authors_seen_push(
    commits: Seq<CommitRecord>,
    commit: CommitRecord,
    aliases: Map<Seq<char>, Seq<char>>,
)
    ensures
        authors_seen(commits.push(commit), aliases) == match gathered_under(commit, aliases) {
            Some(email) => if authors_seen(commits, aliases).contains(email) {
                authors_seen(commits, aliases)
            } else {
                authors_seen(commits, aliases).push(email)
            },
            None => authors_seen(commits, aliases),
        },
{
    assert(commits.push(commit).drop_last() =~= commits);
}

/// An address is seen exactly where a commit is gathered under it.
pub proof fn lemma_seen_iff_gathered(commits: Seq<CommitRecord>, aliases: Map<Seq<char>, Seq<char>>, email: Seq<char>)
    ensures
        authors_seen(commits, aliases).contains(email) <==> commits_of(commits, aliases, Some(email)).len() > 0,
    decreases commits.len(),
{
    reveal(Seq::filter);
    if commits.len() > 0 {
        let front = commits.drop_last();
        let before = authors_seen(front, aliases);
        lemma_seen_iff_gathered(front, aliases, email);
        match gathered_under(commits.last(), aliases) {
            Some(e) => {
                if before.contains(e) {
                } else {
                    assert(before.push(e)[before.len() as int] == e);
                    if e != email && before.push(e).contains(email) {
                        let k = choose|k: int| 0 <= k < before.push(e).len() && before.push(e)[k] == email;
                        assert(before[k] == email);
                    }
                    if before.contains(email) {
                        let k = choose|k: int| 0 <= k < before.len() && before[k] == email;
                        assert(before.push(e)[k] == email);
                    }
                }
            },
            None => {},
        }
    }
}

/// No address is seen twice.
pub proof fn lemma_seen_once(commits: Seq<CommitRecord>, aliases: Map<Seq<char>, Seq<char>>)
    ensures
        authors_seen(commits, aliases).no_duplicates(),
    decreases commits.len(),
{
    if commits.len() > 0 {
        lemma_seen_once(commits.drop_last(), aliases);
    }
}

/// The commits of an author are commits of the input.
pub proof fn lemma_commits_of_within(
    commits: Seq<CommitRecord>,
    aliases: Map<Seq<char>, Seq<char>>,
    email: Option<Seq<char>>,
)
    ensures
        forall|k: int|
            0 <= k < commits_of(commits, aliases, email).len() ==> commits.contains(
                #[trigger] commits_of(commits, aliases, email)[k],
            ),
        all_datable(commits) ==> all_datable(commits_of(commits, aliases, email)),
{
    let group = commits_of(commits, aliases, email);
    assert forall|k: int| 0 <= k < group.len() implies commits.contains(#[trigger] group[k]) by {
        assert(group.contains(group[k]));
        commits.lemma_filter_contains_rev(of_author(aliases, email), group[k]);
    }
    if all_datable(commits) {
        assert forall|k: int| 0 <= k < group.len() implies (#[trigger] group[k]).datable() by {
            assert(commits.contains(group[k]));
            let i = choose|i: int| 0 <= i < commits.len() && commits[i] == group[k];
            assert(commits[i].datable());
        }
    }
}

/// Changing one group changes the number of commits by the difference.
pub proof fn lemma_group_sizes_update(groups: Seq<AuthorCommits>, j: int, group: AuthorCommits)
    requires
        0 <= j < groups.len(),
    ensures
        group_sizes(groups.update(j, group)) == group_sizes(groups) - groups[j].commits@.len()
            + group.commits@.len(),
    decreases groups.len(),
{
    let changed = groups.update(j, group);
    if j == groups.len() - 1 {
        assert(changed.drop_last() =~= groups.drop_last());
    } else {
        lemma_group_sizes_update(groups.drop_last(), j, group);
        assert(changed.drop_last() =~= groups.drop_last().update(j, group));
    }
}

/// Gathers the commits by the address of their author, an alias counting as
/// the address that it stands for.
pub fn group_by_author(commits: Vec<CommitRecord>, aliases: &AliasTable) -> (grouped: GroupedCommits)
    ensures
        grouped.groups(commits@, aliases@),
        grouped.no_email@.len() + group_sizes(grouped.by_email@) == commits@.len(),
{
    let ghost all = commits@;
    let ghost table = aliases@;
    let mut no_email: Vec<CommitRecord> = Vec::new();
    let mut by_email: Vec<AuthorCommits> = Vec::new();
    proof {
        reveal(Seq::filter);
        assert(all.subrange(0, 0) =~= Seq::<CommitRecord>::empty());
    }
    for commit in it: commits
        invariant
            it.seq() == all,
            table == aliases@,
            no_email@ == commits_of(all.subrange(0, it.index() as int), table, None),
            by_email@.len() == authors_seen(all.subrange(0, it.index() as int), table).len(),
            forall|j: int|
                0 <= j < by_email@.len() ==> (#[trigger] by_email@[j]).email@ == authors_seen(
                    all.subrange(0, it.index() as int),
                    table,
                )[j] && by_email@[j].commits@ == commits_of(
                    all.subrange(0, it.index() as int),
                    table,
                    Some(by_email@[j].email@),
                ),
            no_email@.len() + group_sizes(by_email@) == it.index(),
    {
        let ghost prefix = all.subrange(0, it.index() as int);
        let ghost seen = authors_seen(prefix, table);
        let ghost groups_before = by_email@;
        proof {
            assert(all.subrange(0, it.index() + 1) =~= prefix.push(commit));
            lemma_authors_seen_push(prefix, commit, table);
            lemma_commits_of_push(prefix, commit, table, None);
            assert forall|j: int| 0 <= j < groups_before.len() implies commits_of(
                prefix.push(commit),
                table,
                Some(#[trigger] groups_before[j].email@),
            ) == if gathered_under(commit, table) == Some(groups_before[j].email@) {
                groups_before[j].commits@.push(commit)
            } else {
                groups_before[j].commits@
            } by {
                lemma_commits_of_push(prefix, commit, table, Some(groups_before[j].email@));
            }
        }
        let resolved: Option<String> = match &commit.author_email {
            Some(email) => Some(aliases.resolve(email)),
            None => None,
        };
        match resolved {
            None => {
                no_email.push(commit);
            },
            Some(email) => {
                let mut j: usize = 0;
                while j < by_email.len() && by_email[j].email != email
                    invariant
                        j <= by_email.len(),
                        by_email@ == groups_before,
                        forall|k: int| 0 <= k < j ==> (#[trigger] groups_before[k]).email@ != email@,
                    decreases by_email.len() - j,
                {
                    j = j + 1;
                }
                let found = j < by_email.len();
                if found {
                    by_email[j].commits.push(commit);
                    proof {
                        let group = by_email@[j as int];
                        assert(by_email@ =~= groups_before.update(j as int, group));
                        lemma_group_sizes_update(groups_before, j as int, group);
                        assert(seen[j as int] == email@);
                        assert(seen.contains(email@));
                        lemma_seen_once(prefix, table);
                        assert forall|k: int| 0 <= k < by_email@.len() && k != j implies (
                        #[trigger] by_email@[k]).email@ != email@ by {
                            assert(seen[k] == groups_before[k].email@);
                        }
                    }
                } else {
                    proof {
                        assert(!seen.contains(email@)) by {
                            if seen.contains(email@) {
                                let k = choose|k: int| 0 <= k < seen.len() && seen[k] == email@;
                                assert(groups_before[k].email@ == email@);
                            }
                        }
                        lemma_seen_iff_gathered(prefix, table, email@);
                        assert(commits_of(prefix, table, Some(email@)) =~= Seq::<CommitRecord>::empty());
                        lemma_commits_of_push(prefix, commit, table, Some(email@));
                    }
                    let mut first: Vec<CommitRecord> = Vec::new();
                    first.push(commit);
                    by_email.push(AuthorCommits { email, commits: first });
                    proof {
                        assert(by_email@.drop_last() =~= groups_before);
                        assert(by_email@.last().commits@ =~= Seq::<CommitRecord>::empty().push(commit));
                    }
                }
            },
        }
    }
    proof {
        assert(all.subrange(0, all.len() as int) =~= all);
    }
    GroupedCommits { no_email, by_email }
}

/// Authors are ordered by their time, the longest first, and authors of
/// equal time by the number of their commits, the most first.
impl Ranked for CommitHours {
    open spec fn rank(&self) -> Rank {
        (-(self.duration as int), -(self.commit_count as int))
    }

    fn comes_before(&self, other: &Self) -> (before: bool) {
        self.duration > other.duration || (self.duration == other.duration && self.commit_count
            > other.commit_count)
    }
}

/// The address of the author at place `j` before the authors are ordered:
/// the commits without an address come first where there are any, then the
/// addresses in the order in which they first occur.
pub open spec fn author_at(commits: Seq<CommitRecord>, aliases: Map<Seq<char>, Seq<char>>, j: int) -> Option<
    Seq<char>,
> {
    let seen = authors_seen(commits, aliases);
    if commits_of(commits, aliases, None).len() > 0 {
        if j == 0 {
            None
        } else {
            Some(seen[j - 1])
        }
    } else {
        Some(seen[j])
    }
}

/// The number of authors: one for each address, and one more where some
/// commits have no address.
pub open spec fn author_count(commits: Seq<CommitRecord>, aliases: Map<Seq<char>, Seq<char>>) -> int {
    authors_seen(commits, aliases).len() + if commits_of(commits, aliases, None).len() > 0 {
        1int
    } else {
        0int
    }
}

/// Whether `unranked` holds the estimate for each author of `commits`, not
/// yet in the order of their time.
pub open spec fn estimates(
    unranked: Seq<CommitHours>,
    commits: Seq<CommitRecord>,
    aliases: Map<Seq<char>, Seq<char>>,
    max_gap: u64,
    addition: u64,
) -> bool {
    &&& unranked.len() == author_count(commits, aliases)
    &&& forall|j: int|
        0 <= j < unranked.len() ==> (#[trigger] unranked[j]).well_formed() && unranked[j].describes(
            ordered(commits_of(commits, aliases, author_at(commits, aliases, j))),
            author_at(commits, aliases, j),
            max_gap,
            addition,
        )
}

/// The number of commits of all the authors.
pub open spec fn commit_total(times: Seq<CommitHours>) -> int
    decreases times.len(),
{
    if times.len() == 0 {
        0
    } else {
        commit_total(times.drop_last()) + times.last().commit_count
    }
}

/// The whole minutes of all the authors, the seconds of each author that
/// fill no minute left out.
pub open spec fn minute_total(times: Seq<CommitHours>) -> int
    decreases times.len(),
{
    if times.len() == 0 {
        0
    } else {
        minute_total(times.drop_last()) + times.last().duration / 60
    }
}

/// Whether every estimate is well formed.
pub open spec fn all_well_formed(times: Seq<CommitHours>) -> bool {
    forall|j: int| 0 <= j < times.len() ==> (#[trigger] times[j]).well_formed()
}

/// What an estimate put in at `place` adds to the totals.
pub proof fn lemma_totals_insert(times: Seq<CommitHours>, place: int, hours: CommitHours)
    requires
        0 <= place <= times.len(),
    ensures
        commit_total(times.insert(place, hours)) == commit_total(times) + hours.commit_count,
        minute_total(times.insert(place, hours)) == minute_total(times) + hours.duration / 60,
    decreases times.len() - place,
{
    let longer = times.insert(place, hours);
    if place == times.len() {
        assert(longer.drop_last() =~= times);
    } else {
        lemma_totals_insert(times.drop_last(), place, hours);
        assert(longer.drop_last() =~= times.drop_last().insert(place, hours));
    }
}

/// Ordering the authors changes neither the totals nor any estimate.
pub proof fn lemma_ordered_totals(times: Seq<CommitHours>)
    ensures
        commit_total(ordered(times)) == commit_total(times),
        minute_total(ordered(times)) == minute_total(times),
        all_well_formed(times) ==> all_well_formed(ordered(times)),
    decreases times.len(),
{
    if times.len() > 0 {
        let front = ordered(times.drop_last());
        let place = insertion_point(front, times.last());
        lemma_ordered_totals(times.drop_last());
        lemma_insertion_point(front, times.last());
        lemma_totals_insert(front, place, times.last());
        if all_well_formed(times) {
            assert(all_well_formed(times.drop_last())) by {
                assert forall|j: int| 0 <= j < times.drop_last().len() implies (
                #[trigger] times.drop_last()[j]).well_formed() by {
                    assert(times[j].well_formed());
                }
            }
            let out = ordered(times);
            assert forall|j: int| 0 <= j < out.len() implies (#[trigger] out[j]).well_formed() by {
                if j < place {
                    assert(out[j] == front[j]);
                } else if j == place {
                    assert(out[j] == times[times.len() - 1]);
                } else {
                    assert(out[j] == front[j - 1]);
                }
            }
        }
    }
}

/// The ranking of the authors: the longer time comes first, of equal times
/// the one with more commits, and authors equal in both keep the order that
/// they had. Nobody is added or lost.
pub proof fn lemma_ranking(unranked: Seq<CommitHours>)
    ensures
        ordered(unranked).len() == unranked.len(),
        ordered(unranked).to_multiset() == unranked.to_multiset(),
        forall|i: int, j: int|
            0 <= i < j < unranked.len() ==> {
                let first = #[trigger] ordered(unranked)[i];
                let second = #[trigger] ordered(unranked)[j];
                first.duration > second.duration || (first.duration == second.duration && first.commit_count
                    >= second.commit_count)
            },
        forall|duration: u128, commit_count: usize|
            #[trigger] of_rank(ordered(unranked), (-(duration as int), -(commit_count as int))) == of_rank(
                unranked,
                (-(duration as int), -(commit_count as int)),
            ),
{
    let ranked = ordered(unranked);
    lemma_ordered_len(unranked);
    lemma_ordered_permutes(unranked);
    lemma_ordered_is_sorted(unranked);
    assert forall|i: int, j: int| 0 <= i < j < unranked.len() implies {
        let first = #[trigger] ranked[i];
        let second = #[trigger] ranked[j];
        first.duration > second.duration || (first.duration == second.duration && first.commit_count
            >= second.commit_count)
    } by {
        assert(!rank_less(ranked[j].rank(), ranked[i].rank()));
    }
    assert forall|duration: u128, commit_count: usize|
        #[trigger] of_rank(ranked, (-(duration as int), -(commit_count as int))) == of_rank(
            unranked,
            (-(duration as int), -(commit_count as int)),
        ) by {
        lemma_ordered_is_stable(unranked, (-(duration as int), -(commit_count as int)));
    }
}

/// Whether two estimates say the same of an author: the same address, name,
/// time, number of commits, and time on every day. The order in which the
/// days of the breakdown are held is left open.
pub open spec fn same_estimate(x: CommitHours, y: CommitHours) -> bool {
    &&& x.identity() == y.identity()
    &&& x.author_name == y.author_name
    &&& x.duration == y.duration
    &&& x.commit_count == y.commit_count
    &&& x.breakdown@ == y.breakdown@
}

/// The test `same_estimate`.
pub open spec fn says_the_same() -> spec_fn(CommitHours, CommitHours) -> bool {
    |x: CommitHours, y: CommitHours| same_estimate(x, y)
}

/// Two estimates of the same commits say the same.
pub proof fn lemma_one_estimate(
    x: CommitHours,
    y: CommitHours,
    commits: Seq<CommitRecord>,
    email: Option<Seq<char>>,
    max_gap: u64,
    addition: u64,
)
    requires
        x.describes(commits, email, max_gap, addition),
        y.describes(commits, email, max_gap, addition),
    ensures
        same_estimate(x, y),
{
    assert forall|day: Seq<char>| x.breakdown@.dom().contains(day) implies x.breakdown@[day] == y.breakdown@[day] by {
        assert(x.breakdown.time_on(day) == y.breakdown.time_on(day));
    }
    assert(x.breakdown@ =~= y.breakdown@);
}

/// Two runs on the same commits with the same settings agree: they give as
/// many authors, and place by place the estimates say the same. So where
/// authors are equal in time and commits, every run gives them in the same
/// order.
pub proof fn lemma_runs_agree(
    first: Seq<CommitHours>,
    second: Seq<CommitHours>,
    commits: Seq<CommitRecord>,
    aliases: Map<Seq<char>, Seq<char>>,
    max_gap: u64,
    addition: u64,
)
    requires
        exists|unranked: Seq<CommitHours>|
            first == ordered(unranked) && #[trigger] estimates(unranked, commits, aliases, max_gap, addition),
        exists|unranked: Seq<CommitHours>|
            second == ordered(unranked) && #[trigger] estimates(unranked, commits, aliases, max_gap, addition),
    ensures
        first.len() == second.len(),
        forall|k: int| 0 <= k < first.len() ==> same_estimate(#[trigger] first[k], second[k]),
{
    let a = choose|unranked: Seq<CommitHours>|
        first == ordered(unranked) && #[trigger] estimates(unranked, commits, aliases, max_gap, addition);
    let b = choose|unranked: Seq<CommitHours>|
        second == ordered(unranked) && #[trigger] estimates(unranked, commits, aliases, max_gap, addition);
    let agree = says_the_same();
    assert(agree_throughout(a, b, agree)) by {
        assert forall|k: int| 0 <= k < a.len() implies agree(#[trigger] a[k], b[k]) by {
            let author = author_at(commits, aliases, k);
            lemma_one_estimate(
                a[k],
                b[k],
                ordered(commits_of(commits, aliases, author)),
                author,
                max_gap,
                addition,
            );
        }
    }
    assert forall|x: CommitHours, y: CommitHours| #[trigger] agree(x, y) implies x.rank() == y.rank() by {}
    lemma_ordered_agree(a, b, agree);
    assert forall|k: int| 0 <= k < first.len() implies same_estimate(#[trigger] first[k], second[k]) by {
        assert(agree(first[k], second[k]));
    }
}

/// Puts the authors in the order of their time, the longest first; authors
/// of equal time in the order of the number of their commits, the most
/// first; authors equal in both in the order given.
pub fn rank_authors(times: &mut Vec<CommitHours>)
    ensures
        final(times)@ == ordered(old(times)@),
{
    sort_stably(times);
}

/// Estimates the time of every author: gathers the commits by the address
/// of their author, estimates each group, and ranks the authors.
pub fn estimate_author_times(config: &Config, commits: Vec<CommitRecord>) -> (times: Vec<CommitHours>)
    requires
        all_datable(commits@),
    ensures
        exists|unranked: Seq<CommitHours>|
            times@ == ordered(unranked) && #[trigger] estimates(
                unranked,
                commits@,
                config.email_aliases@,
                config.max_commit_diff,
                config.first_commit_addition,
            ),
        times@.len() == author_count(commits@, config.email_aliases@),
        all_well_formed(times@),
        commit_total(times@) == commits@.len(),
{
    let ghost all = commits@;
    let ghost table = config.email_aliases@;
    let ghost seen = authors_seen(all, table);
    let grouped = group_by_author(commits, &config.email_aliases);
    let GroupedCommits { no_email, by_email } = grouped;
    let ghost groups = by_email@;
    let ghost shift: int = if no_email@.len() > 0 { 1 } else { 0 };
    let mut result: Vec<CommitHours> = Vec::new();
    proof {
        lemma_commits_of_within(all, table, None);
        assert(commit_total(result@) == 0);
    }
    if no_email.len() > 0 {
        let ghost size = no_email@.len();
        proof {
            lemma_ordered_len(no_email@);
        }
        let hours = estimate_author_time(no_email, None, config.max_commit_diff, config.first_commit_addition);
        result.push(hours);
        proof {
            assert(result@.drop_last() =~= Seq::<CommitHours>::empty());
            assert(commit_total(result@) == size);
        }
    }
    proof {
        assert(groups.subrange(0, 0) =~= Seq::<AuthorCommits>::empty());
    }
    for group in it: by_email
        invariant
            it.seq() == groups,
            all_datable(all),
            table == config.email_aliases@,
            seen == authors_seen(all, table),
            groups.len() == seen.len(),
            forall|j: int|
                0 <= j < seen.len() ==> (#[trigger] groups[j]).email@ == seen[j] && groups[j].commits@
                    == commits_of(all, table, Some(seen[j])),
            shift == if commits_of(all, table, None).len() > 0 { 1int } else { 0int },
            result@.len() == shift + it.index(),
            forall|j: int|
                0 <= j < result@.len() ==> (#[trigger] result@[j]).well_formed() && result@[j].describes(
                    ordered(commits_of(all, table, author_at(all, table, j))),
                    author_at(all, table, j),
                    config.max_commit_diff,
                    config.first_commit_addition,
                ),
            commit_total(result@) == shift * commits_of(all, table, None).len() + group_sizes(
                groups.subrange(0, it.index() as int),
            ),
    {
        let ghost place = it.index() as int;
        let ghost before = result@;
        proof {
            assert(group == groups[place]);
            lemma_seen_iff_gathered(all, table, seen[place]);
            assert(seen.contains(seen[place]));
            lemma_commits_of_within(all, table, Some(seen[place]));
            lemma_ordered_len(group.commits@);
            assert(groups.subrange(0, place + 1).drop_last() =~= groups.subrange(0, place));
            assert(groups.subrange(0, place + 1).last() == group);
        }
        let AuthorCommits { email, commits } = group;
        let hours = estimate_author_time(
            commits,
            Some(email),
            config.max_commit_diff,
            config.first_commit_addition,
        );
        result.push(hours);
        proof {
            assert(result@.drop_last() =~= before);
            assert(author_at(all, table, shift + place) == Some(seen[place]));
            assert forall|j: int| 0 <= j < result@.len() implies (#[trigger] result@[j]).well_formed()
                && result@[j].describes(
                ordered(commits_of(all, table, author_at(all, table, j))),
                author_at(all, table, j),
                config.max_commit_diff,
                config.first_commit_addition,
            ) by {
                if j < before.len() {
                    assert(result@[j] == before[j]);
                }
            }
        }
    }
    let ghost unranked = result@;
    proof {
        assert(groups.subrange(0, groups.len() as int) =~= groups);
        assert(estimates(unranked, all, table, config.max_commit_diff, config.first_commit_addition));
        lemma_ordered_totals(unranked);
        lemma_ordered_len(unranked);
    }
    rank_authors(&mut result);
    result
}

/// Whether the totals of the authors can be taken: every estimate is well
/// formed, and the number of all commits fits in the machine's word.
pub fn can_total(times: &Vec<CommitHours>) -> (fit: bool)
    ensures
        fit == (all_well_formed(times@) && commit_total(times@) <= usize::MAX),
{
    let mut total_commits: usize = 0;
    let mut i: usize = 0;
    proof {
        assert(times@.subrange(0, 0) =~= Seq::<CommitHours>::empty());
    }
    while i < times.len()
        invariant
            i <= times.len(),
            total_commits == commit_total(times@.subrange(0, i as int)),
            forall|j: int| 0 <= j < i ==> (#[trigger] times@[j]).well_formed(),
        decreases times.len() - i,
    {
        proof {
            let part = times@.subrange(0, i + 1);
            assert(part.drop_last() =~= times@.subrange(0, i as int));
            assert(part.last() == times@[i as int]);
            lemma_commit_total_grows(times@, i + 1);
        }
        if !times[i].check() {
            return false;
        }
        match total_commits.checked_add(times[i].commit_count) {
            Some(total) => {
                total_commits = total;
            },
            None => {
                return false;
            },
        }
        i = i + 1;
    }
    proof {
        assert(times@.subrange(0, i as int) =~= times@);
    }
    true
}

/// The whole minutes and the commits of all the authors together.
pub fn get_totals(times: &Vec<CommitHours>) -> (totals: (u128, usize))
    requires
        all_well_formed(times@),
        commit_total(times@) <= usize::MAX,
    ensures
        totals.0 == minute_total(times@),
        totals.1 == commit_total(times@),
{
    let mut total_minutes: u128 = 0;
    let mut total_commits: usize = 0;
    let mut i: usize = 0;
    proof {
        assert(times@.subrange(0, 0) =~= Seq::<CommitHours>::empty());
        lemma_commit_total_grows(times@, 0);
    }
    while i < times.len()
        invariant
            i <= times.len(),
            all_well_formed(times@),
            commit_total(times@) <= usize::MAX,
            total_minutes == minute_total(times@.subrange(0, i as int)),
            total_commits == commit_total(times@.subrange(0, i as int)),
            total_minutes <= total_commits * u64::MAX,
            commit_total(times@.subrange(0, i as int)) <= commit_total(times@),
        decreases times.len() - i,
    {
        proof {
            let part = times@.subrange(0, i + 1);
            assert(part.drop_last() =~= times@.subrange(0, i as int));
            assert(part.last() == times@[i as int]);
            assert(times@[i as int].well_formed());
            lemma_commit_total_grows(times@, i + 1);
            let count = times@[i as int].commit_count as int;
            let sum = total_commits as int;
            assert((sum + count) * u64::MAX == sum * u64::MAX + count * u64::MAX) by (nonlinear_arith);
            assert((sum + count) * u64::MAX <= u128::MAX) by (nonlinear_arith)
                requires
                    0 <= sum + count <= usize::MAX,
            ;
        }
        total_commits = total_commits + times[i].commit_count;
        total_minutes = total_minutes + times[i].duration / 60;
        i = i + 1;
    }
    proof {
        assert(times@.subrange(0, i as int) =~= times@);
    }
    (total_minutes, total_commits)
}

/// The commits of the first authors are no more than the commits of all.
pub proof fn lemma_commit_total_grows(times: Seq<CommitHours>, n: int)
    requires
        0 <= n <= times.len(),
    ensures
        0 <= commit_total(times.subrange(0, n)) <= commit_total(times),
    decreases times.len(),
{
    if times.len() == 0 {
        assert(times.subrange(0, n) =~= times);
    } else if n == times.len() {
        assert(times.subrange(0, n) =~= times);
        lemma_commit_total_grows(times.drop_last(), n - 1);
        assert(times.drop_last().subrange(0, n - 1) =~= times.drop_last());
    } else {
        lemma_commit_total_grows(times.drop_last(), n);
        assert(times.drop_last().subrange(0, n) =~= times.subrange(0, n));
    }
}

} // verus!
