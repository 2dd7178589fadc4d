//! The commits that count: those inside the time window, and merges only
//! where they are asked for.
use vstd::prelude::*;
use crate::commit::CommitRecord;
use crate::text::starts_with;

verus! {

/// Whether the message of the commit begins with `Merge `. This reads the
/// text of the message, not the parents of the commit.
pub open spec fn begins_with_merge(commit: CommitRecord) -> bool {
    match commit.summary {
        Some(summary) => "Merge "@.is_prefix_of(summary@),
        None => false,
    }
}

/// Whether the commit counts: it is not before `since`, not after `until`,
/// and not a merge by its message unless merges are asked for.
pub open spec fn passes(commit: CommitRecord, since: Option<i64>, until: Option<i64>, merge_requests: bool) -> bool {
    &&& since matches Some(bound) ==> commit.timestamp >= bound
    &&& until matches Some(bound) ==> commit.timestamp <= bound
    &&& merge_requests || !begins_with_merge(commit)
}

/// The test `passes` with its bounds fixed.
pub open spec fn passing(since: Option<i64>, until: Option<i64>, merge_requests: bool) -> spec_fn(
    CommitRecord,
) -> bool {
    |commit: CommitRecord| passes(commit, since, until, merge_requests)
}

/// The commits that count, in the order in which `commits` holds them.
pub open spec fn kept(
    commits: Seq<CommitRecord>,
    since: Option<i64>,
    until: Option<i64>,
    merge_requests: bool,
) -> Seq<CommitRecord> {
    commits.filter(passing(since, until, merge_requests))
}

/// Whether `picked` holds items of `all` at rising places: `places[k]` is
/// where `picked[k]` stands in `all`.
pub open spec fn picked_in_order<T>(picked: Seq<T>, all: Seq<T>, places: Seq<int>) -> bool {
    &&& places.len() == picked.len()
    &&& forall|k: int| 0 <= k < places.len() ==> 0 <= #[trigger] places[k] < all.len() && picked[k] == all[places[k]]
    &&& forall|j: int, k: int| 0 <= j < k < places.len() ==> places[j] < places[k]
}

/// Whether the commit counts.
pub fn commit_passes(commit: &CommitRecord, since: Option<i64>, until: Option<i64>, merge_requests: bool) -> (counts:
    bool)
    ensures
        counts == passes(*commit, since, until, merge_requests),
{
    if let Some(bound) = since {
        if commit.timestamp < bound {
            return false;
        }
    }
    if let Some(bound) = until {
        if commit.timestamp > bound {
            return false;
        }
    }
    if !merge_requests {
        if let Some(summary) = &commit.summary {
            if starts_with(summary.as_str(), "Merge ") {
                return false;
            }
        }
    }
    true
}

/// Keeps the commits that count, in their order.
pub fn filter_between(commits: Vec<CommitRecord>, since: Option<i64>, until: Option<i64>, merge_requests: bool) -> (out:
    Vec<CommitRecord>)
    ensures
        out@ == kept(commits@, since, until, merge_requests),
{
    let ghost all = commits@;
    let ghost test = passing(since, until, merge_requests);
    let mut out: Vec<CommitRecord> = Vec::new();
    proof {
        reveal(Seq::filter);
        assert(all.subrange(0, 0) =~= Seq::<CommitRecord>::empty());
    }
    for commit in it: commits
        invariant
            it.seq() == all,
            test == passing(since, until, merge_requests),
            out@ == all.subrange(0, it.index() as int).filter(test),
    {
        proof {
            reveal(Seq::filter);
            let next = all.subrange(0, it.index() + 1);
            assert(next.drop_last() =~= all.subrange(0, it.index() as int));
            assert(next.last() == commit);
        }
        if commit_passes(&commit, since, until, merge_requests) {
            out.push(commit);
        }
    }
    proof {
        assert(all.subrange(0, all.len() as int) =~= all);
    }
    out
}

/// Every commit that is kept counts, and stands in the input.
pub proof fn lemma_kept_pass(
    commits: Seq<CommitRecord>,
    since: Option<i64>,
    until: Option<i64>,
    merge_requests: bool,
)
    ensures
        forall|k: int|
            0 <= k < kept(commits, since, until, merge_requests).len() ==> passes(
                #[trigger] kept(commits, since, until, merge_requests)[k],
                since,
                until,
                merge_requests,
            ) && commits.contains(kept(commits, since, until, merge_requests)[k]),
        forall|i: int|
            0 <= i < commits.len() && passes(#[trigger] commits[i], since, until, merge_requests) ==> kept(
                commits,
                since,
                until,
                merge_requests,
            ).contains(commits[i]),
{
    let test = passing(since, until, merge_requests);
    let out = commits.filter(test);
    assert forall|k: int| 0 <= k < out.len() implies passes(#[trigger] out[k], since, until, merge_requests)
        && commits.contains(out[k]) by {
        commits.lemma_filter_pred(test, k);
        assert(out.contains(out[k]));
        commits.lemma_filter_contains_rev(test, out[k]);
    }
    assert forall|i: int|
        0 <= i < commits.len() && passes(#[trigger] commits[i], since, until, merge_requests) implies out.contains(
        commits[i],
    ) by {
        commits.lemma_filter_contains(test, i);
    }
}

/// A filter changes nothing in a sequence of which every item passes it.
pub proof fn lemma_filter_all<T>(s: Seq<T>, test: spec_fn(T) -> bool)
    requires
        forall|k: int| 0 <= k < s.len() ==> test(#[trigger] s[k]),
    ensures
        s.filter(test) == s,
    decreases s.len(),
{
    reveal(Seq::filter);
    if s.len() > 0 {
        let front = s.drop_last();
        assert forall|k: int| 0 <= k < front.len() implies test(#[trigger] front[k]) by {
            assert(front[k] == s[k]);
        }
        lemma_filter_all(front, test);
        assert(test(s[s.len() - 1]));
        assert(front.push(s.last()) =~= s);
    }
}

/// Filtering twice with the same bounds gives what filtering once gives.
pub proof fn lemma_filter_idempotent(
    commits: Seq<CommitRecord>,
    since: Option<i64>,
    until: Option<i64>,
    merge_requests: bool,
)
    ensures
        kept(kept(commits, since, until, merge_requests), since, until, merge_requests) == kept(
            commits,
            since,
            until,
            merge_requests,
        ),
{
    let test = passing(since, until, merge_requests);
    let once = commits.filter(test);
    assert forall|k: int| 0 <= k < once.len() implies test(#[trigger] once[k]) by {
        commits.lemma_filter_pred(test, k);
    }
    lemma_filter_all(once, test);
}

/// A filter keeps the order: what it keeps stands at rising places of the
/// input.
pub proof fn lemma_filter_in_order<T>(s: Seq<T>, test: spec_fn(T) -> bool) -> (places: Seq<int>)
    ensures
        picked_in_order(s.filter(test), s, places),
    decreases s.len(),
{
    reveal(Seq::filter);
    if s.len() == 0 {
        Seq::<int>::empty()
    } else {
        let front = s.drop_last();
        let before = lemma_filter_in_order(front, test);
        assert forall|k: int| 0 <= k < before.len() implies front[#[trigger] before[k]] == s[before[k]] by {}
        if test(s.last()) {
            let places = before.push(s.len() - 1);
            assert forall|k: int| 0 <= k < places.len() implies 0 <= #[trigger] places[k] < s.len() && s.filter(
                test,
            )[k] == s[places[k]] by {
                if k < before.len() {
                    assert(places[k] == before[k]);
                }
            }
            assert forall|j: int, k: int| 0 <= j < k < places.len() implies places[j] < places[k] by {
                assert(places[j] == before[j]);
                if k < before.len() {
                    assert(places[k] == before[k]);
                }
            }
            places
        } else {
            before
        }
    }
}

/// The commits that are kept stand in the order of the input.
pub proof fn lemma_kept_in_order(
    commits: Seq<CommitRecord>,
    since: Option<i64>,
    until: Option<i64>,
    merge_requests: bool,
)
    ensures
        exists|places: Seq<int>| picked_in_order(kept(commits, since, until, merge_requests), commits, places),
{
    let places = lemma_filter_in_order(commits, passing(since, until, merge_requests));
    assert(picked_in_order(kept(commits, since, until, merge_requests), commits, places));
}

/// Whether a commit is a merge by its parents plays no part in the filter.
pub proof fn lemma_merge_flag_ignored(
    commit: CommitRecord,
    flag: bool,
    since: Option<i64>,
    until: Option<i64>,
    merge_requests: bool,
)
    ensures
        passes(CommitRecord { is_merge: flag, ..commit }, since, until, merge_requests) == passes(
            commit,
            since,
            until,
            merge_requests,
        ),
{
}

/// Without bounds, leaving merges out removes the commits whose message
/// begins with `Merge ` and no others, and taking merges in removes nothing.
pub proof fn lemma_merge_exclusion(commits: Seq<CommitRecord>)
    ensures
        kept(commits, None, None, false) == commits.filter(|c: CommitRecord| !begins_with_merge(c)),
        kept(commits, None, None, true) == commits,
{
    let test = passing(None, None, false);
    let plain = |c: CommitRecord| !begins_with_merge(c);
    lemma_filter_same(commits, test, plain);
    lemma_filter_all(commits, passing(None, None, true));
}

/// Two tests that agree on every item of a sequence keep the same items.
pub proof fn lemma_filter_same<T>(s: Seq<T>, a: spec_fn(T) -> bool, b: spec_fn(T) -> bool)
    requires
        forall|k: int| 0 <= k < s.len() ==> a(#[trigger] s[k]) == b(s[k]),
    ensures
        s.filter(a) == s.filter(b),
    decreases s.len(),
{
    reveal(Seq::filter);
    if s.len() > 0 {
        let front = s.drop_last();
        assert forall|k: int| 0 <= k < front.len() implies a(#[trigger] front[k]) == b(front[k]) by {
            assert(front[k] == s[k]);
        }
        lemma_filter_same(front, a, b);
        assert(a(s[s.len() - 1]) == b(s[s.len() - 1]));
    }
}

} // verus!
