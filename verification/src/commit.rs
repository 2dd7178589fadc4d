//! What the estimate reads of a commit.
use vstd::prelude::*;
use crate::calendar::{MAX_TIMESTAMP, MIN_TIMESTAMP};
use crate::stable_sort::{Rank, Ranked};

verus! {

/// One commit of the repository.
#[derive(Clone, Debug, PartialEq, Eq)]
pub struct CommitRecord {
    /// When the commit was made, in seconds since the start of 1970 in UTC.
    pub timestamp: i64,
    /// The email address of the author, if the commit gives one.
    pub author_email: Option<String>,
    /// The name of the author, if the commit gives one.
    pub author_name: Option<String>,
    /// The first line of the commit message, if there is one.
    pub summary: Option<String>,
    /// Whether the commit has more than one parent.
    pub is_merge: bool,
}

impl CommitRecord {
    /// Whether the calendar has a day for the moment of the commit.
    pub open spec fn datable(&self) -> bool {
        MIN_TIMESTAMP <= self.timestamp <= MAX_TIMESTAMP
    }

    /// Whether the calendar has a day for the moment of the commit.
    pub fn is_datable(&self) -> (datable: bool)
        ensures
            datable == self.datable(),
    {
        MIN_TIMESTAMP <= self.timestamp && self.timestamp <= MAX_TIMESTAMP
    }
}

/// Commits are ordered by their time alone.
impl Ranked for CommitRecord {
    open spec fn rank(&self) -> Rank {
        (self.timestamp as int, 0)
    }

    fn comes_before(&self, other: &Self) -> (before: bool) {
        self.timestamp < other.timestamp
    }
}

/// Whether the calendar has a day for each of the commits.
pub open spec fn all_datable(commits: Seq<CommitRecord>) -> bool {
    forall|i: int| 0 <= i < commits.len() ==> (#[trigger] commits[i]).datable()
}

/// Whether the calendar has a day for each of the commits.
pub fn check_datable(commits: &Vec<CommitRecord>) -> (datable: bool)
    ensures
        datable == all_datable(commits@),
{
    let mut i: usize = 0;
    while i < commits.len()
        invariant
            i <= commits.len(),
            forall|k: int| 0 <= k < i ==> (#[trigger] commits@[k]).datable(),
        decreases commits.len() - i,
    {
        if !commits[i].is_datable() {
            return false;
        }
        i = i + 1;
    }
    true
}

/// The moments of the commits, in their order.
pub open spec fn moments(commits: Seq<CommitRecord>) -> Seq<i64> {
    commits.map_values(|c: CommitRecord| c.timestamp)
}

/// A copy of a text that may be absent.
pub fn copy_text(text: &Option<String>) -> (copy: Option<String>)
    ensures
        copy == *text,
{
    match text {
        Some(t) => Some(t.clone()),
        None => None,
    }
}

} // verus!
