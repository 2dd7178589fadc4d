//! Which references of the repository are looked at.
//!
//! Where a branch is named, the one reference of that name; else every
//! reference whose name the pattern for its kind of branch is found in.
use vstd::prelude::*;
use crate::config::BranchType;
use crate::error::{Error, ErrorKind};
use crate::pattern::{find_pattern, pattern_found};
use crate::text::{enclose, same_text};

verus! {

/// The directory of references for a kind of branch.
pub open spec fn reference_prefix(kind: BranchType) -> Seq<char> {
    match kind {
        BranchType::Local => "heads"@,
        BranchType::Remote => "remotes"@,
    }
}

/// The name of the reference of a branch.
pub open spec fn branch_reference(branch: Seq<char>, kind: BranchType) -> Seq<char> {
    "refs/"@ + reference_prefix(kind) + "/"@ + branch
}

/// The pattern for the references of all branches of a kind.
pub open spec fn reference_pattern(kind: BranchType) -> Seq<char> {
    "refs/"@ + reference_prefix(kind) + "/.*"@
}

/// The message for a pattern that cannot be compiled.
pub open spec fn pattern_error_text(pattern: Seq<char>) -> Seq<char> {
    "Could not compile the pattern '"@ + pattern + "'"@
}

/// Whether the reference `name` is looked at: `None` where that takes the
/// pattern and the pattern cannot be compiled.
pub open spec fn selected(branch: Option<String>, kind: BranchType, name: Seq<char>) -> Option<bool> {
    match branch {
        Some(b) => Some(name == branch_reference(b@, kind)),
        None => pattern_found(reference_pattern(kind), name),
    }
}

/// The directory of references for a kind of branch.
pub fn prefix_of(kind: BranchType) -> (prefix: &'static str)
    ensures
        prefix@ == reference_prefix(kind),
{
    match kind {
        BranchType::Local => "heads",
        BranchType::Remote => "remotes",
    }
}

/// Whether `name` is the reference of the branch `branch`.
pub fn names_branch(name: &str, branch: &str, kind: BranchType) -> (named: bool)
    ensures
        named == (name@ == branch_reference(branch@, kind)),
{
    let mut reference = enclose("refs/", prefix_of(kind), "/");
    reference.append(branch);
    same_text(name, reference.as_str())
}

/// Whether the reference `name` is looked at.
pub fn selects_reference(branch: &Option<String>, kind: BranchType, name: &str) -> (looked_at: Result<bool, Error>)
    ensures
        match looked_at {
            Ok(b) => selected(*branch, kind, name@) == Some(b),
            Err(e) => selected(*branch, kind, name@) is None && e.0 is Pattern && e.text() == pattern_error_text(
                reference_pattern(kind),
            ),
        },
{
    match branch {
        Some(b) => Ok(names_branch(name, b.as_str(), kind)),
        None => {
            let pattern = enclose("refs/", prefix_of(kind), "/.*");
            match find_pattern(pattern.as_str(), name) {
                Some(found) => Ok(found),
                None => Err(
                    Error(ErrorKind::Pattern(enclose("Could not compile the pattern '", pattern.as_str(), "'"))),
                ),
            }
        },
    }
}

} // verus!
