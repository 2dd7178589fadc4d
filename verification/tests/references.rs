use jikyuu::config::BranchType;
use jikyuu::references::{names_branch, prefix_of, selects_reference};

#[test]
fn prefixes() {
    assert_eq!(prefix_of(BranchType::Local), "heads");
    assert_eq!(prefix_of(BranchType::Remote), "remotes");
}

#[test]
fn named_branch_selects_its_reference_alone() {
    let branch = Some(String::from("main"));
    assert!(selects_reference(&branch, BranchType::Local, "refs/heads/main").unwrap());
    assert!(!selects_reference(&branch, BranchType::Local, "refs/heads/main2").unwrap());
    assert!(!selects_reference(&branch, BranchType::Local, "refs/remotes/main").unwrap());
    assert!(!selects_reference(&branch, BranchType::Local, "xrefs/heads/main").unwrap());
    assert!(selects_reference(&branch, BranchType::Remote, "refs/remotes/main").unwrap());
    let nested = Some(String::from("origin/feature/x"));
    assert!(selects_reference(&nested, BranchType::Remote, "refs/remotes/origin/feature/x").unwrap());
    assert!(names_branch("refs/heads/.*", ".*", BranchType::Local));
    assert!(!names_branch("refs/heads/main", ".*", BranchType::Local));
}

#[test]
fn without_a_branch_the_pattern_selects() {
    assert!(selects_reference(&None, BranchType::Local, "refs/heads/main").unwrap());
    assert!(selects_reference(&None, BranchType::Local, "refs/heads/feature/x").unwrap());
    assert!(selects_reference(&None, BranchType::Local, "refs/heads/").unwrap());
    assert!(!selects_reference(&None, BranchType::Local, "refs/remotes/origin/main").unwrap());
    assert!(!selects_reference(&None, BranchType::Local, "refs/tags/v1").unwrap());
    assert!(!selects_reference(&None, BranchType::Local, "refs/heads").unwrap());
    assert!(selects_reference(&None, BranchType::Remote, "refs/remotes/origin/main").unwrap());
    assert!(!selects_reference(&None, BranchType::Remote, "refs/heads/main").unwrap());
}

#[test]
fn pattern_is_found_anywhere_in_the_name() {
    assert!(selects_reference(&None, BranchType::Local, "refs/remotes/refs/heads/x").unwrap());
    assert!(selects_reference(&None, BranchType::Local, "xrefs/heads/x").unwrap());
}
