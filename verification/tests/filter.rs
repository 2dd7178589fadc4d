use jikyuu::commit::CommitRecord;
use jikyuu::filter::{commit_passes, filter_between};

fn commit(timestamp: i64, summary: Option<&str>, is_merge: bool) -> CommitRecord {
    CommitRecord {
        timestamp,
        author_email: Some(String::from("a@example.com")),
        author_name: None,
        summary: summary.map(String::from),
        is_merge,
    }
}

fn times(commits: &Vec<CommitRecord>) -> Vec<i64> {
    commits.iter().map(|c| c.timestamp).collect()
}

fn sample() -> Vec<CommitRecord> {
    vec![
        commit(50, Some("fix"), false),
        commit(10, Some("Merge branch 'a'"), true),
        commit(30, Some("merge branch 'b'"), true),
        commit(20, None, false),
        commit(40, Some("Merge"), false),
        commit(60, Some("Merge pull request #1"), false),
        commit(25, Some(" Merge x"), true),
    ]
}

#[test]
fn no_bounds_and_merges_keep_everything() {
    let out = filter_between(sample(), None, None, true);
    assert_eq!(out, sample());
}

#[test]
fn merges_are_told_by_the_message_alone() {
    let out = filter_between(sample(), None, None, false);
    assert_eq!(times(&out), vec![50, 30, 20, 40, 25]);
    assert!(out.iter().any(|c| c.is_merge));
}

#[test]
fn bounds_are_inclusive() {
    let out = filter_between(sample(), Some(20), Some(50), true);
    assert_eq!(times(&out), vec![50, 30, 20, 40, 25]);
    let since_only = filter_between(sample(), Some(41), None, true);
    assert_eq!(times(&since_only), vec![50, 60]);
    let until_only = filter_between(sample(), None, Some(19), true);
    assert_eq!(times(&until_only), vec![10]);
}

#[test]
fn empty_window_keeps_nothing() {
    assert!(filter_between(sample(), Some(51), Some(49), true).is_empty());
    assert!(filter_between(Vec::new(), None, None, false).is_empty());
}

#[test]
fn filtering_twice_changes_nothing() {
    let once = filter_between(sample(), Some(15), Some(55), false);
    let twice = filter_between(once.clone(), Some(15), Some(55), false);
    assert_eq!(once, twice);
    assert_eq!(times(&once), vec![50, 30, 20, 40, 25]);
}

#[test]
fn commit_passes_each_test() {
    let c = commit(30, Some("Merge x"), false);
    assert!(commit_passes(&c, Some(30), Some(30), true));
    assert!(!commit_passes(&c, Some(31), None, true));
    assert!(!commit_passes(&c, None, Some(29), true));
    assert!(!commit_passes(&c, None, None, false));
    assert!(commit_passes(&commit(30, Some("Merged x"), true), None, None, false));
    assert!(commit_passes(&commit(30, Some("Merge"), true), None, None, false));
    assert!(commit_passes(&commit(30, Some("MERGE x"), true), None, None, false));
    assert!(commit_passes(&commit(30, None, true), None, None, false));
    assert!(commit_passes(&commit(i64::MIN, None, false), Some(i64::MIN), Some(i64::MIN), false));
}
