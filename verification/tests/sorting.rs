use jikyuu::commit::CommitRecord;
use jikyuu::stable_sort::{sort_stably, Ranked};

fn commit(timestamp: i64, name: &str) -> CommitRecord {
    CommitRecord {
        timestamp,
        author_email: None,
        author_name: Some(String::from(name)),
        summary: None,
        is_merge: false,
    }
}

fn names(commits: &Vec<CommitRecord>) -> Vec<String> {
    commits.iter().map(|c| c.author_name.clone().unwrap()).collect()
}

#[test]
fn sort_puts_commits_in_the_order_of_their_time() {
    let mut commits = vec![commit(5, "e"), commit(1, "a"), commit(4, "d"), commit(2, "b"), commit(3, "c")];
    sort_stably(&mut commits);
    assert_eq!(names(&commits), vec!["a", "b", "c", "d", "e"]);
}

#[test]
fn sort_keeps_the_order_of_equal_times() {
    let mut commits = vec![
        commit(2, "x1"),
        commit(1, "y1"),
        commit(2, "x2"),
        commit(1, "y2"),
        commit(2, "x3"),
        commit(0, "z"),
    ];
    sort_stably(&mut commits);
    assert_eq!(names(&commits), vec!["z", "y1", "y2", "x1", "x2", "x3"]);
}

#[test]
fn sort_of_nothing_and_of_one() {
    let mut none: Vec<CommitRecord> = Vec::new();
    sort_stably(&mut none);
    assert!(none.is_empty());
    let mut one = vec![commit(7, "a")];
    sort_stably(&mut one);
    assert_eq!(names(&one), vec!["a"]);
}

#[test]
fn sort_of_a_reversed_run() {
    let mut commits: Vec<CommitRecord> = (0..300).rev().map(|i| commit(i, &format!("{}", i))).collect();
    sort_stably(&mut commits);
    for (i, c) in commits.iter().enumerate() {
        assert_eq!(c.timestamp, i as i64);
    }
}

#[test]
fn earlier_commit_comes_before() {
    assert!(commit(1, "a").comes_before(&commit(2, "b")));
    assert!(!commit(2, "a").comes_before(&commit(2, "b")));
    assert!(!commit(3, "a").comes_before(&commit(2, "b")));
}
