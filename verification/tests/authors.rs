use jikyuu::aliases::AliasTable;
use jikyuu::authors::{can_total, estimate_author_times, get_totals, group_by_author, rank_authors};
use jikyuu::breakdown::Breakdown;
use jikyuu::commit::CommitRecord;
use jikyuu::config::{BranchType, Config, OutputFormat};
use jikyuu::estimate::CommitHours;
use jikyuu::stable_sort::Ranked;
use jikyuu::time_bound::CommitTimeBound;

const T: i64 = 1615716000;

fn commit(timestamp: i64, email: Option<&str>, name: &str) -> CommitRecord {
    CommitRecord {
        timestamp,
        author_email: email.map(String::from),
        author_name: Some(String::from(name)),
        summary: None,
        is_merge: false,
    }
}

fn config(aliases: AliasTable) -> Config {
    Config {
        max_commit_diff: 120 * 60,
        first_commit_addition: 30 * 60,
        since: CommitTimeBound::Always,
        until: CommitTimeBound::Always,
        merge_requests: false,
        git_repo_path: String::from("."),
        email_aliases: aliases,
        branch: None,
        branch_type: BranchType::Local,
        output_format: OutputFormat::Stdout,
        display_breakdown: false,
    }
}

fn hours(email: &str, duration: u128, commit_count: usize) -> CommitHours {
    let mut breakdown = Breakdown::new();
    breakdown.credit(&String::from("2021-03-14"), duration);
    CommitHours { email: Some(String::from(email)), author_name: None, breakdown, duration, commit_count }
}

fn emails(times: &Vec<CommitHours>) -> Vec<String> {
    times.iter().map(|t| t.email.clone().unwrap_or(String::from("(none)"))).collect()
}

#[test]
fn aliases_resolve_to_the_main_address() {
    let mut aliases = AliasTable::new();
    aliases.insert(String::from("old@x"), String::from("new@x"));
    aliases.insert(String::from("older@x"), String::from("new@x"));
    assert_eq!(aliases.resolve(&String::from("old@x")), "new@x");
    assert_eq!(aliases.resolve(&String::from("older@x")), "new@x");
    assert_eq!(aliases.resolve(&String::from("new@x")), "new@x");
    assert_eq!(aliases.resolve(&String::from("Old@x")), "Old@x");
}

#[test]
fn last_alias_of_an_address_counts() {
    let mut aliases = AliasTable::new();
    aliases.insert(String::from("a@x"), String::from("first@x"));
    aliases.insert(String::from("a@x"), String::from("second@x"));
    assert_eq!(aliases.resolve(&String::from("a@x")), "second@x");
}

#[test]
fn alias_is_resolved_once() {
    let mut aliases = AliasTable::new();
    aliases.insert(String::from("a@x"), String::from("b@x"));
    aliases.insert(String::from("b@x"), String::from("c@x"));
    assert_eq!(aliases.resolve(&String::from("a@x")), "b@x");
}

#[test]
fn commits_are_gathered_by_address() {
    let mut aliases = AliasTable::new();
    aliases.insert(String::from("b2@x"), String::from("b@x"));
    let commits = vec![
        commit(1, Some("b2@x"), "B"),
        commit(2, None, "N"),
        commit(3, Some("a@x"), "A"),
        commit(4, Some("b@x"), "B"),
        commit(5, None, "N"),
        commit(6, Some("a@x"), "A"),
    ];
    let grouped = group_by_author(commits, &aliases);
    assert_eq!(grouped.no_email.iter().map(|c| c.timestamp).collect::<Vec<_>>(), vec![2, 5]);
    assert_eq!(grouped.by_email.len(), 2);
    assert_eq!(grouped.by_email[0].email, "b@x");
    assert_eq!(grouped.by_email[0].commits.iter().map(|c| c.timestamp).collect::<Vec<_>>(), vec![1, 4]);
    assert_eq!(grouped.by_email[1].email, "a@x");
    assert_eq!(grouped.by_email[1].commits.iter().map(|c| c.timestamp).collect::<Vec<_>>(), vec![3, 6]);
}

#[test]
fn no_commits_give_no_groups() {
    let grouped = group_by_author(Vec::new(), &AliasTable::new());
    assert!(grouped.no_email.is_empty());
    assert!(grouped.by_email.is_empty());
    assert!(estimate_author_times(&config(AliasTable::new()), Vec::new()).is_empty());
}

#[test]
fn single_author_single_commit() {
    let times = estimate_author_times(&config(AliasTable::new()), vec![commit(T, Some("a@x"), "A")]);
    assert_eq!(times.len(), 1);
    assert_eq!(times[0].commit_count, 1);
    assert_eq!(times[0].duration, 30 * 60);
    assert_eq!(times[0].email, Some(String::from("a@x")));
    assert_eq!(times[0].author_name, Some(String::from("A")));
}

#[test]
fn authors_are_ranked_by_time_then_commits() {
    let commits = vec![
        commit(T, Some("short@x"), "S"),
        commit(T, Some("long@x"), "L"),
        commit(T + 3600, Some("long@x"), "L"),
        commit(T, None, "N"),
        commit(T + 60, None, "N"),
        commit(T, Some("many@x"), "M"),
        commit(T, Some("many@x"), "M"),
    ];
    let times = estimate_author_times(&config(AliasTable::new()), commits);
    assert_eq!(emails(&times), vec!["long@x", "(none)", "many@x", "short@x"]);
    assert_eq!(times.iter().map(|t| t.duration).collect::<Vec<_>>(), vec![5400, 1860, 1800, 1800]);
    assert_eq!(times.iter().map(|t| t.commit_count).collect::<Vec<_>>(), vec![2, 2, 2, 1]);
}

#[test]
fn equal_authors_keep_the_order_of_first_occurrence() {
    let commits = vec![
        commit(T, Some("c@x"), "C"),
        commit(T + 5, Some("a@x"), "A"),
        commit(T + 9, Some("b@x"), "B"),
    ];
    let first = estimate_author_times(&config(AliasTable::new()), commits.clone());
    let second = estimate_author_times(&config(AliasTable::new()), commits);
    assert_eq!(emails(&first), vec!["c@x", "a@x", "b@x"]);
    assert_eq!(first, second);
}

#[test]
fn commits_without_address_come_first_among_equals() {
    let commits = vec![commit(T, Some("a@x"), "A"), commit(T, None, "N")];
    let times = estimate_author_times(&config(AliasTable::new()), commits);
    assert_eq!(emails(&times), vec!["(none)", "a@x"]);
}

#[test]
fn aliases_join_the_commits_of_one_author() {
    let mut aliases = AliasTable::new();
    aliases.insert(String::from("work@x"), String::from("home@x"));
    let commits = vec![commit(T, Some("work@x"), "W"), commit(T + 600, Some("home@x"), "H")];
    let times = estimate_author_times(&config(aliases), commits);
    assert_eq!(times.len(), 1);
    assert_eq!(times[0].email, Some(String::from("home@x")));
    assert_eq!(times[0].duration, 30 * 60 + 600);
    assert_eq!(times[0].author_name, Some(String::from("W")));
}

#[test]
fn ranking_is_stable() {
    let mut times = vec![
        hours("a", 100, 1),
        hours("b", 200, 1),
        hours("c", 100, 1),
        hours("d", 100, 2),
        hours("e", 200, 1),
        hours("f", 100, 1),
    ];
    rank_authors(&mut times);
    assert_eq!(emails(&times), vec!["b", "e", "d", "a", "c", "f"]);
}

#[test]
fn longer_time_comes_before() {
    assert!(hours("a", 2, 1).comes_before(&hours("b", 1, 9)));
    assert!(hours("a", 2, 2).comes_before(&hours("b", 2, 1)));
    assert!(!hours("a", 2, 1).comes_before(&hours("b", 2, 1)));
    assert!(!hours("a", 1, 9).comes_before(&hours("b", 2, 1)));
}

#[test]
fn totals_count_whole_minutes_of_each_author() {
    let times = vec![hours("a", 119, 3), hours("b", 61, 2), hours("c", 3600, 1)];
    assert_eq!(get_totals(&times), (1 + 1 + 60, 6));
    assert_eq!(get_totals(&Vec::new()), (0, 0));
}

#[test]
fn totals_of_an_estimate() {
    let commits = vec![
        commit(T, Some("a@x"), "A"),
        commit(T + 90, Some("a@x"), "A"),
        commit(T, Some("b@x"), "B"),
    ];
    let times = estimate_author_times(&config(AliasTable::new()), commits);
    assert_eq!(get_totals(&times), (31 + 30, 3));
}

#[test]
fn totals_can_be_taken_of_well_formed_estimates() {
    assert!(can_total(&Vec::new()));
    assert!(can_total(&vec![hours("a", 119, 3), hours("b", 61, 2)]));
    assert!(!can_total(&vec![hours("a", 119, 3), hours("b", 61, 0)]));
    assert!(!can_total(&vec![hours("a", 1, usize::MAX), hours("b", 1, 1)]));
    assert!(can_total(&vec![hours("a", 1, usize::MAX - 1), hours("b", 1, 1)]));
}
