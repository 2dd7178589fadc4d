use jikyuu::breakdown::{Breakdown, DayTime};

#[test]
fn new_breakdown_is_empty() {
    let breakdown = Breakdown::new();
    assert_eq!(breakdown.len(), 0);
    assert_eq!(breakdown.get(&String::from("2021-03-14")), None);
}

#[test]
fn credit_adds_to_the_entry_of_the_day() {
    let mut breakdown = Breakdown::new();
    let first = breakdown.credit(&String::from("2021-03-14"), 10);
    let second = breakdown.credit(&String::from("2021-03-15"), 20);
    let again = breakdown.credit(&String::from("2021-03-14"), 5);
    assert_eq!((first, second, again), (0, 1, 0));
    assert_eq!(breakdown.len(), 2);
    assert_eq!(breakdown.get(&String::from("2021-03-14")), Some(15));
    assert_eq!(breakdown.get(&String::from("2021-03-15")), Some(20));
    assert_eq!(
        breakdown.entries,
        vec![
            DayTime { day: String::from("2021-03-14"), seconds: 15 },
            DayTime { day: String::from("2021-03-15"), seconds: 20 },
        ]
    );
}

#[test]
fn credit_at_adds_to_the_entry_at_the_place() {
    let mut breakdown = Breakdown::new();
    breakdown.credit(&String::from("a"), 1);
    breakdown.credit(&String::from("b"), 2);
    breakdown.credit_at(1, 40);
    assert_eq!(breakdown.get(&String::from("a")), Some(1));
    assert_eq!(breakdown.get(&String::from("b")), Some(42));
}

#[test]
fn credit_of_nothing_still_makes_an_entry() {
    let mut breakdown = Breakdown::new();
    breakdown.credit(&String::from("a"), 0);
    assert_eq!(breakdown.len(), 1);
    assert_eq!(breakdown.get(&String::from("a")), Some(0));
}

#[test]
fn days_must_be_distinct() {
    let mut breakdown = Breakdown::new();
    assert!(breakdown.check());
    breakdown.credit(&String::from("a"), 1);
    breakdown.credit(&String::from("b"), 2);
    breakdown.credit(&String::from("c"), 3);
    assert!(breakdown.check());
    breakdown.entries.push(DayTime { day: String::from("b"), seconds: 0 });
    assert!(!breakdown.check());
}

#[test]
fn sum_of_the_days() {
    let mut breakdown = Breakdown::new();
    assert_eq!(breakdown.sum(), Some(0));
    breakdown.credit(&String::from("a"), 5);
    breakdown.credit(&String::from("b"), u128::MAX - 5);
    assert_eq!(breakdown.sum(), Some(u128::MAX));
    breakdown.entries.push(DayTime { day: String::from("c"), seconds: 1 });
    assert_eq!(breakdown.sum(), None);
}
