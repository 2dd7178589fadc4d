use jikyuu::aliases::{parse_email_alias, read_aliases};
use jikyuu::calendar::CalendarDate;
use jikyuu::config::{
    parse_bound, parse_branch_type, parse_minutes, parse_output_format, to_config, Arguments, BranchType,
    OutputFormat,
};
use jikyuu::error::ErrorKind;
use jikyuu::time_bound::CommitTimeBound;

fn arguments() -> Arguments {
    Arguments {
        max_commit_diff: String::from("120"),
        first_commit_add: String::from("30"),
        since: Some(String::from("always")),
        until: Some(String::from("always")),
        email: Vec::new(),
        merge_requests: false,
        branch: None,
        branch_type: None,
        format: String::from("stdout"),
        repo_path: String::from("."),
        breakdown: false,
    }
}

#[test]
fn alias_is_split_at_the_first_sign() {
    assert_eq!(parse_email_alias("a@x=b@x").unwrap(), (String::from("a@x"), String::from("b@x")));
    assert_eq!(parse_email_alias("a=b=c").unwrap(), (String::from("a"), String::from("b=c")));
    assert_eq!(parse_email_alias("=b").unwrap(), (String::new(), String::from("b")));
    assert_eq!(parse_email_alias("a=").unwrap(), (String::from("a"), String::new()));
    assert_eq!(parse_email_alias("=").unwrap(), (String::new(), String::new()));
    assert_eq!(parse_email_alias("é=ü").unwrap(), (String::from("é"), String::from("ü")));
}

#[test]
fn alias_without_the_sign_is_an_error() {
    let error = parse_email_alias("a@x").unwrap_err();
    assert_eq!(error.0, ErrorKind::EmailAlias(String::from("Could not parse email alias 'a@x'")));
    assert_eq!(parse_email_alias("").unwrap_err().message(), "Could not parse email alias ''");
}

#[test]
fn aliases_are_read_in_their_order() {
    let table = read_aliases(&vec![String::from("a=b"), String::from("c=d"), String::from("a=e")]).unwrap();
    assert_eq!(table.resolve(&String::from("a")), "e");
    assert_eq!(table.resolve(&String::from("c")), "d");
    assert_eq!(table.resolve(&String::from("b")), "b");
    let error = read_aliases(&vec![String::from("a=b"), String::from("bad"), String::from("worse")]).unwrap_err();
    assert_eq!(error.message(), "Could not parse email alias 'bad'");
    assert_eq!(read_aliases(&Vec::new()).unwrap().pairs.len(), 0);
}

#[test]
fn minutes_are_decimal_numbers_of_32_bits() {
    assert_eq!(parse_minutes("0").unwrap(), 0);
    assert_eq!(parse_minutes("120").unwrap(), 120);
    assert_eq!(parse_minutes("+30").unwrap(), 30);
    assert_eq!(parse_minutes("007").unwrap(), 7);
    assert_eq!(parse_minutes("4294967295").unwrap(), u32::MAX);
    assert_eq!(parse_minutes("00000000004294967295").unwrap(), u32::MAX);
}

#[test]
fn minutes_that_are_no_number() {
    assert_eq!(
        parse_minutes("").unwrap_err().0,
        ErrorKind::Minutes(String::from("cannot parse integer from empty string"))
    );
    for text in ["+", "-", "-1", "1 ", " 1", "12a", "1_000", "0x10", "1.5", "++1", "٣"] {
        assert_eq!(
            parse_minutes(text).unwrap_err().0,
            ErrorKind::Minutes(String::from("invalid digit found in string")),
            "{}",
            text
        );
    }
    for text in ["4294967296", "99999999999", "42949672950", "99999999999x"] {
        assert_eq!(
            parse_minutes(text).unwrap_err().0,
            ErrorKind::Minutes(String::from("number too large to fit in target type")),
            "{}",
            text
        );
    }
    assert_eq!(parse_minutes("4294967295x").unwrap_err().message(), "invalid digit found in string");
}

#[test]
fn minutes_are_read_as_the_standard_library_reads_them() {
    for text in ["", "+", "-", "0", "+0", "-0", "12", "+12", "4294967295", "4294967296", "99999999999x", "1x", "x"] {
        let ours = parse_minutes(text).map_err(|e| e.message());
        let theirs = text.parse::<u32>().map_err(|e| e.to_string());
        assert_eq!(ours, theirs, "{}", text);
    }
}

#[test]
fn branch_types() {
    assert_eq!(parse_branch_type(&None).unwrap(), BranchType::Local);
    assert_eq!(parse_branch_type(&Some(String::from("local"))).unwrap(), BranchType::Local);
    assert_eq!(parse_branch_type(&Some(String::from("remote"))).unwrap(), BranchType::Remote);
    let error = parse_branch_type(&Some(String::from("Remote"))).unwrap_err();
    assert_eq!(error.0, ErrorKind::BranchType(String::from("Invalid branch type 'Remote'")));
}

#[test]
fn output_formats() {
    assert_eq!(parse_output_format("stdout").unwrap(), OutputFormat::Stdout);
    assert_eq!(parse_output_format("Stdout").unwrap(), OutputFormat::Stdout);
    assert_eq!(parse_output_format("JSON").unwrap(), OutputFormat::Json);
    assert_eq!(parse_output_format("jSoN").unwrap(), OutputFormat::Json);
    let error = parse_output_format("xml").unwrap_err();
    assert_eq!(error.0, ErrorKind::OutputFormat(String::from("valid values: Stdout, Json")));
    assert!(parse_output_format("json ").is_err());
    assert!(parse_output_format("").is_err());
}

#[test]
fn bound_that_is_not_given_is_no_bound() {
    assert_eq!(parse_bound(&None).unwrap(), CommitTimeBound::Always);
    assert_eq!(parse_bound(&Some(String::from("TODAY"))).unwrap(), CommitTimeBound::Today);
    assert_eq!(
        parse_bound(&Some(String::from("Never"))).unwrap_err().message(),
        "Could not parse date 'Never' using YYYY-mm-dd format"
    );
}

#[test]
fn settings_from_the_defaults() {
    let config = to_config(arguments()).unwrap();
    assert_eq!(config.max_commit_diff, 7200);
    assert_eq!(config.first_commit_addition, 1800);
    assert_eq!(config.since, CommitTimeBound::Always);
    assert_eq!(config.until, CommitTimeBound::Always);
    assert!(!config.merge_requests);
    assert!(!config.display_breakdown);
    assert_eq!(config.git_repo_path, ".");
    assert_eq!(config.branch, None);
    assert_eq!(config.branch_type, BranchType::Local);
    assert_eq!(config.output_format, OutputFormat::Stdout);
    assert!(config.email_aliases.pairs.is_empty());
}

#[test]
fn settings_from_every_text() {
    let mut args = arguments();
    args.max_commit_diff = String::from("4294967295");
    args.first_commit_add = String::from("0");
    args.since = Some(String::from("2021-03-14"));
    args.until = None;
    args.email = vec![String::from("old@x=new@x")];
    args.merge_requests = true;
    args.branch = Some(String::from("main"));
    args.branch_type = Some(String::from("remote"));
    args.format = String::from("Json");
    args.repo_path = String::from("/tmp/repo");
    args.breakdown = true;
    let config = to_config(args).unwrap();
    assert_eq!(config.max_commit_diff, 4294967295 * 60);
    assert_eq!(config.first_commit_addition, 0);
    assert_eq!(config.since, CommitTimeBound::Date(CalendarDate { year: 2021, month: 3, day: 14 }));
    assert_eq!(config.until, CommitTimeBound::Always);
    assert_eq!(config.email_aliases.resolve(&String::from("old@x")), "new@x");
    assert!(config.merge_requests);
    assert_eq!(config.branch, Some(String::from("main")));
    assert_eq!(config.branch_type, BranchType::Remote);
    assert_eq!(config.output_format, OutputFormat::Json);
    assert_eq!(config.git_repo_path, "/tmp/repo");
    assert!(config.display_breakdown);
}

#[test]
fn first_text_that_cannot_be_read_gives_the_error() {
    let mut args = arguments();
    args.format = String::from("xml");
    assert_eq!(
        to_config(args.clone()).unwrap_err().0,
        ErrorKind::OutputFormat(String::from("valid values: Stdout, Json"))
    );
    args.branch_type = Some(String::from("both"));
    assert_eq!(
        to_config(args.clone()).unwrap_err().0,
        ErrorKind::BranchType(String::from("Invalid branch type 'both'"))
    );
    args.email = vec![String::from("a=b"), String::from("c"), String::from("d")];
    assert_eq!(
        to_config(args.clone()).unwrap_err().0,
        ErrorKind::EmailAlias(String::from("Could not parse email alias 'c'"))
    );
    args.until = Some(String::from("then"));
    assert_eq!(
        to_config(args.clone()).unwrap_err().message(),
        "Could not parse date 'then' using YYYY-mm-dd format"
    );
    args.since = Some(String::from("Once"));
    assert_eq!(
        to_config(args.clone()).unwrap_err().message(),
        "Could not parse date 'Once' using YYYY-mm-dd format"
    );
    args.first_commit_add = String::from("x");
    assert_eq!(to_config(args.clone()).unwrap_err().message(), "invalid digit found in string");
    args.max_commit_diff = String::new();
    assert_eq!(to_config(args).unwrap_err().message(), "cannot parse integer from empty string");
}
