//! The settings of a run, and how they are read from the texts that the
//! command line gives.
use vstd::prelude::*;
use crate::aliases::{alias_error_text, aliases_read, is_first_bad_alias, read_aliases, AliasTable};
use crate::calendar::parsed_day;
use crate::error::{Error, ErrorKind};
use crate::text::{ascii_lowercase, enclose, lowercase, same_text, same_text_ignoring_ascii_case};
use crate::time_bound::{date_error_text, named_bound, CommitTimeBound};

verus! {

/// Where the branches are looked for.
#[derive(Clone, Copy, Debug, PartialEq, Eq, Structural)]
pub enum BranchType {
    /// Under `refs/heads/`.
    Local,
    /// Under `refs/remotes/`.
    Remote,
}

/// How the result is written.
#[derive(Clone, Copy, Debug, PartialEq, Eq, Structural)]
pub enum OutputFormat {
    /// As a table.
    Stdout,
    /// As JSON.
    Json,
}

/// The settings of a run.
#[derive(Clone, Debug)]
pub struct Config {
    /// The largest time between two commits of one session, in seconds.
    pub max_commit_diff: u64,
    /// The time added for the first commit of a session, in seconds.
    pub first_commit_addition: u64,
    /// Where the time window begins.
    pub since: CommitTimeBound,
    /// Where the time window ends.
    pub until: CommitTimeBound,
    /// Whether commits whose message begins with `Merge ` count.
    pub merge_requests: bool,
    /// The path of the repository.
    pub git_repo_path: String,
    /// The addresses that stand for another address of the same author.
    pub email_aliases: AliasTable,
    /// The one branch to look at, if not all.
    pub branch: Option<String>,
    /// Where the branches are looked for.
    pub branch_type: BranchType,
    /// How the result is written.
    pub output_format: OutputFormat,
    /// Whether the result shows the time of each day.
    pub display_breakdown: bool,
}

/// The texts that the command line gives.
#[derive(Clone, Debug)]
pub struct Arguments {
    pub max_commit_diff: String,
    pub first_commit_add: String,
    pub since: Option<String>,
    pub until: Option<String>,
    pub email: Vec<String>,
    pub merge_requests: bool,
    pub branch: Option<String>,
    pub branch_type: Option<String>,
    pub format: String,
    pub repo_path: String,
    pub breakdown: bool,
}

/// Why a text is no number of minutes.
#[derive(Clone, Copy, Debug, PartialEq, Eq, Structural)]
pub enum NumberFault {
    /// The text is empty.
    Empty,
    /// The text holds something else than digits behind an optional `+`.
    InvalidDigit,
    /// The number does not fit in 32 bits.
    TooLarge,
}

/// Whether `c` is one of `0` to `9`.
pub open spec fn is_digit(c: char) -> bool {
    '0' <= c <= '9'
}

/// The number that a digit stands for.
pub open spec fn digit_value(c: char) -> int {
    c as int - '0' as int
}

/// The number that the digits of `text` from `place` on give, behind digits
/// that gave `value`. The digits are read from left to right, and reading
/// stops at the first fault.
pub open spec fn read_digits(text: Seq<char>, place: int, value: int) -> Result<int, NumberFault>
    decreases text.len() - place,
{
    if place >= text.len() {
        Ok(value)
    } else if !is_digit(text[place]) {
        Err(NumberFault::InvalidDigit)
    } else if value * 10 + digit_value(text[place]) > u32::MAX {
        Err(NumberFault::TooLarge)
    } else {
        read_digits(text, place + 1, value * 10 + digit_value(text[place]))
    }
}

/// The number that `text` gives: decimal digits, behind a `+` or not, that
/// fit in 32 bits.
pub open spec fn read_number(text: Seq<char>) -> Result<int, NumberFault> {
    if text.len() == 0 {
        Err(NumberFault::Empty)
    } else if text.len() == 1 && (text[0] == '+' || text[0] == '-') {
        Err(NumberFault::InvalidDigit)
    } else if text[0] == '+' {
        read_digits(text, 1, 0)
    } else {
        read_digits(text, 0, 0)
    }
}

/// The message for a fault in a number.
pub open spec fn fault_text(fault: NumberFault) -> Seq<char> {
    match fault {
        NumberFault::Empty => "cannot parse integer from empty string"@,
        NumberFault::InvalidDigit => "invalid digit found in string"@,
        NumberFault::TooLarge => "number too large to fit in target type"@,
    }
}

/// Reads a number of minutes.
pub fn parse_minutes(text: &str) -> (minutes: Result<u32, Error>)
    ensures
        match minutes {
            Ok(m) => read_number(text@) == Ok::<int, NumberFault>(m as int),
            Err(e) => read_number(text@) matches Err(fault) && e.0 is Minutes && e.text() == fault_text(fault),
        },
{
    let length = text.unicode_len();
    if length == 0 {
        return Err(Error(ErrorKind::Minutes(String::from_str("cannot parse integer from empty string"))));
    }
    let first = text.get_char(0);
    if length == 1 && (first == '+' || first == '-') {
        return Err(Error(ErrorKind::Minutes(String::from_str("invalid digit found in string"))));
    }
    let mut place: usize = if first == '+' { 1 } else { 0 };
    let mut value: u64 = 0;
    while place < length
        invariant
            place <= length,
            length == text@.len(),
            value <= u32::MAX,
            read_number(text@) == read_digits(text@, place as int, value as int),
        decreases length - place,
    {
        let c = text.get_char(place);
        if !('0' <= c && c <= '9') {
            return Err(Error(ErrorKind::Minutes(String::from_str("invalid digit found in string"))));
        }
        let digit: u64 = (c as u64) - ('0' as u64);
        if value * 10 + digit > 4294967295 {
            return Err(Error(ErrorKind::Minutes(String::from_str("number too large to fit in target type"))));
        }
        value = value * 10 + digit;
        place = place + 1;
    }
    Ok(value as u32)
}

/// The message for a text that names no branch type.
pub open spec fn branch_type_error_text(text: Seq<char>) -> Seq<char> {
    "Invalid branch type '"@ + text + "'"@
}

/// The branch type that a text names: `local` where there is no text.
pub open spec fn branch_type_read(text: Option<String>) -> Option<BranchType> {
    match text {
        None => Some(BranchType::Local),
        Some(t) => if t@ == "local"@ {
            Some(BranchType::Local)
        } else if t@ == "remote"@ {
            Some(BranchType::Remote)
        } else {
            None
        },
    }
}

/// Reads a branch type: `local` or `remote`.
pub fn parse_branch_type(text: &Option<String>) -> (kind: Result<BranchType, Error>)
    ensures
        match kind {
            Ok(k) => branch_type_read(*text) == Some(k),
            Err(e) => branch_type_read(*text) is None && e.0 is BranchType && e.text() == branch_type_error_text(
                text.unwrap()@,
            ),
        },
{
    match text {
        None => Ok(BranchType::Local),
        Some(t) => {
            if same_text(t.as_str(), "local") {
                Ok(BranchType::Local)
            } else if same_text(t.as_str(), "remote") {
                Ok(BranchType::Remote)
            } else {
                Err(Error(ErrorKind::BranchType(enclose("Invalid branch type '", t.as_str(), "'"))))
            }
        },
    }
}

/// The output format that a text names, whatever the case of its letters.
pub open spec fn output_format_read(text: Seq<char>) -> Option<OutputFormat> {
    if ascii_lowercase(text) == ascii_lowercase("Stdout"@) {
        Some(OutputFormat::Stdout)
    } else if ascii_lowercase(text) == ascii_lowercase("Json"@) {
        Some(OutputFormat::Json)
    } else {
        None
    }
}

/// Reads an output format: `stdout` or `json`, in any case.
pub fn parse_output_format(text: &str) -> (format: Result<OutputFormat, Error>)
    ensures
        match format {
            Ok(f) => output_format_read(text@) == Some(f),
            Err(e) => output_format_read(text@) is None && e.0 is OutputFormat && e.text()
                == "valid values: Stdout, Json"@,
        },
{
    if same_text_ignoring_ascii_case(text, "Stdout") {
        Ok(OutputFormat::Stdout)
    } else if same_text_ignoring_ascii_case(text, "Json") {
        Ok(OutputFormat::Json)
    } else {
        Err(Error(ErrorKind::OutputFormat(String::from_str("valid values: Stdout, Json"))))
    }
}

/// The bound that a text names: `always` where there is no text.
pub open spec fn bound_read(text: Option<String>) -> Option<CommitTimeBound> {
    match text {
        None => Some(CommitTimeBound::Always),
        Some(t) => named_bound(lowercase(t@), parsed_day(lowercase(t@))),
    }
}

/// Reads a bound of the time window.
pub fn parse_bound(text: &Option<String>) -> (bound: Result<CommitTimeBound, Error>)
    ensures
        match bound {
            Ok(b) => bound_read(*text) == Some(b) && b.well_formed(),
            Err(e) => bound_read(*text) is None && e.0 is FromStr && e.text() == date_error_text(text.unwrap()@),
        },
{
    match text {
        None => Ok(CommitTimeBound::Always),
        Some(t) => CommitTimeBound::from_str(t.as_str()),
    }
}

impl Config {
    /// Whether the bounds of the time window are days that the calendar
    /// holds.
    pub open spec fn well_formed(&self) -> bool {
        self.since.well_formed() && self.until.well_formed()
    }

    /// Whether these are the settings that `args` give.
    pub open spec fn reads(&self, args: Arguments) -> bool {
        &&& read_number(args.max_commit_diff@) matches Ok(minutes) && self.max_commit_diff == minutes * 60
        &&& read_number(args.first_commit_add@) matches Ok(minutes) && self.first_commit_addition == minutes * 60
        &&& bound_read(args.since) == Some(self.since)
        &&& bound_read(args.until) == Some(self.until)
        &&& self.merge_requests == args.merge_requests
        &&& self.display_breakdown == args.breakdown
        &&& self.git_repo_path@ == args.repo_path@
        &&& aliases_read(args.email@) == Some(self.email_aliases@)
        &&& self.branch == args.branch
        &&& branch_type_read(args.branch_type) == Some(self.branch_type)
        &&& output_format_read(args.format@) == Some(self.output_format)
    }
}

/// Whether `e` is the error for the first text of `args` that cannot be
/// read, in the order in which the texts are read, with the message that
/// holds that text.
pub open spec fn rejects(args: Arguments, e: Error) -> bool {
    if read_number(args.max_commit_diff@) is Err {
        e.0 is Minutes && e.text() == fault_text(read_number(args.max_commit_diff@)->Err_0)
    } else if read_number(args.first_commit_add@) is Err {
        e.0 is Minutes && e.text() == fault_text(read_number(args.first_commit_add@)->Err_0)
    } else if bound_read(args.since) is None {
        e.0 is FromStr && e.text() == date_error_text(args.since.unwrap()@)
    } else if bound_read(args.until) is None {
        e.0 is FromStr && e.text() == date_error_text(args.until.unwrap()@)
    } else if aliases_read(args.email@) is None {
        e.0 is EmailAlias && exists|place: int|
            #[trigger] is_first_bad_alias(args.email@, place) && e.text() == alias_error_text(args.email@[place]@)
    } else if branch_type_read(args.branch_type) is None {
        e.0 is BranchType && e.text() == branch_type_error_text(args.branch_type.unwrap()@)
    } else {
        output_format_read(args.format@) is None && e.0 is OutputFormat && e.text()
            == "valid values: Stdout, Json"@
    }
}

/// Reads the settings of a run from the texts of the command line. The
/// texts are read in a fixed order, and the first that cannot be read gives
/// the error.
pub fn to_config(args: Arguments) -> (config: Result<Config, Error>)
    ensures
        match config {
            Ok(c) => c.reads(args) && c.well_formed(),
            Err(e) => rejects(args, e),
        },
{
    let max_commit_diff = match parse_minutes(args.max_commit_diff.as_str()) {
        Ok(minutes) => minutes,
        Err(e) => {
            return Err(e);
        },
    };
    let first_commit_addition = match parse_minutes(args.first_commit_add.as_str()) {
        Ok(minutes) => minutes,
        Err(e) => {
            return Err(e);
        },
    };
    let since = match parse_bound(&args.since) {
        Ok(bound) => bound,
        Err(e) => {
            return Err(e);
        },
    };
    let until = match parse_bound(&args.until) {
        Ok(bound) => bound,
        Err(e) => {
            return Err(e);
        },
    };
    let email_aliases = match read_aliases(&args.email) {
        Ok(table) => table,
        Err(e) => {
            return Err(e);
        },
    };
    let branch_type = match parse_branch_type(&args.branch_type) {
        Ok(kind) => kind,
        Err(e) => {
            return Err(e);
        },
    };
    let output_format = match parse_output_format(args.format.as_str()) {
        Ok(format) => format,
        Err(e) => {
            return Err(e);
        },
    };
    Ok(
        Config {
            max_commit_diff: (max_commit_diff as u64) * 60,
            first_commit_addition: (first_commit_addition as u64) * 60,
            since,
            until,
            merge_requests: args.merge_requests,
            git_repo_path: args.repo_path,
            email_aliases,
            branch: args.branch,
            branch_type,
            output_format,
            display_breakdown: args.breakdown,
        },
    )
}

} // verus!
