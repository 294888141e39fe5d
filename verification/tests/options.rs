use renumber::error::{RenumberError, UsageError};
use renumber::options::{assemble, resolve, scan_flags, usage, Action, Flags};

fn args(list: &[&str]) -> Vec<String> {
    list.iter().map(|s| s.to_string()).collect()
}

#[test]
fn resolves_a_full_invocation() {
    let options = resolve(&args(&["--mv", "--match", ".*", "/dir", "out_", ".dat"])).unwrap();
    assert_eq!(options.action, Action::Move);
    assert_eq!(options.pattern.as_str(), ".*");
    assert_eq!(options.dir, "/dir");
    assert_eq!(options.prefix, "out_");
    assert_eq!(options.suffix, ".dat");
}

#[test]
fn without_flags_the_run_only_reports_and_matches_everything() {
    let options = resolve(&args(&["d", "p", "s"])).unwrap();
    assert_eq!(options.action, Action::ReportOnly);
    assert_eq!(options.pattern.as_str(), ".*");
    assert!(options.pattern.is_match(""));
    assert!(options.pattern.is_match("anything at all"));
}

#[test]
fn copy_flag_selects_copy() {
    let options = resolve(&args(&["--cp", "d", "p", "s"])).unwrap();
    assert_eq!(options.action, Action::Copy);
}

#[test]
fn the_last_action_flag_wins() {
    let options = resolve(&args(&["--cp", "--mv", "d", "p", "s"])).unwrap();
    assert_eq!(options.action, Action::Move);
    let options = resolve(&args(&["--mv", "--cp", "d", "p", "s"])).unwrap();
    assert_eq!(options.action, Action::Copy);
}

#[test]
fn the_last_match_wins() {
    let options = resolve(&args(&["--match", "a", "--match", "b+", "d", "p", "s"])).unwrap();
    assert_eq!(options.pattern.as_str(), "b+");
}

#[test]
fn match_takes_the_next_token_whatever_it_is() {
    let options = resolve(&args(&["--match", "--cp", "d", "p", "s"])).unwrap();
    assert_eq!(options.pattern.as_str(), "--cp");
    assert_eq!(options.action, Action::ReportOnly);
}

#[test]
fn flags_behind_the_first_positional_are_positionals() {
    let options = resolve(&args(&["d", "--cp", "s"])).unwrap();
    assert_eq!(options.action, Action::ReportOnly);
    assert_eq!(options.dir, "d");
    assert_eq!(options.prefix, "--cp");
    assert_eq!(options.suffix, "s");
}

#[test]
fn arguments_behind_the_suffix_are_ignored() {
    let options = resolve(&args(&["d", "p", "s", "extra", "--mv"])).unwrap();
    assert_eq!(options.action, Action::ReportOnly);
    assert_eq!(options.suffix, "s");
}

#[test]
fn missing_suffix_is_a_usage_failure() {
    let r = resolve(&args(&["--cp", "d", "p"]));
    let e = r.unwrap_err();
    assert_eq!(e, RenumberError::Usage(UsageError::MissingSuffix));
    assert_eq!(e.message(), "missing output suffix");
}

#[test]
fn missing_prefix_is_a_usage_failure() {
    let e = resolve(&args(&["d"])).unwrap_err();
    assert_eq!(e, RenumberError::Usage(UsageError::MissingPrefix));
    assert_eq!(e.message(), "missing output prefix");
}

#[test]
fn missing_directory_is_a_usage_failure() {
    let e = resolve(&args(&[])).unwrap_err();
    assert_eq!(e, RenumberError::Usage(UsageError::MissingDirectory));
    assert_eq!(e.message(), "missing dir to run in");
    let e = resolve(&args(&["--mv", "--match", "x"])).unwrap_err();
    assert_eq!(e, RenumberError::Usage(UsageError::MissingDirectory));
}

#[test]
fn match_without_a_value_is_a_usage_failure() {
    let e = resolve(&args(&["--match"])).unwrap_err();
    assert_eq!(e, RenumberError::Usage(UsageError::MissingMatchValue));
    assert_eq!(e.message(), "no value supplied for --match");
    let e = resolve(&args(&["--cp", "--match"])).unwrap_err();
    assert_eq!(e, RenumberError::Usage(UsageError::MissingMatchValue));
}

#[test]
fn usage_messages_are_the_documented_words() {
    assert_eq!(UsageError::MissingMatchValue.message(), "no value supplied for --match");
    assert_eq!(UsageError::MissingDirectory.message(), "missing dir to run in");
    assert_eq!(UsageError::MissingPrefix.message(), "missing output prefix");
    assert_eq!(UsageError::MissingSuffix.message(), "missing output suffix");
}

#[test]
fn a_pattern_that_does_not_compile_is_no_usage_failure() {
    let e = resolve(&args(&["--match", "img_(", "d", "p", "s"])).unwrap_err();
    assert!(matches!(e, RenumberError::Pattern(_)));
    let text = e.message();
    assert!(text.starts_with("failed to compile regex: "));
    assert!(text.len() > "failed to compile regex: ".len());
}

#[test]
fn a_bad_pattern_is_reported_before_a_missing_positional() {
    let e = resolve(&args(&["--match", "["])).unwrap_err();
    assert!(matches!(e, RenumberError::Pattern(_)));
}

#[test]
fn a_missing_match_value_is_reported_before_anything_else() {
    let e = resolve(&args(&["--match", "[", "--match"])).unwrap_err();
    assert_eq!(e, RenumberError::Usage(UsageError::MissingMatchValue));
}

#[test]
fn scan_flags_tells_where_the_positionals_begin() {
    let flags = scan_flags(&args(&["--cp", "--match", "x", "d", "p", "s"])).unwrap();
    assert_eq!(flags.action, Action::Copy);
    assert_eq!(flags.pattern, "x");
    assert_eq!(flags.rest, 3);
    let flags = scan_flags(&args(&[])).unwrap();
    assert_eq!(flags.action, Action::ReportOnly);
    assert_eq!(flags.pattern, ".*");
    assert_eq!(flags.rest, 0);
}

#[test]
fn commit_is_no_flag() {
    let flags = scan_flags(&args(&["--commit", "d", "p", "s"])).unwrap();
    assert_eq!(flags.action, Action::ReportOnly);
    assert_eq!(flags.rest, 0);
}

#[test]
fn assemble_reports_what_compiling_gave() {
    let list = args(&["--match", "a(", "d", "p", "s"]);
    let flags = Flags { action: Action::Copy, pattern: "a(".to_string(), rest: 2 };
    let bad = regex::Regex::new("a(");
    let expected = bad.clone().unwrap_err();
    assert_eq!(assemble(&list, &flags, bad).unwrap_err(), RenumberError::Pattern(expected));
    let good = regex::Regex::new("a+");
    let options = assemble(&list, &flags, good).unwrap();
    assert_eq!(options.action, Action::Copy);
    assert_eq!(options.pattern.as_str(), "a+");
    assert_eq!(options.dir, "d");
    assert_eq!(options.prefix, "p");
    assert_eq!(options.suffix, "s");
}

#[test]
fn assemble_names_the_first_missing_positional() {
    let list = args(&["d", "p"]);
    let at = |rest: usize| Flags { action: Action::ReportOnly, pattern: ".*".to_string(), rest };
    let re = || regex::Regex::new(".*");
    assert_eq!(
        assemble(&list, &at(0), re()).unwrap_err(),
        RenumberError::Usage(UsageError::MissingSuffix)
    );
    assert_eq!(
        assemble(&list, &at(1), re()).unwrap_err(),
        RenumberError::Usage(UsageError::MissingPrefix)
    );
    assert_eq!(
        assemble(&list, &at(2), re()).unwrap_err(),
        RenumberError::Usage(UsageError::MissingDirectory)
    );
    assert_eq!(
        assemble(&list, &at(usize::MAX), re()).unwrap_err(),
        RenumberError::Usage(UsageError::MissingDirectory)
    );
}

#[test]
fn status_line_reports_the_options() {
    let options = resolve(&args(&["--match", r"img_(\d+)\.png", "/dir", "out_", ".dat"])).unwrap();
    assert_eq!(
        options.status_line(),
        r"file_pattern: img_(\d+)\.png, dir: /dir, prefix: out_, suffix: .dat"
    );
    let options = resolve(&args(&["d", "", ""])).unwrap();
    assert_eq!(options.status_line(), "file_pattern: .*, dir: d, prefix: , suffix: ");
}

#[test]
fn usage_has_three_lines() {
    let lines = usage();
    assert_eq!(lines.len(), 3);
    assert_eq!(
        lines[0],
        "Usage: renumber [--cp | --mv] [--match file_regex] <dir> <output_prefix> <output_suffix>"
    );
    assert!(lines[1].contains("--cp to copy"));
    assert!(lines[2].contains("capture group"));
}

#[test]
fn capacity_message() {
    assert_eq!(
        RenumberError::TooManyCandidates.message(),
        "currently not supporting more than 1,000,000 entries"
    );
}
