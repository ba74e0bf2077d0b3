use repo_radar::cli::{parse_arguments, parse_unsigned, wants_help, Options, OutputFormat};

fn arguments(values: &[&str]) -> Vec<String> {
    values.iter().map(|value| (*value).to_owned()).collect()
}

#[test]
fn defaults_to_current_directory_text_and_top_ten() {
    let options = parse_arguments(&Vec::new()).unwrap();

    assert_eq!(options, Options::default());
    assert_eq!(options.root, ".");
    assert_eq!(options.top, 10);
    assert_eq!(options.format, OutputFormat::Text);
    assert!(options.count_lines);
    assert!(options.read_git);
    assert_eq!(options.since_days, 30);
    assert!(options.read_cargo);
    assert!(options.read_profile);
}

#[test]
fn no_lines_flag_disables_line_counting() {
    let options = parse_arguments(&arguments(&["--no-lines"])).unwrap();

    assert!(!options.count_lines);
}

#[test]
fn no_cargo_flag_disables_cargo_analyses() {
    let options = parse_arguments(&arguments(&["--no-cargo"])).unwrap();

    assert!(!options.read_cargo);
}

#[test]
fn no_git_flag_disables_git_analyses() {
    let options = parse_arguments(&arguments(&["--no-git"])).unwrap();

    assert!(!options.read_git);
}

#[test]
fn no_profile_flag_disables_the_project_profile() {
    let options = parse_arguments(&arguments(&["--no-profile"])).unwrap();

    assert!(!options.read_profile);
}

#[test]
fn since_days_flag_sets_the_activity_window() {
    let options = parse_arguments(&arguments(&["--since-days", "7"])).unwrap();

    assert_eq!(options.since_days, 7);
}

#[test]
fn since_days_zero_is_legal_and_means_today_only() {
    let options = parse_arguments(&arguments(&["--since-days", "0"])).unwrap();

    assert_eq!(options.since_days, 0);
}

#[test]
fn since_days_rejects_a_non_numeric_value() {
    assert!(parse_arguments(&arguments(&["--since-days", "many"])).is_err());
    assert!(parse_arguments(&arguments(&["--since-days"])).is_err());
}

#[test]
fn parses_path_and_flags_in_any_order() {
    let options = parse_arguments(&arguments(&["--format", "json", "src", "--top", "3"]))
        .expect("flags should parse before and after the path");

    assert_eq!(options.root, "src");
    assert_eq!(options.top, 3);
    assert_eq!(options.format, OutputFormat::Json);
}

#[test]
fn rejects_invalid_usage_instead_of_falling_back() {
    assert!(parse_arguments(&arguments(&["--top", "many"])).is_err());
    assert!(parse_arguments(&arguments(&["--top"])).is_err());
    assert!(parse_arguments(&arguments(&["--format", "yaml"])).is_err());
    assert!(parse_arguments(&arguments(&["--format"])).is_err());
    assert!(parse_arguments(&arguments(&["--tpo", "5"])).is_err());
    assert!(parse_arguments(&arguments(&["one", "two"])).is_err());
}

#[test]
fn each_usage_error_says_what_was_wrong() {
    let error = |values: &[&str]| parse_arguments(&arguments(values)).unwrap_err();

    assert_eq!(error(&["--top"]), "--top requires a value");
    assert_eq!(error(&["--top", "-1"]), "invalid value '-1' for --top, expected a number");
    assert_eq!(error(&["--format", "yaml"]), "unsupported format 'yaml', expected text, json, or html");
    assert_eq!(error(&["--since-days", "4294967296"]), "invalid value '4294967296' for --since-days, expected a number");
    assert_eq!(error(&["--tpo", "5"]), "unknown flag '--tpo'");
    assert_eq!(error(&["one", "two"]), "unexpected argument 'two', expected one path");
    assert_eq!(error(&["-"]), "unknown flag '-'");
}

#[test]
fn numbers_parse_as_unsigned_integers_do() {
    assert_eq!(parse_unsigned("+12", 100), Some(12));
    assert_eq!(parse_unsigned("007", 100), Some(7));
    assert_eq!(parse_unsigned("+", 100), None);
    assert_eq!(parse_unsigned("", 100), None);
    assert_eq!(parse_unsigned("101", 100), None);
    assert_eq!(parse_unsigned("1 ", 100), None);
    assert_eq!(parse_unsigned("4294967295", u32::MAX as u64), Some(4294967295));
    assert_eq!(parse_unsigned("18446744073709551615", u64::MAX), Some(u64::MAX));
    assert_eq!(parse_unsigned("18446744073709551616", u64::MAX), None);
    let options = parse_arguments(&arguments(&["--format", "html", "--since-days", "+5", "--no-lines"])).unwrap();
    assert_eq!(options.format, OutputFormat::Html);
    assert_eq!(options.since_days, 5);
    assert!(!options.count_lines);
}

#[test]
fn help_is_asked_for_anywhere() {
    assert!(wants_help(&arguments(&["src", "--help"])));
    assert!(wants_help(&arguments(&["-h"])));
    assert!(!wants_help(&arguments(&["--helpful"])));
}
