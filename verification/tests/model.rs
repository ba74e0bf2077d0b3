use repo_radar::{
    display_path, sanitize_for_terminal, Analysis, DirectoryEntry, FileEntry, LineCounts, NotEvaluated, ScanConfig, ScanReport,
};

#[test]
fn sanitizes_terminal_control_sequences() {
    assert_eq!(sanitize_for_terminal("plain/name.rs"), "plain/name.rs", "ordinary text must pass through unchanged");
    assert_eq!(
        sanitize_for_terminal("evil\u{1b}[31mname"),
        "evil\u{fffd}[31mname",
        "the escape byte must not survive, but the rest of the name must"
    );
    for hostile in ["a\u{7}b", "a\u{7f}b", "a\u{9b}b", "a\tb", "a\nb", "a\rb"] {
        let sanitized = sanitize_for_terminal(hostile);
        assert!(
            !sanitized.chars().any(|character| character.is_control()),
            "control character survived sanitizing {hostile:?} into {sanitized:?}"
        );
        assert_eq!(sanitized.chars().count(), 3, "length must be preserved");
    }
}

#[test]
fn sanitizing_preserves_non_ascii_text() {
    for text in ["café/ünïcode.rs", "日本語", "emoji-🦀.rs"] {
        assert_eq!(sanitize_for_terminal(text), text);
    }
}

#[test]
fn display_path_neutralizes_control_characters() {
    let rendered = display_path("src/evil\u{1b}[2Kname.rs");

    assert!(!rendered.contains('\u{1b}'));
    assert!(rendered.contains("[2Kname.rs"));
}

#[test]
fn default_analysis_has_not_run() {
    assert!(Analysis::<LineCounts>::default().ran().is_none());
}

#[test]
fn every_not_evaluated_reason_has_a_distinct_token() {
    let reasons = [
        NotEvaluated::Disabled.reason(),
        NotEvaluated::InputUnavailable(String::new()).reason(),
        NotEvaluated::Unsupported(String::new()).reason(),
        NotEvaluated::Failed(String::new()).reason(),
    ];

    assert_eq!(reasons, ["disabled", "input_unavailable", "unsupported", "failed"]);

    let mut sorted: Vec<&str> = reasons.to_vec();
    sorted.sort_unstable();
    sorted.dedup();
    assert_eq!(sorted.len(), reasons.len(), "reason tokens must all be distinct");
}

#[test]
fn not_evaluated_detail_names_the_input() {
    let reason = NotEvaluated::Failed("Cargo.toml is not valid TOML".to_owned());

    assert_eq!(reason.reason(), "failed");
    assert_eq!(reason.detail(), Some("Cargo.toml is not valid TOML"));
    assert_eq!(NotEvaluated::Disabled.detail(), None);
}

#[test]
fn an_analysis_that_ran_hands_back_its_value() {
    let counts = LineCounts { lines: 7, text_files: 1, binary_files: 0, unreadable_files: 0 };
    let analysis = Analysis::Ran(counts.clone());

    assert_eq!(analysis.ran(), Some(&counts));
}

#[test]
fn the_default_configuration_reads_everything() {
    let config = ScanConfig::default();

    assert_eq!(config.ignored_directories, vec![".git".to_owned(), "target".to_owned(), "node_modules".to_owned()]);
    assert!(config.count_lines && config.read_git && config.read_cargo && config.read_profile);
    assert_eq!(config.activity_window_days, 30);
}

#[test]
fn keeping_the_top_entries_limits_both_lists() {
    let mut report = ScanReport {
        files: 3,
        bytes: 60,
        largest_files: vec![
            FileEntry { path: "c".to_owned(), bytes: 30 },
            FileEntry { path: "b".to_owned(), bytes: 20 },
            FileEntry { path: "a".to_owned(), bytes: 10 },
        ],
        largest_directories: vec![DirectoryEntry { path: "src".to_owned(), files: 2, bytes: 50 }],
        ..ScanReport::default()
    };

    report.keep_top(2);
    assert_eq!(report.largest_files.len(), 2);
    assert_eq!(report.largest_files[1].path, "b");
    assert_eq!(report.largest_directories.len(), 1);
    assert_eq!(report.files, 3);

    report.keep_top(0);
    assert!(report.largest_files.is_empty());
    assert!(report.largest_directories.is_empty());
}
