use repo_radar::scan::lines::{FileText, LineCounter};
use repo_radar::scan::{entry_action, ScanErrorKind, extension_label, should_skip, walk_order, EntryAction, EntryKind, ScanState};
use repo_radar::{scan, Analysis, DirectoryEntry, ExtensionCount, FileEntry, LanguageStat, LineCounts, NotEvaluated, ScanConfig};

fn disabled<T, U>() -> (Analysis<T>, Analysis<U>) {
    (Analysis::NotEvaluated(NotEvaluated::Disabled), Analysis::NotEvaluated(NotEvaluated::Disabled))
}

fn classify(bytes: &[u8]) -> FileText {
    let mut counter = LineCounter::new();
    for chunk in bytes.chunks(3) {
        if !counter.feed(chunk) {
            break;
        }
    }
    counter.finish()
}

fn record(state: &mut ScanState, path: &str, bytes: u64, content: Option<FileText>) {
    let name = path.rsplit('/').next().unwrap();
    let extension = repo_radar::scan::file_extension(name);
    let key = extension_label(extension.as_deref());
    let lines = match content {
        Some(FileText::Text { lines }) => lines,
        _ => 0,
    };
    assert!(state.can_record(bytes, lines));
    state.record_file(path.to_owned(), bytes, key, content);
}

#[test]
fn counts_lines_as_text_files_have_them() {
    assert_eq!(classify(b"one\ntwo\nthree"), FileText::Text { lines: 3 });
    assert_eq!(classify(b"one\ntwo\n"), FileText::Text { lines: 2 });
    assert_eq!(classify(b""), FileText::Text { lines: 0 });
    assert_eq!(classify(b"ab\0cd\n"), FileText::Binary);
    let mut late_nul = vec![b'a'; 9000];
    late_nul[8500] = 0;
    assert_eq!(classify(&late_nul), FileText::Text { lines: 1 }, "a NUL past the window is text");
}

#[test]
fn the_walk_skips_links_and_ignored_names() {
    let config = ScanConfig::default();

    assert_eq!(entry_action(EntryKind::Symlink, Some("src"), &config), EntryAction::Skip);
    assert_eq!(entry_action(EntryKind::Directory, Some(".git"), &config), EntryAction::Skip);
    assert_eq!(entry_action(EntryKind::File, Some("node_modules"), &config), EntryAction::Count, "ignored names are directory names");
    assert_eq!(entry_action(EntryKind::Directory, Some("node_modules"), &config), EntryAction::Skip);
    assert_eq!(entry_action(EntryKind::Directory, Some("src"), &config), EntryAction::Descend);
    assert_eq!(entry_action(EntryKind::File, Some("lib.rs"), &config), EntryAction::Count);
    assert_eq!(entry_action(EntryKind::Other, Some("fifo"), &config), EntryAction::Skip);
    assert_eq!(entry_action(EntryKind::File, None, &config), EntryAction::Count);
    assert!(should_skip("target", &config));
    assert!(!should_skip("targets", &config));

    let extra = ScanConfig {
        ignored_directories: vec!["vendor".to_owned()],
        ..ScanConfig::default()
    };
    assert!(should_skip("vendor", &extra));
    assert!(!should_skip(".git", &extra));
}

#[test]
fn entries_are_walked_in_name_order() {
    let names = vec![b"b.rs".to_vec(), b"B.rs".to_vec(), b"a".to_vec(), vec![0xff], b"a.rs".to_vec()];

    let ordered = walk_order(names);

    assert_eq!(ordered, vec![b"B.rs".to_vec(), b"a".to_vec(), b"a.rs".to_vec(), b"b.rs".to_vec(), vec![0xff]]);
}

#[test]
fn a_scan_reports_what_the_walk_recorded() {
    let config = ScanConfig::default();
    let mut state = ScanState::new("/root", &config);
    record(&mut state, "Cargo.toml", 300, Some(FileText::Text { lines: 12 }));
    record(&mut state, "src/lib.rs", 2000, Some(FileText::Text { lines: 80 }));
    record(&mut state, "src/bin/main.rs", 500, Some(FileText::Text { lines: 20 }));
    record(&mut state, "assets/logo.PNG", 2000, Some(FileText::Binary));
    record(&mut state, "README", 100, Some(FileText::Unreadable));

    let report = scan("/root", true, state, disabled(), disabled()).expect("the root is a directory");

    assert_eq!(report.files, 5);
    assert_eq!(report.bytes, 4900);
    assert_eq!(
        report.lines,
        Analysis::Ran(LineCounts { lines: 112, text_files: 3, binary_files: 1, unreadable_files: 1 })
    );
    assert_eq!(
        report.by_extension,
        vec![
            ExtensionCount { extension: "[no extension]".to_owned(), files: 1 },
            ExtensionCount { extension: "png".to_owned(), files: 1 },
            ExtensionCount { extension: "rs".to_owned(), files: 2 },
            ExtensionCount { extension: "toml".to_owned(), files: 1 },
        ]
    );
    assert_eq!(report.extension_count("rs"), Some(2));
    assert_eq!(report.extension_count("go"), None);
    assert_eq!(
        report.by_language,
        vec![
            LanguageStat { language: "Rust".to_owned(), files: 2, bytes: 2500, lines: 100 },
            LanguageStat { language: "[unrecognized]".to_owned(), files: 1, bytes: 2000, lines: 0 },
            LanguageStat { language: "TOML".to_owned(), files: 1, bytes: 300, lines: 12 },
            LanguageStat { language: "[no extension]".to_owned(), files: 1, bytes: 100, lines: 0 },
        ]
    );
    assert_eq!(
        report.largest_files,
        vec![
            FileEntry { path: "assets/logo.PNG".to_owned(), bytes: 2000 },
            FileEntry { path: "src/lib.rs".to_owned(), bytes: 2000 },
            FileEntry { path: "src/bin/main.rs".to_owned(), bytes: 500 },
            FileEntry { path: "Cargo.toml".to_owned(), bytes: 300 },
            FileEntry { path: "README".to_owned(), bytes: 100 },
        ]
    );
    assert_eq!(
        report.largest_directories,
        vec![
            DirectoryEntry { path: "src".to_owned(), files: 2, bytes: 2500 },
            DirectoryEntry { path: "assets".to_owned(), files: 1, bytes: 2000 },
            DirectoryEntry { path: "src/bin".to_owned(), files: 1, bytes: 500 },
        ],
        "directory totals include every descendant, and the root is left out"
    );
    assert_eq!(report.warnings.len(), 1);
    assert_eq!(report.warnings[0].path, "/root/README");
    assert_eq!(report.warnings[0].message, "could not read file to count lines");
}

#[test]
fn a_root_that_is_not_a_directory_is_refused() {
    let state = ScanState::new("missing", &ScanConfig::default());

    let error = scan("missing", false, state, disabled(), disabled()).expect_err("not a directory");

    assert_eq!(error.kind, ScanErrorKind::NotFound);
    assert_eq!(error.message, "missing is not a directory");
}

#[test]
fn disabling_line_counting_reports_not_evaluated() {
    let config = ScanConfig { count_lines: false, ..ScanConfig::default() };
    let mut state = ScanState::new("/root", &config);
    record(&mut state, "notes.txt", 10, None);
    state.add_warning("/root/locked".to_owned(), "permission denied".to_owned());

    let report = scan("/root", true, state, disabled(), disabled()).unwrap();

    assert_eq!(report.lines, Analysis::NotEvaluated(NotEvaluated::Disabled));
    assert_eq!(report.by_language[0].lines, 0);
    assert_eq!(report.warnings[0].message, "permission denied");
}

#[test]
fn any_listing_of_the_same_names_is_walked_alike() {
    let names: Vec<Vec<u8>> = vec![b"src".to_vec(), b"Cargo.toml".to_vec(), b"README.md".to_vec(), b".gitignore".to_vec()];
    let mut reversed = names.clone();
    reversed.reverse();
    let mut rotated = names.clone();
    rotated.rotate_left(2);

    let expected = walk_order(names);
    assert_eq!(walk_order(reversed), expected);
    assert_eq!(walk_order(rotated), expected);
    assert_eq!(expected[0], b".gitignore".to_vec());
}

#[test]
fn an_unreadable_file_is_named_below_the_root() {
    let mut state = ScanState::new("repo/", &ScanConfig::default());
    let key = extension_label(Some("rs"));
    state.record_file("src/x.rs".to_owned(), 4, key, Some(FileText::Unreadable));

    let report = scan("repo/", true, state, disabled(), disabled()).unwrap();

    assert_eq!(report.warnings[0].path, "repo/src/x.rs");
    assert_eq!(report.lines, Analysis::Ran(LineCounts { lines: 0, text_files: 0, binary_files: 0, unreadable_files: 1 }));
}
